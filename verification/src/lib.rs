//! An interactive directory jumper: a keystroke-sequence hotkey engine and a
//! frecency index of visited directories.

pub mod app;
pub mod entry;
pub mod hotkeys;
pub mod index;
pub mod paths;
pub mod text;
