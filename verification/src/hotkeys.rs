//! The hotkey engine: key combinations, the prefix trie over them, the
//! two-tier registry and the assignment of shortcuts to directory entries.

pub mod assign;
pub mod combo;
pub mod defaults;
pub mod registry;
pub mod sequences;
pub mod trie;

pub use combo::{KeyCode, KeyCombo, KeyModifiers};
pub use defaults::{preferred_key_combos_in_order, PREFERRED_KEYS_IN_ORDER};
pub use registry::{HotkeyContext, HotkeysRegistry};
pub use trie::{HotkeysTrie, HotkeysTrieNode};
