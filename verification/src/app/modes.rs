//! The modes of the session and the actions that a hotkey can be bound to.

use vstd::prelude::*;

use crate::hotkeys::registry::HotkeyContext;

verus! {

/// What the list shows: a directory listing or the most visited paths.
#[derive(Debug, Clone, Copy, PartialEq, Eq, Structural)]
pub enum ListMode {
    /// The entries of the current directory.
    Directory,
    /// The paths of the index that were visited often and lately.
    Frecent,
}

impl Default for ListMode {
    fn default() -> (mode: ListMode)
        ensures
            mode == ListMode::Directory,
    {
        ListMode::Directory
    }
}

/// How keystrokes are read: as navigation or as text of the search box.
#[derive(Debug, PartialEq, Eq, Hash, Clone, Copy, Structural)]
pub enum InputMode {
    Normal,
    Search,
}

impl HotkeyContext for InputMode {
    open spec fn slot(&self) -> u64 {
        match self {
            InputMode::Normal => 0,
            InputMode::Search => 1,
        }
    }

    fn slot_of(&self) -> (s: u64) {
        match self {
            InputMode::Normal => 0,
            InputMode::Search => 1,
        }
    }

    proof fn lemma_slots_identify(a: &Self, b: &Self) {
    }
}

/// What a hotkey can be bound to.
#[derive(Debug, Clone, Copy, PartialEq, Eq, Structural)]
pub enum Action {
    SelectNext,
    SelectPrevious,
    SelectFirst,
    SelectLast,
    ChangeDirectoryToSelectedEntry,
    ChangeDirectoryToParent,
    /// Change into the entry at this position of the rendered list.
    ChangeDirectoryToEntryWithIndex(usize),
    SwitchToListMode(ListMode),
    SwitchToInputMode(InputMode),
    ResetSearchInput,
    ExitSearchInput,
    ExitSearchMode,
    SearchInputBackspace,
    ToggleHelp,
    Exit,
}

} // verus!
