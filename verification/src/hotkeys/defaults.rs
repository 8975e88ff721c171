//! The hotkeys that the session starts with, and the combinations that
//! shortcuts are made of.

use vstd::prelude::*;

use super::combo::{KeyCode, KeyCombo, KeyModifiers};
use super::registry::HotkeysRegistry;
use crate::app::{Action, InputMode, ListMode};

verus! {

/// The keys that shortcuts are made of, the most comfortable first.
pub const PREFERRED_KEYS_IN_ORDER: [char; 31] = [
    'a', 's', 'w', 'e', 'r', 't', 'z', 'x', 'c', 'v', 'b', 'y', 'u', 'i', 'o', 'p', 'n', 'm', ',',
    '1', '2', '3', '4', '5', '6', '7', '8', '9', '0', '-', '=',
];

/// The combinations that shortcuts are made of: each preferred key, without
/// modifiers, in the order of preference.
pub fn preferred_key_combos_in_order() -> (pool: Vec<KeyCombo>)
    ensures
        pool@.len() == 31,
        forall|i: int|
            0 <= i < 31 ==> #[trigger] pool@[i] == KeyCombo::of_char(PREFERRED_KEYS_IN_ORDER@[i]),
        pool@.no_duplicates(),
{
    let mut pool: Vec<KeyCombo> = Vec::new();
    let mut i: usize = 0;
    while i < 31
        invariant
            i <= 31,
            pool@.len() == i,
            forall|j: int|
                0 <= j < i ==> #[trigger] pool@[j] == KeyCombo::of_char(
                    PREFERRED_KEYS_IN_ORDER@[j],
                ),
        decreases 31 - i,
    {
        pool.push(KeyCombo::from(PREFERRED_KEYS_IN_ORDER[i]));
        i += 1;
    }
    assert(pool@.no_duplicates()) by {
        assert forall|a: int, b: int| 0 <= a < 31 && 0 <= b < 31 && a != b implies pool@[a]
            != pool@[b] by {
            assert(PREFERRED_KEYS_IN_ORDER@[a] != PREFERRED_KEYS_IN_ORDER@[b]);
        }
    }
    pool
}

/// The sequence of one combination.
pub open spec fn single(key: KeyCombo) -> Seq<KeyCombo> {
    seq![key]
}

/// A character key held with the given modifier bits.
pub open spec fn with_bits(c: char, bits: u8) -> KeyCombo {
    KeyCombo { key_code: KeyCode::Char(c), modifiers: KeyModifiers { bits } }
}

/// What the system tier binds to `keys` in `mode` when the session starts.
pub open spec fn default_system_hotkey(mode: InputMode, keys: Seq<KeyCombo>) -> Option<Action> {
    match mode {
        InputMode::Normal => {
            if keys == seq![KeyCombo::of_char('g'), KeyCombo::of_char('g')] {
                Some(Action::SelectFirst)
            } else if keys == single(KeyCombo::of_code(KeyCode::Home)) {
                Some(Action::SelectFirst)
            } else if keys == single(with_bits('G', KeyModifiers::SHIFT_BIT)) {
                Some(Action::SelectLast)
            } else if keys == single(KeyCombo::of_code(KeyCode::End)) {
                Some(Action::SelectLast)
            } else if keys == single(KeyCombo::of_char('j')) {
                Some(Action::SelectNext)
            } else if keys == single(KeyCombo::of_code(KeyCode::Down)) {
                Some(Action::SelectNext)
            } else if keys == single(KeyCombo::of_char('k')) {
                Some(Action::SelectPrevious)
            } else if keys == single(KeyCombo::of_code(KeyCode::Up)) {
                Some(Action::SelectPrevious)
            } else if keys == single(with_bits('d', KeyModifiers::CONTROL_BIT)) {
                Some(Action::SwitchToListMode(ListMode::Directory))
            } else if keys == single(KeyCombo::of_char('l')) {
                Some(Action::ChangeDirectoryToSelectedEntry)
            } else if keys == single(KeyCombo::of_char('h')) {
                Some(Action::ChangeDirectoryToParent)
            } else if keys == single(with_bits('f', KeyModifiers::CONTROL_BIT)) {
                Some(Action::SwitchToListMode(ListMode::Frecent))
            } else if keys == single(KeyCombo::of_char('?')) {
                Some(Action::ToggleHelp)
            } else if keys == single(KeyCombo::of_char('/')) {
                Some(Action::SwitchToInputMode(InputMode::Search))
            } else if keys == single(KeyCombo::of_code(KeyCode::Esc)) {
                Some(Action::Exit)
            } else if keys == single(KeyCombo::of_char('q')) {
                Some(Action::Exit)
            } else if keys == single(KeyCombo::of_code(KeyCode::Enter)) {
                Some(Action::ChangeDirectoryToSelectedEntry)
            } else if keys == single(KeyCombo::of_char('_')) {
                Some(Action::ResetSearchInput)
            } else {
                None
            }
        },
        InputMode::Search => {
            if keys == single(KeyCombo::of_code(KeyCode::Esc)) {
                Some(Action::ExitSearchMode)
            } else if keys == single(KeyCombo::of_code(KeyCode::Enter)) {
                Some(Action::ExitSearchInput)
            } else if keys == single(KeyCombo::of_code(KeyCode::Backspace)) {
                Some(Action::SearchInputBackspace)
            } else {
                None
            }
        },
    }
}

/// Binds `action` to the single combination `key` in the system tier of
/// `mode`.
fn bind_key(
    registry: &mut HotkeysRegistry<InputMode, Action>,
    mode: InputMode,
    key: KeyCombo,
    action: Action,
)
    requires
        old(registry).system_hotkeys_count < 100,
    ensures
        final(registry).system_hotkeys_count == old(registry).system_hotkeys_count + 1,
        final(registry).entry_hotkeys_count == old(registry).entry_hotkeys_count,
        final(registry).entry_hotkeys == old(registry).entry_hotkeys,
        forall|c: InputMode, keys: Seq<KeyCombo>| #[trigger]
            final(registry).system_value(c, keys) == (if c == mode && keys == single(key) {
                Some(action)
            } else {
                old(registry).system_value(c, keys)
            }),
        old(registry).well_formed() ==> final(registry).well_formed(),
{
    let mut sequence: Vec<KeyCombo> = Vec::new();
    sequence.push(key);
    assert(sequence@ =~= single(key));
    registry.register_system_hotkey(mode, sequence.as_slice(), action);
}

impl HotkeysRegistry<InputMode, Action> {
    /// The registry that the session starts with: the system hotkeys of
    /// both modes, and no hotkey of an entry.
    pub fn new_with_default_system_hotkeys() -> (registry: Self)
        ensures
            forall|mode: InputMode, keys: Seq<KeyCombo>| #[trigger]
                registry.system_value(mode, keys) == default_system_hotkey(mode, keys),
            registry.system_hotkeys_count == 21,
            registry.entry_hotkeys_count == 0,
            registry.entry_hotkeys.is_empty(),
            registry.well_formed(),
    {
        let mut registry = HotkeysRegistry::new();
        let mut go_to_first: Vec<KeyCombo> = Vec::new();
        go_to_first.push(KeyCombo::from('g'));
        go_to_first.push(KeyCombo::from('g'));
        assert(go_to_first@ =~= seq![KeyCombo::of_char('g'), KeyCombo::of_char('g')]);
        registry.register_system_hotkey(
            InputMode::Normal,
            go_to_first.as_slice(),
            Action::SelectFirst,
        );
        bind_key(&mut registry, InputMode::Normal, KeyCombo::from(KeyCode::Home), Action::SelectFirst);
        bind_key(
            &mut registry,
            InputMode::Normal,
            KeyCombo::from(('G', KeyModifiers::shift())),
            Action::SelectLast,
        );
        bind_key(&mut registry, InputMode::Normal, KeyCombo::from(KeyCode::End), Action::SelectLast);
        bind_key(&mut registry, InputMode::Normal, KeyCombo::from('j'), Action::SelectNext);
        bind_key(&mut registry, InputMode::Normal, KeyCombo::from(KeyCode::Down), Action::SelectNext);
        bind_key(&mut registry, InputMode::Normal, KeyCombo::from('k'), Action::SelectPrevious);
        bind_key(&mut registry, InputMode::Normal, KeyCombo::from(KeyCode::Up), Action::SelectPrevious);
        bind_key(
            &mut registry,
            InputMode::Normal,
            KeyCombo::from(('d', KeyModifiers::control())),
            Action::SwitchToListMode(ListMode::Directory),
        );
        bind_key(
            &mut registry,
            InputMode::Normal,
            KeyCombo::from('l'),
            Action::ChangeDirectoryToSelectedEntry,
        );
        bind_key(
            &mut registry,
            InputMode::Normal,
            KeyCombo::from('h'),
            Action::ChangeDirectoryToParent,
        );
        bind_key(
            &mut registry,
            InputMode::Normal,
            KeyCombo::from(('f', KeyModifiers::control())),
            Action::SwitchToListMode(ListMode::Frecent),
        );
        bind_key(&mut registry, InputMode::Normal, KeyCombo::from('?'), Action::ToggleHelp);
        bind_key(
            &mut registry,
            InputMode::Normal,
            KeyCombo::from('/'),
            Action::SwitchToInputMode(InputMode::Search),
        );
        bind_key(&mut registry, InputMode::Normal, KeyCombo::from(KeyCode::Esc), Action::Exit);
        bind_key(&mut registry, InputMode::Normal, KeyCombo::from('q'), Action::Exit);
        bind_key(
            &mut registry,
            InputMode::Normal,
            KeyCombo::from(KeyCode::Enter),
            Action::ChangeDirectoryToSelectedEntry,
        );
        bind_key(&mut registry, InputMode::Normal, KeyCombo::from('_'), Action::ResetSearchInput);
        bind_key(
            &mut registry,
            InputMode::Search,
            KeyCombo::from(KeyCode::Esc),
            Action::ExitSearchMode,
        );
        bind_key(
            &mut registry,
            InputMode::Search,
            KeyCombo::from(KeyCode::Enter),
            Action::ExitSearchInput,
        );
        bind_key(
            &mut registry,
            InputMode::Search,
            KeyCombo::from(KeyCode::Backspace),
            Action::SearchInputBackspace,
        );
        registry
    }
}

} // verus!
