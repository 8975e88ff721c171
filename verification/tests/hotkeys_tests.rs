use tiny_dc::app::{Action, InputMode, ListMode};
use tiny_dc::entry::{Entry, EntryKind, EntryRenderData};
use tiny_dc::hotkeys::defaults::{preferred_key_combos_in_order, PREFERRED_KEYS_IN_ORDER};
use tiny_dc::hotkeys::sequences::{all_sequences, sequence_at};
use tiny_dc::hotkeys::{HotkeysRegistry, HotkeysTrie, KeyCode, KeyCombo, KeyModifiers};

fn directory(name: &str) -> Entry {
    Entry {
        name: name.into(),
        kind: EntryKind::Directory,
        path: format!("/home/user/{name}/"),
    }
}

fn file(name: &str) -> Entry {
    Entry {
        name: name.into(),
        kind: EntryKind::File { extension: None },
        path: format!("/home/user/{name}"),
    }
}

#[test]
fn hotkeys_trie_works_correctly() {
    let mut trie = HotkeysTrie::new();
    trie.insert(&[KeyCombo::from('a'), KeyCombo::from('b')], 1);

    trie.insert(&[KeyCombo::from('a'), KeyCombo::from('c')], 2);

    trie.insert(&[KeyCombo::from('c'), KeyCombo::from('d')], 3);

    trie.insert(&[KeyCombo::from('a'), KeyCombo::from('z')], 1);

    assert_eq!(
        trie.get_value(&[KeyCombo::from('a'), KeyCombo::from('b'),]),
        Some(&1)
    );
    assert_eq!(
        trie.get_value(&[KeyCombo::from('a'), KeyCombo::from('c'),]),
        Some(&2)
    );
    assert_eq!(
        trie.get_value(&[KeyCombo::from('c'), KeyCombo::from('d'),]),
        Some(&3)
    );

    assert_eq!(
        trie.get_value(&[KeyCombo::from('a'), KeyCombo::from('d'),]),
        None
    );

    assert_eq!(
        trie.get_value(&[KeyCombo::from('a'), KeyCombo::from('z'),]),
        Some(&1)
    );
}

#[test]
fn hotkeys_trie_clear_works_correctly() {
    let mut trie = HotkeysTrie::new();
    trie.insert(&[KeyCombo::from('a'), KeyCombo::from('b')], 1);

    assert_eq!(
        trie.get_value(&[KeyCombo::from('a'), KeyCombo::from('b'),]),
        Some(&1)
    );

    trie.clear();

    assert_eq!(
        trie.get_value(&[KeyCombo::from('a'), KeyCombo::from('b'),]),
        None
    );
}

#[test]
fn generate_sequence_permutations_works_correctly() {
    let available_key_combos = &[
        KeyCombo::from('a'),
        KeyCombo::from('b'),
        KeyCombo::from('c'),
    ];

    let result: Vec<Vec<KeyCombo>> =
        HotkeysRegistry::generate_sequence_permutations(available_key_combos, 1);

    assert_eq!(result.len(), 3);
    assert_eq!(
        result[0],
        vec![KeyCombo {
            key_code: KeyCode::Char('a'),
            modifiers: KeyModifiers::none()
        }]
    );
    assert_eq!(
        result[1],
        vec![KeyCombo {
            key_code: KeyCode::Char('b'),
            modifiers: KeyModifiers::none()
        }]
    );
    assert_eq!(
        result[2],
        vec![KeyCombo {
            key_code: KeyCode::Char('c'),
            modifiers: KeyModifiers::none()
        }]
    );

    let result: Vec<Vec<KeyCombo>> =
        HotkeysRegistry::generate_sequence_permutations(available_key_combos, 2);

    assert_eq!(result.len(), 9);

    let expected_characters = [
        ['a', 'a'],
        ['a', 'b'],
        ['a', 'c'],
        ['b', 'a'],
        ['b', 'b'],
        ['b', 'c'],
        ['c', 'a'],
        ['c', 'b'],
        ['c', 'c'],
    ];

    for (i, key_combos) in result.iter().enumerate() {
        assert_eq!(key_combos.len(), 2);
        assert_eq!(
            key_combos[0].key_code,
            KeyCode::Char(expected_characters[i][0])
        );
        assert_eq!(
            key_combos[1].key_code,
            KeyCode::Char(expected_characters[i][1])
        );
    }

    let result: Vec<Vec<KeyCombo>> =
        HotkeysRegistry::generate_sequence_permutations(available_key_combos, 3);

    assert_eq!(result.len(), 27);

    let expected_characters = [
        ['a', 'a', 'a'],
        ['a', 'a', 'b'],
        ['a', 'a', 'c'],
        ['a', 'b', 'a'],
        ['a', 'b', 'b'],
        ['a', 'b', 'c'],
        ['a', 'c', 'a'],
        ['a', 'c', 'b'],
        ['a', 'c', 'c'],
        ['b', 'a', 'a'],
        ['b', 'a', 'b'],
        ['b', 'a', 'c'],
        ['b', 'b', 'a'],
        ['b', 'b', 'b'],
        ['b', 'b', 'c'],
        ['b', 'c', 'a'],
        ['b', 'c', 'b'],
        ['b', 'c', 'c'],
        ['c', 'a', 'a'],
        ['c', 'a', 'b'],
        ['c', 'a', 'c'],
        ['c', 'b', 'a'],
        ['c', 'b', 'b'],
        ['c', 'b', 'c'],
        ['c', 'c', 'a'],
        ['c', 'c', 'b'],
        ['c', 'c', 'c'],
    ];

    for (i, key_combos) in result.iter().enumerate() {
        assert_eq!(key_combos.len(), 3);
        assert_eq!(
            key_combos[0].key_code,
            KeyCode::Char(expected_characters[i][0])
        );
        assert_eq!(
            key_combos[1].key_code,
            KeyCode::Char(expected_characters[i][1])
        );
        assert_eq!(
            key_combos[2].key_code,
            KeyCode::Char(expected_characters[i][2])
        );
    }

    let result: Vec<Vec<KeyCombo>> =
        HotkeysRegistry::generate_sequence_permutations(available_key_combos, 4);

    assert_eq!(result.len(), 81);
}

#[test]
fn assign_hotkeys_works_correctly() {
    let entries = [
        Entry {
            name: "s-dir1".into(),
            kind: EntryKind::Directory,
            path: "/home/user/s-dir/".into(),
        },
        Entry {
            name: "d-dir2".into(),
            kind: EntryKind::Directory,
            path: "/home/user/d-dir/".into(),
        },
        Entry {
            name: "w-dir3".into(),
            kind: EntryKind::Directory,
            path: "/home/user/w-dir/".into(),
        },
        Entry {
            name: "e-dir4".into(),
            kind: EntryKind::Directory,
            path: "/home/user/e-dir/".into(),
        },
        Entry {
            name: "r-dir5".into(),
            kind: EntryKind::Directory,
            path: "/home/user/Cargo.toml".into(),
        },
        Entry {
            name: "Cargo.toml".into(),
            kind: EntryKind::File {
                extension: Some("toml".into()),
            },
            path: "/home/user/Cargo.toml".into(),
        },
    ];

    let mut entry_render_data: Vec<EntryRenderData> = entries
        .iter()
        .map(|entry| EntryRenderData::from_entry(entry, ""))
        .collect();

    let mut hotkeys_registry = HotkeysRegistry::new();

    hotkeys_registry.assign_hotkeys(
        &mut entry_render_data,
        &[
            KeyCombo::from('b'),
            KeyCombo::from('a'),
            KeyCombo::from('c'),
            KeyCombo::from('y'),
        ],
    );

    assert_eq!(hotkeys_registry.entry_hotkeys_count, 5);

    assert_eq!(
        entry_render_data[0].key_combo_sequence,
        Some(vec![KeyCombo::from('b'), KeyCombo::from('b')])
    );

    assert_eq!(
        entry_render_data[1].key_combo_sequence,
        Some(vec![KeyCombo::from('b'), KeyCombo::from('a')])
    );

    assert_eq!(
        entry_render_data[2].key_combo_sequence,
        Some(vec![KeyCombo::from('b'), KeyCombo::from('y')])
    );

    assert_eq!(
        entry_render_data[3].key_combo_sequence,
        Some(vec![KeyCombo::from('a'), KeyCombo::from('b')])
    );

    assert_eq!(
        entry_render_data[4].key_combo_sequence,
        Some(vec![KeyCombo::from('a'), KeyCombo::from('a')])
    );

    assert_eq!(entry_render_data[5].key_combo_sequence, None);
}

#[test]
fn assigned_hotkeys_lead_to_their_entries() {
    let entries = [directory("s-dir1"), file("notes"), directory("d-dir2")];
    let mut rendered: Vec<EntryRenderData> = entries
        .iter()
        .map(|entry| EntryRenderData::from_entry(entry, ""))
        .collect();
    let mut registry = HotkeysRegistry::new();
    registry.assign_hotkeys(&mut rendered, &[KeyCombo::from('a'), KeyCombo::from('b')]);

    assert_eq!(rendered[0].key_combo_sequence, Some(vec![KeyCombo::from('a')]));
    assert_eq!(rendered[1].key_combo_sequence, None);
    assert_eq!(rendered[2].key_combo_sequence, Some(vec![KeyCombo::from('b')]));
    assert_eq!(
        registry.get_hotkey_value(InputMode::Normal, &[KeyCombo::from('a')]),
        Some(&Action::ChangeDirectoryToEntryWithIndex(0))
    );
    assert_eq!(
        registry.get_hotkey_value(InputMode::Normal, &[KeyCombo::from('b')]),
        Some(&Action::ChangeDirectoryToEntryWithIndex(2))
    );
}

#[test]
fn sequence_length_is_the_smallest_that_suffices() {
    // 31 keys are enough for 31 directories with one key each, and 32
    // directories need two keys each.
    let pool = preferred_key_combos_in_order();
    let mut names: Vec<String> = Vec::new();
    for i in 0..32 {
        // In upper case and behind a dot, so that no preferred key is reserved.
        names.push(format!(".{}", (b'A' + (i % 26) as u8) as char));
    }
    let entries: Vec<Entry> = names.iter().map(|name| directory(name)).collect();

    let mut rendered: Vec<EntryRenderData> = entries[..31]
        .iter()
        .map(|entry| EntryRenderData::from_entry(entry, ""))
        .collect();
    let mut registry = HotkeysRegistry::new();
    registry.assign_hotkeys(&mut rendered, &pool);
    for datum in rendered.iter() {
        assert_eq!(datum.key_combo_sequence.as_ref().unwrap().len(), 1);
    }
    assert_eq!(registry.entry_hotkeys_count, 31);

    let mut rendered: Vec<EntryRenderData> = entries
        .iter()
        .map(|entry| EntryRenderData::from_entry(entry, ""))
        .collect();
    registry.assign_hotkeys(&mut rendered, &pool);
    for datum in rendered.iter() {
        assert_eq!(datum.key_combo_sequence.as_ref().unwrap().len(), 2);
    }
    assert_eq!(registry.entry_hotkeys_count, 32);
    assert_eq!(
        rendered[0].key_combo_sequence,
        Some(vec![KeyCombo::from('a'), KeyCombo::from('a')])
    );
    assert_eq!(
        rendered[31].key_combo_sequence,
        Some(vec![KeyCombo::from('s'), KeyCombo::from('a')])
    );
}

#[test]
fn assigned_sequences_are_pairwise_distinct() {
    let names: Vec<String> = (0..40).map(|i| format!(".{i}")).collect();
    let entries: Vec<Entry> = names.iter().map(|name| directory(name)).collect();
    let mut rendered: Vec<EntryRenderData> = entries
        .iter()
        .map(|entry| EntryRenderData::from_entry(entry, ""))
        .collect();
    let mut registry = HotkeysRegistry::new();
    registry.assign_hotkeys(
        &mut rendered,
        &[KeyCombo::from('a'), KeyCombo::from('b'), KeyCombo::from('c')],
    );
    // 3 keys: 27 sequences of length 3 do not suffice for 40, 81 of length 4 do.
    for (i, first) in rendered.iter().enumerate() {
        let sequence = first.key_combo_sequence.as_ref().unwrap();
        assert_eq!(sequence.len(), 4);
        for second in rendered[i + 1..].iter() {
            assert_ne!(Some(sequence), second.key_combo_sequence.as_ref());
        }
    }
}

#[test]
fn no_shortcuts_with_a_single_key_for_several_directories() {
    let entries = [directory("s-dir1"), directory("d-dir2")];
    let mut rendered: Vec<EntryRenderData> = entries
        .iter()
        .map(|entry| EntryRenderData::from_entry(entry, ""))
        .collect();
    let mut registry = HotkeysRegistry::new();
    registry.register_entry_hotkey(&[KeyCombo::from('x')], Action::ChangeDirectoryToEntryWithIndex(7));

    // 's' and 'd' are reserved by the entries: only 'a' is left.
    registry.assign_hotkeys(
        &mut rendered,
        &[KeyCombo::from('s'), KeyCombo::from('a'), KeyCombo::from('d')],
    );

    assert_eq!(registry.entry_hotkeys_count, 0);
    assert_eq!(rendered[0].key_combo_sequence, None);
    assert_eq!(rendered[1].key_combo_sequence, None);
    assert!(registry
        .get_hotkey_node(InputMode::Normal, &[KeyCombo::from('a')])
        .is_none());
    assert!(registry
        .get_hotkey_node(InputMode::Normal, &[KeyCombo::from('x')])
        .is_none());
}

#[test]
fn single_directory_gets_a_single_key() {
    let entries = [file("alpha"), directory("beta")];
    let mut rendered: Vec<EntryRenderData> = entries
        .iter()
        .map(|entry| EntryRenderData::from_entry(entry, ""))
        .collect();
    let mut registry = HotkeysRegistry::new();
    // 'a' and 'b' are reserved: one key is left for the one directory.
    registry.assign_hotkeys(
        &mut rendered,
        &[KeyCombo::from('a'), KeyCombo::from('b'), KeyCombo::from('c')],
    );
    assert_eq!(rendered[1].key_combo_sequence, Some(vec![KeyCombo::from('c')]));
    assert_eq!(registry.entry_hotkeys_count, 1);
}

#[test]
fn no_shortcuts_without_available_keys_or_directories() {
    let entries = [directory("alpha")];
    let mut rendered: Vec<EntryRenderData> = entries
        .iter()
        .map(|entry| EntryRenderData::from_entry(entry, ""))
        .collect();
    let mut registry = HotkeysRegistry::new();
    registry.assign_hotkeys(&mut rendered, &[KeyCombo::from('a')]);
    assert_eq!(rendered[0].key_combo_sequence, None);
    assert_eq!(registry.entry_hotkeys_count, 0);

    let entries = [file("alpha")];
    let mut rendered: Vec<EntryRenderData> = entries
        .iter()
        .map(|entry| EntryRenderData::from_entry(entry, ""))
        .collect();
    registry.assign_hotkeys(&mut rendered, &[KeyCombo::from('x'), KeyCombo::from('y')]);
    assert_eq!(rendered[0].key_combo_sequence, None);
    assert_eq!(registry.entry_hotkeys_count, 0);
}

#[test]
fn modified_keys_are_not_reserved_by_their_character_alone() {
    // The reserved character takes every combination on that key out.
    let entries = [directory("alpha"), directory("beta")];
    let mut rendered: Vec<EntryRenderData> = entries
        .iter()
        .map(|entry| EntryRenderData::from_entry(entry, ""))
        .collect();
    let mut registry = HotkeysRegistry::new();
    registry.assign_hotkeys(
        &mut rendered,
        &[
            KeyCombo::from(('a', KeyModifiers::control())),
            KeyCombo::from(KeyCode::Home),
            KeyCombo::from('x'),
        ],
    );
    assert_eq!(
        rendered[0].key_combo_sequence,
        Some(vec![KeyCombo::from(KeyCode::Home)])
    );
    assert_eq!(rendered[1].key_combo_sequence, Some(vec![KeyCombo::from('x')]));
}

#[test]
fn sequences_are_the_digits_of_their_number() {
    let keys = [KeyCombo::from('a'), KeyCombo::from('b'), KeyCombo::from('c')];
    assert_eq!(sequence_at(&keys, 0, 0), vec![]);
    assert_eq!(
        sequence_at(&keys, 3, 5),
        vec![KeyCombo::from('a'), KeyCombo::from('b'), KeyCombo::from('c')]
    );
    assert_eq!(
        sequence_at(&keys, 2, 8),
        vec![KeyCombo::from('c'), KeyCombo::from('c')]
    );
    let none: [KeyCombo; 0] = [];
    assert_eq!(all_sequences(&none, 0), vec![Vec::<KeyCombo>::new()]);
    assert_eq!(all_sequences(&none, 2), Vec::<Vec<KeyCombo>>::new());
    assert_eq!(all_sequences(&keys, 0), vec![Vec::<KeyCombo>::new()]);
}

#[test]
fn trie_tells_prefixes_from_bindings_and_dead_ends() {
    let mut trie = HotkeysTrie::new();
    let g = KeyCombo::from('g');
    let x = KeyCombo::from('x');
    assert!(trie.get_node(&[]).is_some());
    assert!(trie.get_node(&[g]).is_none());

    trie.insert(&[g, g], 7);
    let prefix = trie.get_node(&[g]).unwrap();
    assert_eq!(prefix.value, None);
    assert!(prefix.is_prefix());
    let bound = trie.get_node(&[g, g]).unwrap();
    assert_eq!(bound.value, Some(7));
    assert!(!bound.is_prefix());
    assert!(trie.get_node(&[x]).is_none());
    assert!(trie.get_node(&[g, x]).is_none());
    assert!(trie.get_node(&[g, g, g]).is_none());
    assert_eq!(trie.get_value(&[g]), None);

    // A later value for the same sequence takes the place of the earlier.
    trie.insert(&[g, g], 8);
    assert_eq!(trie.get_value(&[g, g]), Some(&8));
    // A prefix can be bound as well.
    trie.insert(&[g], 9);
    assert_eq!(trie.get_value(&[g]), Some(&9));
    assert_eq!(trie.get_value(&[g, g]), Some(&8));
    // And the empty sequence.
    trie.insert(&[], 1);
    assert_eq!(trie.get_value(&[]), Some(&1));

    trie.clear();
    assert!(trie.get_node(&[g]).is_none());
    assert_eq!(trie.get_value(&[]), None);
}

#[test]
fn key_combos_differ_by_key_and_by_modifiers() {
    let plain = KeyCombo::from('g');
    let shifted = KeyCombo::from(('g', KeyModifiers::shift()));
    let upper = KeyCombo::from(('G', KeyModifiers::shift()));
    let home = KeyCombo::from(KeyCode::Home);
    let f1 = KeyCombo::from((KeyCode::F(1), KeyModifiers::alt()));
    let all = [plain, shifted, upper, home, f1, KeyCombo::from(KeyCode::F(2))];
    for (i, a) in all.iter().enumerate() {
        for (j, b) in all.iter().enumerate() {
            assert_eq!(a == b, i == j);
            assert_eq!(a.token() == b.token(), i == j);
        }
    }
    assert_eq!(plain.as_char(), Some('g'));
    assert_eq!(home.as_char(), None);
    assert_eq!(KeyModifiers::from_bits(3).bits, 3);
    assert_eq!(
        KeyModifiers::shift().bits | KeyModifiers::control().bits,
        KeyModifiers::SHIFT_BIT | KeyModifiers::CONTROL_BIT
    );

    let mut trie = HotkeysTrie::new();
    trie.insert(&[plain], 1);
    trie.insert(&[shifted], 2);
    trie.insert(&[home], 3);
    assert_eq!(trie.get_value(&[plain]), Some(&1));
    assert_eq!(trie.get_value(&[shifted]), Some(&2));
    assert_eq!(trie.get_value(&[home]), Some(&3));
    assert_eq!(trie.get_value(&[upper]), None);
}

#[test]
fn system_hotkeys_take_precedence_over_entry_hotkeys() {
    let mut registry: HotkeysRegistry<InputMode, Action> = HotkeysRegistry::new();
    let j = [KeyCombo::from('j')];
    let a = [KeyCombo::from('a')];

    // Nothing is found in a registry without hotkeys, not even the root.
    assert!(registry.get_hotkey_node(InputMode::Normal, &[]).is_none());
    assert_eq!(registry.get_hotkey_value(InputMode::Normal, &j), None);

    registry.register_entry_hotkey(&j, Action::ChangeDirectoryToEntryWithIndex(1));
    registry.register_entry_hotkey(&a, Action::ChangeDirectoryToEntryWithIndex(2));
    assert_eq!(
        registry.get_hotkey_value(InputMode::Normal, &j),
        Some(&Action::ChangeDirectoryToEntryWithIndex(1))
    );

    registry.register_system_hotkey(InputMode::Normal, &j, Action::SelectNext);
    assert_eq!(
        registry.get_hotkey_value(InputMode::Normal, &j),
        Some(&Action::SelectNext)
    );
    assert_eq!(
        registry.get_hotkey_node(InputMode::Normal, &j).unwrap().value,
        Some(Action::SelectNext)
    );
    // Another context has no system hotkey for the sequence.
    assert_eq!(
        registry.get_hotkey_value(InputMode::Search, &j),
        Some(&Action::ChangeDirectoryToEntryWithIndex(1))
    );
    // A sequence that the system tier does not have falls to the entry tier.
    assert_eq!(
        registry.get_hotkey_value(InputMode::Normal, &a),
        Some(&Action::ChangeDirectoryToEntryWithIndex(2))
    );

    registry.clear_entry_hotkeys();
    assert_eq!(registry.entry_hotkeys_count, 0);
    assert_eq!(registry.get_hotkey_value(InputMode::Normal, &a), None);
    assert_eq!(
        registry.get_hotkey_value(InputMode::Normal, &j),
        Some(&Action::SelectNext)
    );
    assert_eq!(registry.system_hotkeys_count, 1);
}

#[test]
fn default_system_hotkeys_are_registered() {
    let registry = HotkeysRegistry::new_with_default_system_hotkeys();
    assert_eq!(registry.system_hotkeys_count, 21);
    assert_eq!(registry.entry_hotkeys_count, 0);
    let g = KeyCombo::from('g');
    assert_eq!(
        registry.get_hotkey_value(InputMode::Normal, &[g, g]),
        Some(&Action::SelectFirst)
    );
    assert_eq!(registry.get_hotkey_value(InputMode::Normal, &[g]), None);
    assert!(registry.get_hotkey_node(InputMode::Normal, &[g]).unwrap().is_prefix());
    let expected = [
        (KeyCombo::from(KeyCode::Home), Action::SelectFirst),
        (KeyCombo::from(('G', KeyModifiers::shift())), Action::SelectLast),
        (KeyCombo::from(KeyCode::End), Action::SelectLast),
        (KeyCombo::from('j'), Action::SelectNext),
        (KeyCombo::from(KeyCode::Down), Action::SelectNext),
        (KeyCombo::from('k'), Action::SelectPrevious),
        (KeyCombo::from(KeyCode::Up), Action::SelectPrevious),
        (
            KeyCombo::from(('d', KeyModifiers::control())),
            Action::SwitchToListMode(ListMode::Directory),
        ),
        (KeyCombo::from('l'), Action::ChangeDirectoryToSelectedEntry),
        (KeyCombo::from('h'), Action::ChangeDirectoryToParent),
        (
            KeyCombo::from(('f', KeyModifiers::control())),
            Action::SwitchToListMode(ListMode::Frecent),
        ),
        (KeyCombo::from('?'), Action::ToggleHelp),
        (KeyCombo::from('/'), Action::SwitchToInputMode(InputMode::Search)),
        (KeyCombo::from(KeyCode::Esc), Action::Exit),
        (KeyCombo::from('q'), Action::Exit),
        (KeyCombo::from(KeyCode::Enter), Action::ChangeDirectoryToSelectedEntry),
        (KeyCombo::from('_'), Action::ResetSearchInput),
    ];
    for (key, action) in expected.iter() {
        assert_eq!(
            registry.get_hotkey_value(InputMode::Normal, &[*key]),
            Some(action)
        );
    }
    let expected = [
        (KeyCombo::from(KeyCode::Esc), Action::ExitSearchMode),
        (KeyCombo::from(KeyCode::Enter), Action::ExitSearchInput),
        (KeyCombo::from(KeyCode::Backspace), Action::SearchInputBackspace),
    ];
    for (key, action) in expected.iter() {
        assert_eq!(
            registry.get_hotkey_value(InputMode::Search, &[*key]),
            Some(action)
        );
    }
    assert_eq!(
        registry.get_hotkey_value(InputMode::Search, &[KeyCombo::from('q')]),
        None
    );
    assert_eq!(
        registry.get_hotkey_value(InputMode::Normal, &[KeyCombo::from(('g', KeyModifiers::shift()))]),
        None
    );
}

#[test]
fn preferred_keys_come_in_their_order() {
    let pool = preferred_key_combos_in_order();
    assert_eq!(pool.len(), 31);
    assert_eq!(pool[0], KeyCombo::from('a'));
    assert_eq!(pool[1], KeyCombo::from('s'));
    assert_eq!(pool[30], KeyCombo::from('='));
    for (i, key) in pool.iter().enumerate() {
        assert_eq!(*key, KeyCombo::from(PREFERRED_KEYS_IN_ORDER[i]));
    }
}
