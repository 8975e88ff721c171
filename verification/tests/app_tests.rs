use tiny_dc::app::{
    render_entries, Action, App, Effect, InputMode, KeyOutcome, ListMode, Resolution, SearchInput,
    SequenceInputController,
};
use tiny_dc::entry::{Entry, EntryKind, EntryList};
use tiny_dc::hotkeys::defaults::preferred_key_combos_in_order;
use tiny_dc::hotkeys::{HotkeysRegistry, KeyCode, KeyCombo, KeyModifiers};

fn create_test_app() -> App {
    App::new(
        "/home/user".into(),
        EntryList::new(vec![
            Entry {
                path: "/home/user/.git/".into(),
                kind: EntryKind::Directory,
                name: ".git".into(),
            },
            Entry {
                path: "/home/user/dir1/".into(),
                kind: EntryKind::Directory,
                name: "dir1".into(),
            },
            Entry {
                path: "/home/user/.gitignore".into(),
                kind: EntryKind::File { extension: None },
                name: ".gitignore".into(),
            },
            Entry {
                path: "/home/user/Cargo.toml".into(),
                kind: EntryKind::File {
                    extension: Some("toml".into()),
                },
                name: "Cargo.toml".into(),
            },
        ]),
        HotkeysRegistry::new_with_default_system_hotkeys(),
    )
}

/// Assigns the shortcuts as drawing the list does.
fn draw(app: &mut App) -> Vec<Option<Vec<KeyCombo>>> {
    let pool = preferred_key_combos_in_order();
    let rendered = render_entries(
        &app.entry_list,
        app.search_input.as_str(),
        app.input_mode,
        &mut app.hotkeys_registry,
        &pool,
    );
    rendered
        .into_iter()
        .map(|datum| datum.key_combo_sequence)
        .collect()
}

#[test]
fn handle_key_event() {
    let mut app = create_test_app();

    // Make sure we have 4 items
    assert_eq!(app.entry_list.len(), 4);

    let _ = app.handle_key_event(KeyCombo::from((KeyCode::Char('q'), KeyModifiers::none())), 1);
    assert!(app.should_exit);

    let _ = app.handle_key_event(KeyCombo::from((KeyCode::Esc, KeyModifiers::none())), 2);
    assert!(app.should_exit);

    let _ = app.handle_key_event(KeyCombo::from((KeyCode::Char('j'), KeyModifiers::none())), 3);
    assert_eq!(app.selected, Some(0));

    let _ = app.handle_key_event(KeyCombo::from((KeyCode::Down, KeyModifiers::none())), 4);
    assert_eq!(app.selected, Some(1));

    // press down so that we can go back up more than once
    let _ = app.handle_key_event(KeyCombo::from((KeyCode::Down, KeyModifiers::none())), 5);

    let _ = app.handle_key_event(KeyCombo::from((KeyCode::Char('k'), KeyModifiers::none())), 6);
    assert_eq!(app.selected, Some(1));

    let _ = app.handle_key_event(KeyCombo::from((KeyCode::Up, KeyModifiers::none())), 7);
    assert_eq!(app.selected, Some(0));

    let _ = app.handle_key_event(KeyCombo::from((KeyCode::Char('G'), KeyModifiers::shift())), 8);
    assert_eq!(app.selected, Some(usize::MAX));

    let _ = app.handle_key_event(KeyCombo::from((KeyCode::Char('g'), KeyModifiers::none())), 9);
    let _ = app.handle_key_event(KeyCombo::from((KeyCode::Char('g'), KeyModifiers::none())), 10);
    assert_eq!(app.selected, Some(0));

    let _ = app.handle_key_event(KeyCombo::from((KeyCode::End, KeyModifiers::none())), 11);
    assert_eq!(app.selected, Some(usize::MAX));

    let _ = app.handle_key_event(KeyCombo::from((KeyCode::Home, KeyModifiers::none())), 12);
    assert_eq!(app.selected, Some(0));

    let _ = app.handle_key_event(KeyCombo::from((KeyCode::Char('d'), KeyModifiers::control())), 13);
    assert_eq!(app.list_mode, ListMode::Directory);

    let _ = app.handle_key_event(KeyCombo::from((KeyCode::Char('f'), KeyModifiers::control())), 14);
    assert_eq!(app.list_mode, ListMode::Frecent);

    let _ = app.handle_key_event(KeyCombo::from((KeyCode::Char('d'), KeyModifiers::control())), 15);
    assert_eq!(app.list_mode, ListMode::Directory);

    let _ = app.handle_key_event(KeyCombo::from((KeyCode::Char('?'), KeyModifiers::none())), 16);
    assert!(app.show_help);

    let _ = app.handle_key_event(KeyCombo::from((KeyCode::Char('/'), KeyModifiers::none())), 17);
    assert_eq!(app.input_mode, InputMode::Search);

    let _ = app.handle_key_event(KeyCombo::from((KeyCode::Esc, KeyModifiers::none())), 18);
    assert_eq!(app.input_mode, InputMode::Normal);
}

#[test]
fn search_input_backspace() {
    let mut app = create_test_app();
    app.input_mode = InputMode::Search;
    app.search_input.value = "test".into();
    app.search_input.index = 4;

    let _ = app.handle_key_event(KeyCombo::from(KeyCode::Backspace), 1);
    assert_eq!(app.search_input.value, "tes".to_string());
    assert_eq!(app.search_input.index, 3);

    let _ = app.handle_key_event(KeyCombo::from(KeyCode::Backspace), 2);
    assert_eq!(app.search_input.value, "te".to_string());
    assert_eq!(app.search_input.index, 2);

    let _ = app.handle_key_event(KeyCombo::from(KeyCode::Backspace), 3);
    assert_eq!(app.search_input.value, "t".to_string());
    assert_eq!(app.search_input.index, 1);

    let _ = app.handle_key_event(KeyCombo::from(KeyCode::Backspace), 4);
    assert_eq!(app.search_input.value, "".to_string());
    assert_eq!(app.search_input.index, 0);

    let _ = app.handle_key_event(KeyCombo::from(KeyCode::Backspace), 5);
    assert_eq!(app.search_input.value, "".to_string());
    assert_eq!(app.search_input.index, 0);
}

#[test]
fn search_input_backspace_with_no_input() {
    let mut app = create_test_app();
    app.input_mode = InputMode::Search;
    app.search_input.value = "".into();
    app.search_input.index = 0;

    let _ = app.handle_key_event(KeyCombo::from(KeyCode::Backspace), 1);
    assert_eq!(app.input_mode, InputMode::Normal);
}

#[test]
fn search_works_correctly() {
    let mut app = create_test_app();
    app.input_mode = InputMode::Search;

    let _ = app.handle_key_event(KeyCombo::from('g'), 1);
    let _ = app.handle_key_event(KeyCombo::from('i'), 2);
    let _ = app.handle_key_event(KeyCombo::from('t'), 3);

    assert_eq!(app.search_input.value, "git".to_string());
    assert_eq!(app.search_input.index, 3);

    app.update_filtered_indices();

    assert_eq!(app.entry_list.filtered_indices, Some(vec![0, 2]));
}

#[test]
fn two_key_sequence_runs_once_within_the_timeout() {
    let mut app = create_test_app();
    let g = KeyCombo::from('g');
    app.selected = Some(3);

    assert_eq!(app.handle_key_event(g, 1_000), Effect::Nothing);
    assert_eq!(app.selected, Some(3));
    assert_eq!(app.key_input.collected_key_combos, vec![g]);
    assert_eq!(app.key_input.last_key_press_time, Some(1_000));

    assert_eq!(app.handle_key_event(g, 1_499), Effect::Nothing);
    assert_eq!(app.selected, Some(0));
    assert_eq!(app.key_input.collected_key_combos, vec![]);
    assert_eq!(app.key_input.last_key_press_time, None);

    // The next press starts a new sequence: the action is not run again.
    app.selected = Some(3);
    assert_eq!(app.handle_key_event(g, 1_500), Effect::Nothing);
    assert_eq!(app.selected, Some(3));
    assert_eq!(app.key_input.collected_key_combos, vec![g]);
}

#[test]
fn two_key_sequence_does_not_run_after_the_timeout() {
    let mut app = create_test_app();
    let g = KeyCombo::from('g');
    app.selected = Some(3);

    app.handle_key_event(g, 1_000);
    // The second press comes exactly when the buffer has become stale.
    app.handle_key_event(g, 1_500);
    assert_eq!(app.selected, Some(3));
    assert_eq!(app.key_input.collected_key_combos, vec![g]);
    assert_eq!(app.key_input.last_key_press_time, Some(1_500));

    // A third press in time completes the sequence that the second began.
    app.handle_key_event(g, 1_999);
    assert_eq!(app.selected, Some(0));
}

#[test]
fn controller_resolves_every_keystroke() {
    let mut registry: HotkeysRegistry<InputMode, Action> = HotkeysRegistry::new();
    let g = KeyCombo::from('g');
    let x = KeyCombo::from('x');
    let up = KeyCombo::from(KeyCode::Up);
    registry.register_system_hotkey(InputMode::Normal, &[g, g], Action::SelectFirst);
    registry.register_system_hotkey(InputMode::Search, &[g, up, g], Action::SelectLast);
    let mut controller = SequenceInputController::new();

    // A dead end is dropped in normal mode.
    let outcome = controller.press(&registry, InputMode::Normal, x, 0);
    assert_eq!(outcome.resolution, Resolution::Unbound);
    assert_eq!(outcome.typed, vec![]);
    assert!(!outcome.flushed);
    assert_eq!(controller.collected_key_combos, vec![]);
    assert_eq!(controller.last_key_press_time, None);

    let outcome = controller.press(&registry, InputMode::Normal, g, 10);
    assert_eq!(outcome.resolution, Resolution::Pending);
    let outcome = controller.press(&registry, InputMode::Normal, x, 20);
    assert_eq!(outcome.resolution, Resolution::Unbound);
    assert_eq!(outcome.typed, vec![]);
    assert_eq!(controller.collected_key_combos, vec![]);

    // In search mode the whole buffer becomes text at a dead end, without
    // the keys that are no characters.
    let outcome = controller.press(&registry, InputMode::Search, g, 30);
    assert_eq!(outcome.resolution, Resolution::Pending);
    assert_eq!(outcome.typed, vec![]);
    let outcome = controller.press(&registry, InputMode::Search, up, 40);
    assert_eq!(outcome.resolution, Resolution::Pending);
    let outcome = controller.press(&registry, InputMode::Search, x, 50);
    assert_eq!(outcome.resolution, Resolution::Unbound);
    assert_eq!(outcome.typed, vec!['g', 'x']);
    assert!(outcome.flushed);
    assert_eq!(controller.collected_key_combos, vec![]);

    // A stale buffer becomes text in search mode, and the new key starts a
    // sequence of its own.
    controller.press(&registry, InputMode::Search, g, 100);
    let outcome = controller.press(&registry, InputMode::Search, g, 600);
    assert_eq!(outcome.resolution, Resolution::Pending);
    assert_eq!(outcome.typed, vec!['g']);
    assert!(outcome.flushed);
    assert_eq!(controller.collected_key_combos, vec![g]);
    assert_eq!(controller.last_key_press_time, Some(600));

    // A stale buffer and a dead end give their text together.
    let outcome = controller.press(&registry, InputMode::Search, x, 5_000);
    assert_eq!(outcome.resolution, Resolution::Unbound);
    assert_eq!(outcome.typed, vec!['g', 'x']);

    // A clock that went back does not make the buffer stale.
    controller.press(&registry, InputMode::Normal, g, 9_000);
    let KeyOutcome { resolution, .. } = controller.press(&registry, InputMode::Normal, g, 8_000);
    assert_eq!(resolution, Resolution::Execute(Action::SelectFirst));
    assert_eq!(controller.collected_key_combos, vec![]);
    assert_eq!(controller.last_key_press_time, None);
}

#[test]
fn typing_in_search_mode_filters_the_list() {
    let mut app = create_test_app();
    app.selected = Some(2);
    assert_eq!(
        app.handle_key_event(KeyCombo::from('/'), 1),
        Effect::Nothing
    );
    assert_eq!(app.input_mode, InputMode::Search);
    assert_eq!(app.selected, None);

    // In search mode with an empty search box no entry has a shortcut.
    assert_eq!(draw(&mut app), vec![None, None, None, None]);
    assert_eq!(app.hotkeys_registry.entry_hotkeys_count, 0);

    app.handle_key_event(KeyCombo::from('I'), 2);
    assert_eq!(app.search_input.value, "I");
    assert_eq!(app.entry_list.filtered_indices, Some(vec![0, 1, 2]));

    // Now the directories have shortcuts: ".git" and "dir1", whose next
    // characters 't' and 'r' are reserved, like the 'g' of ".gitignore".
    let a = KeyCombo::from('a');
    let s = KeyCombo::from('s');
    assert_eq!(draw(&mut app), vec![Some(vec![a]), Some(vec![s]), None]);

    // The shortcut changes into the entry and leaves search mode.
    assert_eq!(
        app.handle_key_event(s, 3),
        Effect::ChangeDirectory("/home/user/dir1/".into())
    );
    assert_eq!(app.input_mode, InputMode::Normal);
    assert_eq!(app.search_input.value, "");
    assert!(!app.should_exit);
}

#[test]
fn opening_a_file_ends_the_session() {
    let mut app = create_test_app();
    app.selected = Some(3);
    assert_eq!(
        app.handle_key_event(KeyCombo::from(KeyCode::Enter), 1),
        Effect::Nothing
    );
    assert!(app.should_exit);

    let mut app = create_test_app();
    assert_eq!(
        app.handle_key_event(KeyCombo::from('l'), 1),
        Effect::ChangeDirectory("/home/user/.git/".into())
    );
    assert!(!app.should_exit);

    let mut app = create_test_app();
    app.selected = Some(usize::MAX);
    assert_eq!(app.handle_key_event(KeyCombo::from('l'), 1), Effect::Nothing);
    assert!(!app.should_exit);

    assert_eq!(
        app.handle_key_event(KeyCombo::from('h'), 2),
        Effect::ChangeDirectoryToParent
    );
}

#[test]
fn exit_closes_help_then_search_then_the_session() {
    let mut app = create_test_app();
    app.handle_key_event(KeyCombo::from('/'), 1);
    app.handle_key_event(KeyCombo::from('g'), 2);
    app.handle_key_event(KeyCombo::from(KeyCode::Enter), 3);
    assert_eq!(app.input_mode, InputMode::Normal);
    assert_eq!(app.search_input.value, "g");
    assert_eq!(app.entry_list.filtered_indices, Some(vec![0, 2, 3]));

    app.handle_key_event(KeyCombo::from('?'), 4);
    assert!(app.show_help);
    app.handle_key_event(KeyCombo::from('q'), 5);
    assert!(!app.show_help);
    assert!(!app.should_exit);
    assert_eq!(app.search_input.value, "g");

    app.handle_key_event(KeyCombo::from('q'), 6);
    assert!(!app.should_exit);
    assert_eq!(app.search_input.value, "");
    assert_eq!(app.entry_list.filtered_indices, None);

    app.handle_key_event(KeyCombo::from('q'), 7);
    assert!(app.should_exit);
}

#[test]
fn switching_the_list_mode_is_left_to_the_caller() {
    let mut app = create_test_app();
    let to_frecent = KeyCombo::from(('f', KeyModifiers::control()));
    let to_directory = KeyCombo::from(('d', KeyModifiers::control()));
    assert_eq!(app.handle_key_event(to_directory, 1), Effect::Nothing);
    assert_eq!(
        app.handle_key_event(to_frecent, 2),
        Effect::SwitchListMode(ListMode::Frecent)
    );
    assert_eq!(app.list_mode, ListMode::Frecent);
    assert_eq!(app.get_sub_header_title(), "Most accessed paths");
    assert_eq!(app.handle_key_event(to_frecent, 3), Effect::Nothing);

    app.change_directory("/srv".into(), Vec::new());
    assert_eq!(app.list_mode, ListMode::Directory);
    assert_eq!(app.get_sub_header_title(), "/srv");
    assert_eq!(app.entry_list.len(), 0);
    assert_eq!(app.selected, None);

    app.change_to_frecent("/srv".into(), Vec::new());
    assert_eq!(app.list_mode, ListMode::Frecent);
    assert_eq!(app.current_directory, "/srv");
}

#[test]
fn first_item_is_preselected_after_render() {
    let mut app = create_test_app();

    assert_eq!(app.selected, None);

    app.preselect_first();
    draw(&mut app);

    assert_eq!(app.selected, Some(0));
}

#[test]
fn preselection_keeps_a_selection_and_needs_entries() {
    let mut app = create_test_app();
    app.selected = Some(2);
    app.preselect_first();
    assert_eq!(app.selected, Some(2));

    let mut app = create_test_app();
    app.change_directory("/empty".into(), Vec::new());
    app.preselect_first();
    assert_eq!(app.selected, None);
}

#[test]
fn search_input_counts_its_characters() {
    let mut input = SearchInput::new();
    assert!(input.is_empty());
    input.push('ä');
    input.push('b');
    assert_eq!(input.value, "äb");
    assert_eq!(input.index, 2);
    assert_eq!(input.as_str(), "äb");
    input.pop();
    assert_eq!(input.value, "ä");
    assert_eq!(input.index, 1);
    input.pop();
    input.pop();
    assert_eq!(input.value, "");
    assert_eq!(input.index, 0);
    input.push('c');
    input.clear();
    assert!(input.is_empty());
    assert_eq!(input.index, 0);
}

#[test]
fn changing_the_directory_lists_directories_first() {
    let entry = |name: &str, kind: EntryKind| Entry {
        path: format!("/srv/{name}"),
        kind,
        name: name.into(),
    };
    let mut app = create_test_app();
    app.handle_key_event(KeyCombo::from('/'), 1);
    app.handle_key_event(KeyCombo::from('x'), 2);
    app.should_exit = true;
    app.change_directory(
        "/srv".into(),
        vec![
            entry("zeta.txt", EntryKind::File { extension: Some("txt".into()) }),
            entry("beta", EntryKind::Directory),
            entry("Alpha.txt", EntryKind::File { extension: Some("txt".into()) }),
            entry("Gamma", EntryKind::Directory),
            entry("alpha", EntryKind::Directory),
            entry("Beta.md", EntryKind::File { extension: Some("md".into()) }),
        ],
    );
    let names: Vec<&str> = app
        .entry_list
        .items
        .iter()
        .map(|entry| entry.name.as_str())
        .collect();
    assert_eq!(
        names,
        vec!["alpha", "beta", "Gamma", "Alpha.txt", "Beta.md", "zeta.txt"]
    );
    assert_eq!(app.entry_list.filtered_indices, None);
    assert_eq!(app.search_input.value, "");
    assert_eq!(app.current_directory, "/srv");
    assert!(!app.should_exit);
    assert_eq!(app.input_mode, InputMode::Search);

    // The most visited paths keep the order in which they come.
    app.change_to_frecent(
        "/srv".into(),
        vec![
            entry("zeta.txt", EntryKind::File { extension: None }),
            entry("beta", EntryKind::Directory),
        ],
    );
    assert_eq!(app.entry_list.items[0].name, "zeta.txt");
    assert_eq!(app.entry_list.items[1].name, "beta");
}

#[test]
fn entries_are_listed_by_kind_and_name() {
    let directory = |name: &str| Entry {
        path: String::new(),
        kind: EntryKind::Directory,
        name: name.into(),
    };
    let file = |name: &str| Entry {
        path: String::new(),
        kind: EntryKind::File { extension: None },
        name: name.into(),
    };
    assert!(directory("b").listed_before(&file("a")));
    assert!(!file("a").listed_before(&directory("b")));
    assert!(directory("a").listed_before(&directory("B")));
    assert!(directory("A").listed_before(&directory("b")));
    assert!(!directory("b").listed_before(&directory("A")));
    assert!(!directory("a").listed_before(&directory("A")));
    assert!(file("ab").listed_before(&file("abc")));
    assert!(!file("abc").listed_before(&file("ab")));
    assert!(file("").listed_before(&file("a")));
    let sorted = EntryList::sorted(vec![file("b"), directory("d"), file("a"), directory("c")]);
    let names: Vec<&str> = sorted.items.iter().map(|entry| entry.name.as_str()).collect();
    assert_eq!(names, vec!["c", "d", "a", "b"]);
}

#[test]
fn list_mode_starts_with_the_directory() {
    assert_eq!(ListMode::default(), ListMode::Directory);
}
