use tiny_dc::entry::{cut_at, Entry, EntryKind, EntryList, EntryRenderData};

fn cargo_toml() -> Entry {
    Entry {
        name: "Cargo.toml".into(),
        kind: EntryKind::File {
            extension: Some("toml".into()),
        },
        path: "/home/user/Cargo.toml".into(),
    }
}

#[test]
fn entry_render_data_from_entry_works_correctly_with_search_query() {
    let entry = Entry {
        name: "Cargo.toml".into(),
        kind: EntryKind::File {
            extension: Some("toml".into()),
        },
        path: "/home/user/Cargo.toml".into(),
    };

    let entry_render_data: EntryRenderData = EntryRenderData::from_entry(&entry, "car");

    assert_eq!(
        entry_render_data,
        EntryRenderData {
            prefix: "",
            search_hit: "Car",
            suffix: "go.toml",
            illegal_char_for_hotkey: Some('g'),
            kind: &EntryKind::File {
                extension: Some("toml".into())
            },
            key_combo_sequence: None,
        }
    );

    let entry_render_data: EntryRenderData = EntryRenderData::from_entry(&entry, "toml");

    assert_eq!(
        entry_render_data,
        EntryRenderData {
            prefix: "Cargo.",
            search_hit: "toml",
            suffix: "",
            illegal_char_for_hotkey: None,
            kind: &EntryKind::File {
                extension: Some("toml".into())
            },
            key_combo_sequence: None,
        }
    );

    let entry_render_data: EntryRenderData = EntryRenderData::from_entry(&entry, "argo");

    assert_eq!(
        entry_render_data,
        EntryRenderData {
            prefix: "C",
            search_hit: "argo",
            suffix: ".toml",
            illegal_char_for_hotkey: Some('.'),
            kind: &EntryKind::File {
                extension: Some("toml".into())
            },
            key_combo_sequence: None,
        }
    );

    let entry_render_data: EntryRenderData = EntryRenderData::from_entry(&entry, "");

    assert_eq!(
        entry_render_data,
        EntryRenderData {
            prefix: "Cargo.toml",
            search_hit: "",
            suffix: "",
            illegal_char_for_hotkey: Some('c'),
            kind: &EntryKind::File {
                extension: Some("toml".into())
            },
            key_combo_sequence: None,
        }
    );
}

#[test]
fn entry_render_data_without_hit_shows_the_whole_name() {
    let entry = cargo_toml();
    let data = EntryRenderData::from_entry(&entry, "xyz");
    assert_eq!(data.prefix, "Cargo.toml");
    assert_eq!(data.search_hit, "");
    assert_eq!(data.suffix, "");
    assert_eq!(data.illegal_char_for_hotkey, Some('c'));
    assert_eq!(data.key_combo_sequence, None);
}

#[test]
fn entry_render_data_of_an_empty_name_reserves_nothing() {
    let entry = Entry {
        name: String::new(),
        kind: EntryKind::Directory,
        path: "/".into(),
    };
    let data = EntryRenderData::from_entry(&entry, "");
    assert_eq!(data.prefix, "");
    assert_eq!(data.illegal_char_for_hotkey, None);
    let data = EntryRenderData::from_entry(&entry, "a");
    assert_eq!(data.prefix, "");
    assert_eq!(data.illegal_char_for_hotkey, None);
}

#[test]
fn entry_render_data_takes_the_first_hit() {
    let entry = Entry {
        name: "banana".into(),
        kind: EntryKind::Directory,
        path: "/banana".into(),
    };
    let data = EntryRenderData::from_entry(&entry, "AN");
    assert_eq!(data.prefix, "b");
    assert_eq!(data.search_hit, "an");
    assert_eq!(data.suffix, "ana");
    assert_eq!(data.illegal_char_for_hotkey, Some('a'));
}

#[test]
fn entry_render_data_cuts_names_with_wide_characters() {
    let entry = Entry {
        name: "Ärger über Öl".into(),
        kind: EntryKind::Directory,
        path: "/x".into(),
    };
    let data = EntryRenderData::from_entry(&entry, "ÜBER");
    assert_eq!(data.prefix, "Ärger ");
    assert_eq!(data.search_hit, "über");
    assert_eq!(data.suffix, " Öl");
    assert_eq!(data.illegal_char_for_hotkey, Some(' '));

    let data = EntryRenderData::from_entry(&entry, "r ");
    assert_eq!(data.prefix, "Ärge");
    assert_eq!(data.suffix, "über Öl");
    assert_eq!(data.illegal_char_for_hotkey, Some('ü'));

    let data = EntryRenderData::from_entry(&entry, "über ");
    assert_eq!(data.suffix, "Öl");
    assert_eq!(data.illegal_char_for_hotkey, Some('ö'));
}

#[test]
fn entry_render_data_falls_back_where_the_name_cannot_be_cut() {
    // The lower case of the first character is longer than the character, so
    // that places in the lower case are not places in the name.
    let entry = Entry {
        name: "İé".into(),
        kind: EntryKind::Directory,
        path: "/x".into(),
    };
    let data = EntryRenderData::from_entry(&entry, "é");
    assert_eq!(data.prefix, "İé");
    assert_eq!(data.search_hit, "");
    assert_eq!(data.suffix, "");
    assert_eq!(data.illegal_char_for_hotkey, Some('i'));
}

#[test]
fn names_are_cut_between_characters_only() {
    assert_eq!(cut_at("Cargo.toml", 1, 4), Some(("C", "argo", ".toml")));
    assert_eq!(cut_at("Cargo.toml", 0, 0), Some(("", "", "Cargo.toml")));
    assert_eq!(cut_at("Cargo.toml", 10, 0), Some(("Cargo.toml", "", "")));
    assert_eq!(cut_at("Cargo.toml", 0, 10), Some(("", "Cargo.toml", "")));
    assert_eq!(cut_at("Cargo.toml", 11, 0), None);
    assert_eq!(cut_at("Cargo.toml", 5, 6), None);
    assert_eq!(cut_at("Cargo.toml", 5, usize::MAX), None);
    assert_eq!(cut_at("", 0, 0), Some(("", "", "")));
    // 'ä' takes two bytes.
    assert_eq!(cut_at("aäb", 1, 2), Some(("a", "ä", "b")));
    assert_eq!(cut_at("aäb", 2, 1), None);
    assert_eq!(cut_at("aäb", 1, 1), None);
    assert_eq!(cut_at("aäb", 3, 1), Some(("aä", "b", "")));
}

#[test]
fn entry_list_filters_by_lower_case() {
    let mut list = EntryList::new(vec![
        Entry {
            path: "/home/user/.git/".into(),
            kind: EntryKind::Directory,
            name: ".git".into(),
        },
        Entry {
            path: "/home/user/dir1/".into(),
            kind: EntryKind::Directory,
            name: "dir1".into(),
        },
        Entry {
            path: "/home/user/.gitignore".into(),
            kind: EntryKind::File { extension: None },
            name: ".gitignore".into(),
        },
        cargo_toml(),
    ]);
    assert_eq!(list.len(), 4);
    assert_eq!(list.get_filtered_entries().len(), 4);

    list.update_filtered_indices("GIT");
    assert_eq!(list.filtered_indices, Some(vec![0, 2]));
    let shown = list.get_filtered_entries();
    assert_eq!(shown.len(), 2);
    assert_eq!(shown[0].name, ".git");
    assert_eq!(shown[1].name, ".gitignore");
    assert_eq!(list.shown_len(), 2);

    list.update_filtered_indices("car");
    assert_eq!(list.filtered_indices, Some(vec![3]));

    list.update_filtered_indices("nothing");
    assert_eq!(list.filtered_indices, Some(vec![]));
    assert_eq!(list.get_filtered_entries().len(), 0);

    list.update_filtered_indices("");
    assert_eq!(list.filtered_indices, None);
    assert_eq!(list.get_filtered_entries().len(), 4);
}

#[test]
fn entries_are_named_after_the_last_component() {
    let entry = Entry::from_path("/home/user/Cargo.toml".into(), false);
    assert_eq!(entry.path, "/home/user/Cargo.toml");
    assert_eq!(entry.name, "Cargo.toml");
    assert_eq!(
        entry.kind,
        EntryKind::File {
            extension: Some("toml".into())
        }
    );

    let entry = Entry::from_path("/home/user/.gitignore".into(), false);
    assert_eq!(entry.name, ".gitignore");
    assert_eq!(entry.kind, EntryKind::File { extension: None });

    let entry = Entry::from_path("/home/user/archive.tar.gz".into(), true);
    assert_eq!(entry.name, "archive.tar.gz");
    assert_eq!(entry.kind, EntryKind::Directory);

    let entry = Entry::from_path("/home/user/dir/".into(), true);
    assert_eq!(entry.name, "dir");

    let entry = Entry::from_path("/".into(), true);
    assert_eq!(entry.name, "");
    let entry = Entry::from_path("/home/..".into(), false);
    assert_eq!(entry.name, "");
    assert_eq!(entry.kind, EntryKind::File { extension: None });
}

#[test]
fn entry_kind_tells_directories_from_files() {
    assert!(EntryKind::Directory.is_directory());
    assert!(!EntryKind::File { extension: None }.is_directory());
    assert!(!cargo_toml().kind.is_directory());
}
