use tiny_dc::index::{
    format_records, parse_records, rank_candidates, Answer, Candidate, DirectoryIndex,
    DirectoryIndexEntry, Record, DEFAULT_INDEX_FILE_NAME,
};

/// The frecency score of a rank, `dx` seconds after the last visit.
fn frecent_score(rank: f64, dx: u64) -> f64 {
    10000.0 * rank * (3.75 / ((0.0001 * dx as f64 + 1.0) + 0.25))
}

/// A whole number that grows with the score.
fn score_key(score: f64) -> u64 {
    if score.is_nan() {
        0
    } else if score.is_sign_negative() {
        !score.to_bits()
    } else {
        score.to_bits() | (1 << 63)
    }
}

/// The rank after another visit.
fn bumped(rank: u64) -> u64 {
    (f64::from_bits(rank) * 0.99 + 1.0).to_bits()
}

const NOW: u64 = 1_000_000;

/// The index that the lines `path|rank|last_accessed` describe.
fn index_of(contents: &str) -> DirectoryIndex {
    let items = parse_records(contents)
        .into_iter()
        .map(|record| {
            let rank: f64 = record.rank.parse().unwrap_or(0.0);
            (
                record.path,
                DirectoryIndexEntry {
                    rank: rank.to_bits(),
                    last_accessed: record.last_accessed,
                },
            )
        })
        .collect();
    DirectoryIndex::from_entries(".tiny-dc".into(), items)
}

/// The text of the file that holds the index.
fn contents_of(index: &DirectoryIndex) -> String {
    let records: Vec<Record> = index
        .data
        .iter()
        .map(|(path, entry)| Record {
            path: path.clone(),
            rank: format!("{}", f64::from_bits(entry.rank)),
            last_accessed: entry.last_accessed,
        })
        .collect();
    format_records(&records)
}

/// Asks the index, with the scores at `NOW` and with `missing` as the paths
/// that do not exist.
fn ask(index: &mut DirectoryIndex, query: &str, missing: &[&str]) -> Answer {
    let scores: Vec<u64> = index
        .data
        .iter()
        .map(|(_, entry)| score_key(frecent_score(f64::from_bits(entry.rank), entry.age(NOW))))
        .collect();
    let exists: Vec<bool> = index
        .data
        .iter()
        .map(|(path, _)| !missing.contains(&path.as_str()))
        .collect();
    index.z(query, &scores, &exists)
}

/// Records a visit of `path` as the caller of the index does.
fn visit(index: &mut DirectoryIndex, path: &str, exists: bool, now: u64) -> bool {
    let rank = index.rank_of(path).map(bumped).unwrap_or(0);
    index.push(path.into(), exists, now, rank)
}

fn mock_contents(lines: &[(&str, u64, u64)], ending: &str) -> String {
    let mut contents = String::new();
    for line in lines {
        contents.push_str(&format!("{}|{}|{}{}", line.0, line.1, line.2, ending));
    }
    contents
}

#[test]
fn directory_index_z_returns_correct_result() {
    let temp_test_dir = "/tmp/base/test_dir";
    let temp_test_dir_other = "/tmp/base/test_dir_other";
    let temp_other_dir = "/tmp/base/other_dir";

    let mock_data = vec![
        (temp_test_dir, 100, 100),
        (temp_test_dir_other, 150, 100),
        (temp_other_dir, 100, 100),
    ];

    let mut directory_index = index_of(&mock_contents(&mock_data, "\n\n"));
    let result = ask(&mut directory_index, "test", &[]);

    assert_eq!(result.path, Some(temp_test_dir_other.into()));
    assert!(!result.index_changed);
}

#[test]
fn directory_index_z_returns_existing_path_only() {
    let temp_test_dir = "/tmp/base/test_dir";
    let temp_test_dir_other = "/tmp/base/test_dir_other";
    let temp_other_dir = "/tmp/base/other_dir";

    let mock_data = vec![
        (temp_test_dir, 100, 100),
        (temp_test_dir_other, 150, 100),
        (temp_other_dir, 100, 100),
    ];

    let mut directory_index = index_of(&mock_contents(&mock_data, "\n\n"));
    // The directory test_dir_other does not exist any more.
    let result = ask(&mut directory_index, "test", &[temp_test_dir_other]);

    assert_eq!(result.path, Some(temp_test_dir.into()));
    assert!(result.index_changed);
    assert_eq!(directory_index.find(temp_test_dir_other), None);
    assert_eq!(directory_index.len(), 2);
}

#[test]
fn directory_index_z_returns_none_for_no_match() {
    let temp_test_dir = "/tmp/base/test_dir";
    let temp_test_dir_other = "/tmp/base/test_dir_other";
    let temp_other_dir = "/tmp/base/other_dir";

    let mock_data = vec![
        (temp_test_dir, 100, 100),
        (temp_test_dir_other, 150, 100),
        (temp_other_dir, 100, 100),
    ];

    let mut directory_index = index_of(&mock_contents(&mock_data, "\n\n"));
    let result = ask(&mut directory_index, "non-existent", &[]);

    assert_eq!(result.path, None);
    assert!(!result.index_changed);
    assert_eq!(directory_index.len(), 3);
}

#[test]
fn directory_index_z_returns_correct_result_for_common_parent() {
    let common_parent = "/tmp/base/common_parent";
    let child_dir = "/tmp/base/common_parent/child";
    let nested_dir = "/tmp/base/common_parent/child/nested";

    // Even though the child and its nested directory have higher rank
    // values, the query for "common" matches the common parent.
    let mock_data = vec![
        (common_parent, 100, 100),
        (child_dir, 200, 200),
        (nested_dir, 300, 300),
    ];

    let mut directory_index = index_of(&mock_contents(&mock_data, "\n"));
    let result = ask(&mut directory_index, "common", &[]);

    assert_eq!(result.path, Some(common_parent.into()));
}

#[test]
fn directory_index_z_returns_none_for_empty_index() {
    let mut directory_index = index_of("");
    let result = ask(&mut directory_index, "nonexistent", &[]);

    assert_eq!(result.path, None);
    assert!(!result.index_changed);
}

#[test]
fn directory_index_push_creates_index_file() {
    let temp_test_dir = "/tmp/base/test_dir";

    let mut directory_index = index_of("");
    assert!(visit(&mut directory_index, temp_test_dir, true, NOW));

    let contents = contents_of(&directory_index);
    let lines: Vec<&str> = contents.lines().collect();
    let line = &lines[0];
    let parts: Vec<&str> = line.split('|').collect();
    assert_eq!(parts.len(), 3);
    assert_eq!(parts[0], temp_test_dir);
}

#[test]
fn directory_index_push_multiple_times_updates_entry_rank() {
    let temp_test_dir = "/tmp/base/test_dir";

    let mut directory_index = index_of("");
    assert!(visit(&mut directory_index, temp_test_dir, true, NOW));

    let contents = contents_of(&directory_index);
    let lines: Vec<&str> = contents.lines().collect();
    let parts: Vec<&str> = lines[0].split('|').collect();

    assert_eq!(parts.len(), 3);
    assert_eq!(parts[1], "0");

    // Push the entry a second time, to the index as it was saved.
    let mut directory_index = index_of(&contents);
    assert!(visit(&mut directory_index, temp_test_dir, true, NOW + 1));

    let contents = contents_of(&directory_index);
    let lines: Vec<&str> = contents.lines().collect();
    let parts: Vec<&str> = lines[0].split('|').collect();

    assert_eq!(lines.len(), 1);
    assert_eq!(parts.len(), 3);
    assert_eq!(parts[1], "1");
    assert_eq!(parts[2], (NOW + 1).to_string());

    // Push the entry a third time.
    let mut directory_index = index_of(&contents);
    assert!(visit(&mut directory_index, temp_test_dir, true, NOW + 2));

    let contents = contents_of(&directory_index);
    let lines: Vec<&str> = contents.lines().collect();
    let parts: Vec<&str> = lines[0].split('|').collect();

    assert_eq!(parts.len(), 3);
    assert_eq!(parts[1], "1.99");
}

#[test]
fn directory_index_push_non_existent_path_does_is_a_no_op() {
    let mut directory_index = index_of("");
    let changed = visit(&mut directory_index, "/non/existent/path", false, NOW);

    assert!(!changed);
    let contents = contents_of(&directory_index);
    assert_eq!(contents.lines().count(), 0);
    assert_eq!(directory_index.len(), 0);
}

#[test]
fn query_prefers_the_common_ancestor_to_the_ranking() {
    let contents = "/a/common|100|100\n/a/common/child|200|100\n/a/common/child/grandchild|300|100\n";
    let mut index = index_of(contents);

    let answer = ask(&mut index, "common", &[]);
    assert_eq!(answer.path, Some("/a/common".into()));
    assert!(!answer.index_changed);

    let answer = ask(&mut index, "child", &[]);
    assert_eq!(answer.path, Some("/a/common/child".into()));

    // The ancestor is the answer even where it exists no more, and stays.
    let answer = ask(&mut index, "common", &["/a/common"]);
    assert_eq!(answer.path, Some("/a/common".into()));
    assert!(!answer.index_changed);
    assert_eq!(index.len(), 3);

    // A single match is no ancestor: it is the answer because it exists.
    let answer = ask(&mut index, "grand", &[]);
    assert_eq!(answer.path, Some("/a/common/child/grandchild".into()));
    assert!(!answer.index_changed);

    // A path is no ancestor of a path that only begins with the same letters.
    let mut index = index_of("/a/common|100|100\n/a/commons|200|100\n");
    let answer = ask(&mut index, "common", &[]);
    assert_eq!(answer.path, Some("/a/commons".into()));
}

#[test]
fn query_removes_the_only_match_that_exists_no_more() {
    let mut index = index_of("/srv/gone|5|100\n/srv/kept|7|100\n");
    let answer = ask(&mut index, "gone", &["/srv/gone"]);
    assert_eq!(answer.path, None);
    assert!(answer.index_changed);
    assert_eq!(index.find("/srv/gone"), None);
    assert_eq!(index.find("/srv/kept"), Some(0));
    assert_eq!(contents_of(&index), "/srv/kept|7|100\n");
}

#[test]
fn query_removes_only_what_was_tried_in_vain() {
    let contents = "/p/x1|1|100\n/q/x2|4|100\n/r/x3|3|100\n/s/x4|2|100\n/t/other|9|100\n";
    let mut index = index_of(contents);
    // By score: x2, x3, x4, x1. The first two exist no more.
    let answer = ask(&mut index, "x", &["/q/x2", "/r/x3", "/p/x1"]);
    assert_eq!(answer.path, Some("/s/x4".into()));
    assert!(answer.index_changed);
    // x1 exists no more either, but it was not tried.
    assert_eq!(
        contents_of(&index),
        "/p/x1|1|100\n/s/x4|2|100\n/t/other|9|100\n"
    );
}

#[test]
fn query_ranks_by_tier_then_score_then_components() {
    // The match as written comes before the match in lower case, whatever
    // the scores.
    let mut index = index_of("/a/Proj|900|100\n/b/proj|1|100\n");
    assert_eq!(ask(&mut index, "proj", &[]).path, Some("/b/proj".into()));
    assert_eq!(ask(&mut index, "Proj", &[]).path, Some("/a/Proj".into()));
    assert_eq!(ask(&mut index, "PROJ", &[]).path, Some("/a/Proj".into()));

    // At one rank the more recent visit scores higher.
    let mut index = index_of("/a/work|10|100\n/b/work|10|900000\n");
    assert_eq!(ask(&mut index, "work", &[]).path, Some("/b/work".into()));

    // At one score the path with fewer components comes first.
    let mut index = index_of("/a/b/c/deep|10|100\n/a/flat|10|100\n/x/y/deeper|10|100\n");
    assert_eq!(ask(&mut index, "ee", &[]).path, Some("/x/y/deeper".into()));
    let mut index = index_of("/a/b/c/one|10|100\n/a/one|10|100\n");
    assert_eq!(ask(&mut index, "one", &[]).path, Some("/a/one".into()));
}

#[test]
fn ranking_orders_candidates() {
    let candidates = vec![
        Candidate { position: 0, tier: 1, score: 50, components: 2 },
        Candidate { position: 1, tier: 0, score: 10, components: 5 },
        Candidate { position: 2, tier: 0, score: 10, components: 3 },
        Candidate { position: 3, tier: 0, score: 70, components: 9 },
        Candidate { position: 4, tier: 0, score: 10, components: 3 },
    ];
    let order: Vec<usize> = rank_candidates(&candidates)
        .iter()
        .map(|candidate| candidate.position)
        .collect();
    assert_eq!(order, vec![3, 2, 4, 1, 0]);
    assert_eq!(rank_candidates(&Vec::new()), Vec::new());
    assert!(candidates[3].comes_before(&candidates[2]));
    assert!(!candidates[2].comes_before(&candidates[3]));
    assert!(!candidates[2].comes_before(&candidates[2]));
}

#[test]
fn settle_follows_the_candidates_it_is_given() {
    let mut index = index_of("/one|1|1\n/two|1|1\n/three|1|1\n");
    let candidates = vec![
        Candidate { position: 0, tier: 0, score: 1, components: 2 },
        Candidate { position: 2, tier: 0, score: 9, components: 2 },
    ];
    // Without candidates there is no answer.
    let answer = index.settle(&Vec::new(), None, &vec![true, true, true]);
    assert_eq!(answer, Answer { path: None, index_changed: false });
    // The ancestor is the answer.
    let answer = index.settle(&candidates, Some(0), &vec![false, false, false]);
    assert_eq!(answer, Answer { path: Some("/one".into()), index_changed: false });
    // Else the best candidate that exists.
    let answer = index.settle(&candidates, None, &vec![true, true, true]);
    assert_eq!(answer, Answer { path: Some("/three".into()), index_changed: false });
    let answer = index.settle(&candidates, None, &vec![true, true, false]);
    assert_eq!(answer, Answer { path: Some("/one".into()), index_changed: true });
    assert_eq!(index.len(), 2);
    assert_eq!(index.find("/three"), None);
}

#[test]
fn push_follows_the_rank_rule() {
    let mut index = DirectoryIndex::new(DEFAULT_INDEX_FILE_NAME.into());
    let path = "/home/user/project";
    let mut ranks: Vec<f64> = Vec::new();
    for visit_number in 0..4 {
        assert!(visit(&mut index, path, true, NOW + visit_number));
        ranks.push(f64::from_bits(index.rank_of(path).unwrap()));
        assert_eq!(index.data[0].1.last_accessed, NOW + visit_number);
    }
    assert_eq!(ranks[0], 0.0);
    assert_eq!(ranks[1], 1.0);
    assert_eq!(ranks[2], 1.99);
    assert!((ranks[3] - 2.9701).abs() < 1e-12);
    assert_eq!(index.len(), 1);

    // Another path gets a row of its own, behind the first.
    assert!(visit(&mut index, "/home/user/other", true, NOW));
    assert_eq!(index.find("/home/user/other"), Some(1));
    assert_eq!(index.rank_of("/home/user/other"), Some(0));
    assert_eq!(index.rank_of("/nowhere"), None);
}

#[test]
fn frecency_score_falls_with_time_and_grows_with_rank() {
    assert!(frecent_score(2.0, 10) > frecent_score(2.0, 11));
    assert!(frecent_score(2.0, 0) > frecent_score(2.0, 100_000));
    assert!(frecent_score(3.0, 10) > frecent_score(2.0, 10));
    assert_eq!(frecent_score(1.0, 0), 30000.0);
    assert_eq!(frecent_score(0.0, 5), 0.0);
    assert!(score_key(frecent_score(3.0, 10)) > score_key(frecent_score(2.0, 10)));
    assert!(score_key(0.0) > score_key(-1.0));
    assert!(score_key(-1.0) > score_key(-2.0));
}

#[test]
fn entry_age_is_the_time_since_the_last_visit() {
    let mut entry = DirectoryIndexEntry::new(100);
    assert_eq!(entry, DirectoryIndexEntry { rank: 0, last_accessed: 100 });
    assert_eq!(entry.age(250), 150);
    assert_eq!(entry.age(100), 0);
    assert_eq!(entry.age(50), 0);
    entry.update(300, 77);
    assert_eq!(entry, DirectoryIndexEntry { rank: 77, last_accessed: 300 });
}

#[test]
fn records_are_read_line_by_line() {
    let contents = "/a|1.5|10\n\n/b|x|y\r\nno separator\n/c|2|3|4\n|||\n/d|+7|+8\n/e||18446744073709551615\n/f|1|18446744073709551616\n/g|1|-3\n/h|0|12";
    let records = parse_records(contents);
    let expected = vec![
        Record { path: "/a".into(), rank: "1.5".into(), last_accessed: 10 },
        Record { path: "/b".into(), rank: "x".into(), last_accessed: 0 },
        Record { path: "/d".into(), rank: "+7".into(), last_accessed: 8 },
        Record { path: "/e".into(), rank: "".into(), last_accessed: u64::MAX },
        Record { path: "/f".into(), rank: "1".into(), last_accessed: 0 },
        Record { path: "/g".into(), rank: "1".into(), last_accessed: 0 },
        Record { path: "/h".into(), rank: "0".into(), last_accessed: 12 },
    ];
    assert_eq!(records, expected);
    assert_eq!(parse_records(""), Vec::new());
    assert_eq!(parse_records("\n\n"), Vec::new());
    assert_eq!(
        parse_records("||"),
        vec![Record { path: "".into(), rank: "".into(), last_accessed: 0 }]
    );
    assert_eq!(
        parse_records("a|b|0012\r"),
        vec![Record { path: "a".into(), rank: "b".into(), last_accessed: 0 }]
    );
    assert_eq!(
        parse_records("a|b|+"),
        vec![Record { path: "a".into(), rank: "b".into(), last_accessed: 0 }]
    );
}

#[test]
fn records_that_are_written_are_read_back() {
    let records = vec![
        Record { path: "/home/user".into(), rank: "1.99".into(), last_accessed: 0 },
        Record { path: "/srv/Ärger über".into(), rank: "0".into(), last_accessed: 1741000000 },
        Record { path: "".into(), rank: "".into(), last_accessed: u64::MAX },
        Record { path: "/with\rreturn".into(), rank: "7".into(), last_accessed: 10 },
    ];
    let contents = format_records(&records);
    assert_eq!(
        contents,
        "/home/user|1.99|0\n/srv/Ärger über|0|1741000000\n||18446744073709551615\n/with\rreturn|7|10\n"
    );
    assert_eq!(parse_records(&contents), records);
    assert_eq!(format_records(&Vec::new()), "");
}

#[test]
fn index_is_the_same_after_saving_and_loading() {
    let mut index = index_of("/a|100|100\n/b|2.5|7\n");
    visit(&mut index, "/c", true, NOW);
    visit(&mut index, "/a", true, NOW);
    let loaded = index_of(&contents_of(&index));
    assert_eq!(loaded.data, index.data);
    assert_eq!(contents_of(&loaded), "/a|100|1000000\n/b|2.5|7\n/c|0|1000000\n");
}

#[test]
fn later_lines_for_a_path_replace_earlier_ones() {
    let index = index_of("/a|1|1\n/b|2|2\n/a|3|3\n");
    assert_eq!(index.len(), 2);
    assert_eq!(index.rank_of("/a"), Some(3.0f64.to_bits()));
    assert_eq!(index.find("/a"), Some(0));
    assert_eq!(index.find("/b"), Some(1));
}

#[test]
fn entries_are_ordered_by_score() {
    let index = index_of("/low|1|100\n/high|9|100\n/mid|5|100\n/also-mid|5|100\n");
    let scores: Vec<u64> = index
        .data
        .iter()
        .map(|(_, entry)| score_key(frecent_score(f64::from_bits(entry.rank), entry.age(NOW))))
        .collect();
    assert_eq!(
        index.get_all_entries_ordered_by_rank(&scores),
        vec![
            "/high".to_string(),
            "/mid".to_string(),
            "/also-mid".to_string(),
            "/low".to_string()
        ]
    );
    let empty = DirectoryIndex::new("x".into());
    assert_eq!(empty.get_all_entries_ordered_by_rank(&Vec::new()), Vec::<String>::new());
}
