use codex_monitor::git::{
    changed_file, comparisons_found, counts_fit, diff_stats_for_path, normalize_git_path,
    status_request, DiffScope, DiffStats, GitStatus,
};
use codex_monitor::wire::into_value;

fn code_of(bits: u32) -> &'static str {
    changed_file(Some("f"), bits).unwrap().flags.code()
}

#[test]
fn backslashes_become_slashes() {
    assert_eq!(normalize_git_path("a\\b/c\\\\d"), "a/b/c//d");
    assert_eq!(normalize_git_path(""), "");
    assert_eq!(normalize_git_path("plain/\u{e9}"), "plain/\u{e9}");
}

#[test]
fn normalizing_twice_is_normalizing_once() {
    let once = normalize_git_path("x\\y\\z");
    assert_eq!(normalize_git_path(&once), once);
    assert!(!once.contains('\\'));
}

#[test]
fn flags_are_the_bits_that_git_gives() {
    for (bits, name) in [
        (git2::Status::INDEX_NEW, "index_new"),
        (git2::Status::INDEX_MODIFIED, "index_modified"),
        (git2::Status::INDEX_DELETED, "index_deleted"),
        (git2::Status::INDEX_RENAMED, "index_renamed"),
        (git2::Status::INDEX_TYPECHANGE, "index_typechange"),
        (git2::Status::WT_NEW, "wt_new"),
        (git2::Status::WT_MODIFIED, "wt_modified"),
        (git2::Status::WT_DELETED, "wt_deleted"),
        (git2::Status::WT_RENAMED, "wt_renamed"),
        (git2::Status::WT_TYPECHANGE, "wt_typechange"),
    ] {
        let flags = changed_file(Some("f"), bits.bits()).unwrap().flags;
        let set = [
            ("index_new", flags.index_new),
            ("index_modified", flags.index_modified),
            ("index_deleted", flags.index_deleted),
            ("index_renamed", flags.index_renamed),
            ("index_typechange", flags.index_typechange),
            ("wt_new", flags.wt_new),
            ("wt_modified", flags.wt_modified),
            ("wt_deleted", flags.wt_deleted),
            ("wt_renamed", flags.wt_renamed),
            ("wt_typechange", flags.wt_typechange),
        ];
        for (flag, on) in set {
            assert_eq!(on, flag == name, "{flag} for {name}");
        }
    }
}

#[test]
fn flag_bits_have_their_documented_places() {
    assert!(changed_file(Some("f"), 0x1).unwrap().flags.index_new);
    assert!(changed_file(Some("f"), 0x10).unwrap().flags.index_typechange);
    assert!(changed_file(Some("f"), 0x80).unwrap().flags.wt_new);
    assert!(changed_file(Some("f"), 0x400).unwrap().flags.wt_typechange);
    assert!(changed_file(Some("f"), 0x800).unwrap().flags.wt_renamed);
}

#[test]
fn codes_for_single_changes() {
    assert_eq!(code_of(git2::Status::WT_NEW.bits()), "A");
    assert_eq!(code_of(git2::Status::INDEX_NEW.bits()), "A");
    assert_eq!(code_of(git2::Status::WT_MODIFIED.bits()), "M");
    assert_eq!(code_of(git2::Status::INDEX_MODIFIED.bits()), "M");
    assert_eq!(code_of(git2::Status::WT_DELETED.bits()), "D");
    assert_eq!(code_of(git2::Status::INDEX_DELETED.bits()), "D");
    assert_eq!(code_of(git2::Status::WT_RENAMED.bits()), "R");
    assert_eq!(code_of(git2::Status::INDEX_RENAMED.bits()), "R");
    assert_eq!(code_of(git2::Status::WT_TYPECHANGE.bits()), "T");
    assert_eq!(code_of(git2::Status::INDEX_TYPECHANGE.bits()), "T");
    assert_eq!(code_of(git2::Status::CONFLICTED.bits()), "--");
    assert_eq!(code_of(git2::Status::CURRENT.bits()), "--");
}

#[test]
fn the_first_code_that_applies_counts() {
    let renamed_and_modified = git2::Status::INDEX_RENAMED | git2::Status::WT_MODIFIED;
    assert_eq!(code_of(renamed_and_modified.bits()), "M");
    let new_and_deleted = git2::Status::INDEX_NEW | git2::Status::WT_DELETED;
    assert_eq!(code_of(new_and_deleted.bits()), "A");
    let deleted_and_typechange = git2::Status::INDEX_TYPECHANGE | git2::Status::WT_DELETED;
    assert_eq!(code_of(deleted_and_typechange.bits()), "D");
}

#[test]
fn no_code_exactly_without_counted_changes() {
    for bit in 0..16u32 {
        let file = changed_file(Some("f"), 1 << bit).unwrap();
        let counted = file.flags.include_index() || file.flags.include_workdir();
        assert_eq!(file.flags.code() == "--", !counted, "bit {bit}");
    }
}

#[test]
fn entries_without_a_path_are_passed_over() {
    assert!(changed_file(None, 0x80).is_none());
    assert!(changed_file(Some(""), 0x80).is_none());
    assert_eq!(changed_file(Some("a\\b"), 0x80).unwrap().path, "a\\b");
}

#[test]
fn comparisons_follow_where_the_file_differs() {
    let both = changed_file(Some("dir/f"), 0x1 | 0x100).unwrap().diffs();
    assert_eq!(both.len(), 2);
    assert_eq!(both[0].scope, DiffScope::HeadToIndex);
    assert_eq!(both[0].pathspec, "dir/f");
    assert!(both[0].include_untracked);
    assert!(!both[0].recurse_untracked_dirs);
    assert!(!both[0].show_untracked_content);
    assert_eq!(both[1].scope, DiffScope::IndexToWorkdir);
    assert_eq!(both[1].pathspec, "dir/f");
    assert!(both[1].include_untracked);
    assert!(both[1].recurse_untracked_dirs);
    assert!(both[1].show_untracked_content);
    let index = changed_file(Some("f"), 0x2).unwrap().diffs();
    assert_eq!(index.len(), 1);
    assert_eq!(index[0].scope, DiffScope::HeadToIndex);
    let workdir = changed_file(Some("f"), 0x200).unwrap().diffs();
    assert_eq!(workdir.len(), 1);
    assert_eq!(workdir[0].scope, DiffScope::IndexToWorkdir);
    assert!(changed_file(Some("f"), 0x8000).unwrap().diffs().is_empty());
}

#[test]
fn counts_of_a_file_add_up() {
    let stats = vec![
        DiffStats { insertions: 3, deletions: 1 },
        DiffStats { insertions: 10, deletions: 20 },
    ];
    assert!(counts_fit(&stats));
    assert_eq!(diff_stats_for_path(&stats), (13, 21));
    assert_eq!(diff_stats_for_path(&vec![]), (0, 0));
}

#[test]
fn counts_that_overflow_are_told() {
    let most = i64::MAX as usize;
    assert!(counts_fit(&vec![DiffStats { insertions: most, deletions: most }]));
    assert!(!counts_fit(&vec![
        DiffStats { insertions: most, deletions: 0 },
        DiffStats { insertions: 1, deletions: 0 },
    ]));
    assert!(!counts_fit(&vec![
        DiffStats { insertions: 0, deletions: most },
        DiffStats { insertions: 0, deletions: 1 },
    ]));
}

#[test]
fn a_report_lists_files_and_sums_their_lines() {
    let mut status = GitStatus::new(Some("main".to_string()));
    let first = changed_file(Some("src\\lib.rs"), 0x100).unwrap();
    let second = changed_file(Some("new.txt"), 0x80).unwrap();
    assert!(status.has_room(5, 2));
    status.record(&first, 5, 2);
    status.record(&second, 7, 0);
    let value = into_value(status.json());
    let expected: serde_json::Value = serde_json::from_str(
        r#"{
            "branchName": "main",
            "files": [
                {"path": "src/lib.rs", "status": "M", "additions": 5, "deletions": 2},
                {"path": "new.txt", "status": "A", "additions": 7, "deletions": 0}
            ],
            "totalAdditions": 12,
            "totalDeletions": 2
        }"#,
    )
    .unwrap();
    assert_eq!(value, expected);
}

#[test]
fn a_repository_without_a_head_has_an_unknown_branch() {
    let value = into_value(GitStatus::new(None).json());
    let expected: serde_json::Value = serde_json::from_str(
        r#"{"branchName": "unknown", "files": [], "totalAdditions": 0, "totalDeletions": 0}"#,
    )
    .unwrap();
    assert_eq!(value, expected);
}

#[test]
fn a_report_tells_when_its_totals_are_full() {
    let mut status = GitStatus::new(None);
    let file = changed_file(Some("f"), 0x80).unwrap();
    status.record(&file, i64::MAX, 0);
    assert!(!status.has_room(1, 0));
    assert!(status.has_room(0, 1));
    assert!(status.has_room(-1, 0));
}

#[test]
fn the_status_is_asked_for_with_new_files_and_renames() {
    let request = status_request();
    assert!(request.include_untracked);
    assert!(request.recurse_untracked_dirs);
    assert!(request.renames_head_to_index);
    assert!(request.renames_index_to_workdir);
    assert!(!request.include_ignored);
}

#[test]
fn a_file_is_listed_with_the_counts_of_its_own_comparisons() {
    let both = changed_file(Some("a\\b"), 0x2 | 0x100).unwrap();
    let stats = vec![
        DiffStats { insertions: 3, deletions: 1 },
        DiffStats { insertions: 10, deletions: 20 },
    ];
    let neither = changed_file(Some("c"), 0x8000).unwrap();
    let mut status = GitStatus::new(Some("main".to_string()));
    assert!(status.has_room_for(&neither, &vec![]));
    status.record_stats(&neither, &vec![]);
    assert!(status.has_room_for(&both, &stats));
    let status = status.file_compared(&both, Ok(stats)).ok().unwrap();
    let expected: serde_json::Value = serde_json::from_str(
        r#"{
            "branchName": "main",
            "files": [
                {"path": "c", "status": "--", "additions": 0, "deletions": 0},
                {"path": "a/b", "status": "M", "additions": 13, "deletions": 21}
            ],
            "totalAdditions": 13,
            "totalDeletions": 21
        }"#,
    )
    .unwrap();
    assert_eq!(into_value(status.json()), expected);
}

#[test]
fn a_comparison_that_fails_ends_the_report() {
    let file = changed_file(Some("f"), 0x80).unwrap();
    let mut status = GitStatus::new(None);
    status.record(&file, 1, 1);
    let outcome = status.file_compared(&file, Err("bad object".to_string()));
    assert_eq!(outcome.err(), Some("bad object".to_string()));
}

#[test]
fn results_that_cannot_be_counted_are_told() {
    let most = i64::MAX as usize;
    let file = changed_file(Some("f"), 0x80).unwrap();
    let mut status = GitStatus::new(None);
    assert!(!status.has_room_for(&file, &vec![]));
    let one = DiffStats { insertions: 1, deletions: 0 };
    assert!(!status.has_room_for(&file, &vec![one, one]));
    let full = vec![DiffStats { insertions: most, deletions: 0 }];
    assert!(status.has_room_for(&file, &full));
    status.record_stats(&file, &full);
    assert!(!status.has_room_for(&file, &vec![one]));
    assert!(status.has_room_for(&file, &vec![DiffStats { insertions: 0, deletions: 1 }]));
}

#[test]
fn comparisons_come_to_all_they_found() {
    let one = DiffStats { insertions: 3, deletions: 1 };
    let two = DiffStats { insertions: 10, deletions: 20 };
    assert_eq!(comparisons_found(vec![Ok(one), Ok(two)]), Ok(vec![one, two]));
    assert_eq!(comparisons_found(vec![]), Ok(vec![]));
}

#[test]
fn the_first_comparison_that_fails_decides() {
    let one = DiffStats { insertions: 3, deletions: 1 };
    let index = || Err("index".to_string());
    let workdir = || Err("workdir".to_string());
    assert_eq!(comparisons_found(vec![index(), workdir()]), Err("index".to_string()));
    assert_eq!(comparisons_found(vec![index(), Ok(one)]), Err("index".to_string()));
    assert_eq!(comparisons_found(vec![Ok(one), workdir()]), Err("workdir".to_string()));
    assert_eq!(comparisons_found(vec![index()]), Err("index".to_string()));
}

#[test]
fn comparisons_are_made_in_order_until_one_fails() {
    let one = DiffStats { insertions: 3, deletions: 1 };
    let both = changed_file(Some("f"), 0x2 | 0x100).unwrap();
    let first = both.next_comparison(&vec![]).unwrap();
    assert_eq!((first.scope, first.pathspec.as_str()), (DiffScope::HeadToIndex, "f"));
    let second = both.next_comparison(&vec![Ok(one)]).unwrap();
    assert_eq!(second.scope, DiffScope::IndexToWorkdir);
    assert!(second.show_untracked_content);
    assert!(both.next_comparison(&vec![Ok(one), Ok(one)]).is_none());
    assert!(both.next_comparison(&vec![Err("bad".to_string())]).is_none());
    let workdir = changed_file(Some("f"), 0x100).unwrap();
    assert_eq!(workdir.next_comparison(&vec![]).unwrap().scope, DiffScope::IndexToWorkdir);
    assert!(workdir.next_comparison(&vec![Ok(one)]).is_none());
    assert!(changed_file(Some("f"), 0x8000).unwrap().next_comparison(&vec![]).is_none());
}
