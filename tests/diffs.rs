use hatch_kernel::{
    change_label, diff_stats, file_diff_flags, language_for_extension, language_for_path, line_count,
    parse_worktree_info_list, status_labels,
};

#[test]
fn change_labels() {
    assert_eq!(change_label('?', '?'), "untracked");
    assert_eq!(change_label('A', ' '), "added");
    assert_eq!(change_label(' ', 'D'), "deleted");
    assert_eq!(change_label('R', ' '), "renamed");
    assert_eq!(change_label('M', 'M'), "modified");
}

#[test]
fn status_labels_keep_order() {
    let labels = status_labels("?? new.txt\n M src/a.rs\nx\n");
    assert_eq!(
        labels,
        vec![
            ("new.txt".to_string(), "untracked".to_string()),
            ("src/a.rs".to_string(), "modified".to_string()),
        ]
    );
}

#[test]
fn diff_stats_merge_numstat_with_status() {
    let (changes, untracked) = diff_stats(
        "A  added.rs\n D gone.rs\n?? fresh.txt\n?? other.txt\n",
        "10\t0\tadded.rs\n0\t7\tgone.rs\n-\t-\timage.png\n3\t1\tplain.rs\nbroken\n",
    );
    let summary: Vec<(String, u32, u32, String)> = changes
        .into_iter()
        .map(|c| (c.path, c.additions, c.deletions, c.status))
        .collect();
    assert_eq!(
        summary,
        vec![
            ("added.rs".to_string(), 10, 0, "added".to_string()),
            ("gone.rs".to_string(), 0, 7, "deleted".to_string()),
            ("image.png".to_string(), 0, 0, "modified".to_string()),
            ("plain.rs".to_string(), 3, 1, "modified".to_string()),
        ]
    );
    assert_eq!(untracked, vec!["fresh.txt".to_string(), "other.txt".to_string()]);
}

#[test]
fn line_counts() {
    assert_eq!(line_count(""), 0);
    assert_eq!(line_count("a\nb\n"), 2);
    assert_eq!(line_count("a\n\nb"), 3);
}

#[test]
fn languages_by_extension() {
    assert_eq!(language_for_path("/repo/src/main.rs"), "rust");
    assert_eq!(language_for_path("App.TSX"), "typescript");
    assert_eq!(language_for_path("notes.yml"), "yaml");
    assert_eq!(language_for_path("Makefile"), "plaintext");
    assert_eq!(language_for_path("/home/u/.bashrc"), "plaintext");
    assert_eq!(language_for_path("archive.tar.gz"), "plaintext");
    assert_eq!(language_for_path("dir.d/file"), "plaintext");
}

#[test]
fn file_diff_flags_from_status() {
    assert_eq!(file_diff_flags("?? a\n"), (true, false));
    assert_eq!(file_diff_flags("A  a\n"), (true, false));
    assert_eq!(file_diff_flags(" D a\n"), (false, true));
    assert_eq!(file_diff_flags("D  a\n"), (false, true));
    assert_eq!(file_diff_flags(" M a\n"), (false, false));
    assert_eq!(file_diff_flags(""), (false, false));
}

#[test]
fn worktree_info_listing_keeps_full_refs() {
    let infos = parse_worktree_info_list(
        "worktree /bare.git\nbare\n\nworktree /w\nHEAD abc\nbranch refs/heads/main\nlocked reason\nprunable stale\n\nworktree /d\nHEAD def\ndetached\n",
    );
    assert_eq!(infos.len(), 3);
    assert!(infos[0].is_bare);
    assert_eq!(infos[1].branch.as_deref(), Some("refs/heads/main"));
    assert_eq!(infos[1].head, "abc");
    assert!(infos[1].is_locked);
    assert!(infos[1].is_prunable);
    assert!(infos[2].is_detached);
    assert_eq!(infos[2].branch, None);
}

#[test]
fn extension_table_and_case_folding() {
    assert_eq!(language_for_extension("rs"), "rust");
    assert_eq!(language_for_extension("RS"), "plaintext");
    assert_eq!(language_for_path("lib.RS"), "rust");
    assert_eq!(language_for_path("Main.Kt"), "kotlin");
    assert_eq!(language_for_path("x.\u{212A}t"), "kotlin");
}

#[test]
fn extension_ignores_trailing_separators_and_dots() {
    assert_eq!(language_for_path("dir/a.rs/"), "rust");
    assert_eq!(language_for_path("dir/a.rs/."), "rust");
    assert_eq!(language_for_path("dir/a.py/./"), "python");
    assert_eq!(language_for_path("dir/.."), "plaintext");
    assert_eq!(language_for_path("."), "plaintext");
}

#[test]
fn later_status_record_wins() {
    let (changes, untracked) = diff_stats("A  x.rs\nR  x.rs\n", "1\t2\tx.rs\n");
    assert_eq!(changes[0].status, "renamed");
    assert!(untracked.is_empty());
}
