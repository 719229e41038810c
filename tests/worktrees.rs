use hatch_kernel::{
    GitEntry, MetadataCheck, ParsedWorktreeEntry, WorkspaceResult, WorktreeHealthStatus,
    branch_creation_outcome, check_branch_free, derive_worktree_health, gitdir_pointer,
    index_lock_paths, lifecycle_info, locked_create_result, metadata_check,
    parse_worktree_list_porcelain, unlock_outcome, workspace_branch_name, worktree_add_outcome,
    worktree_path_for,
};

const LISTING: &str = "worktree /repo\nHEAD 1111111111111111111111111111111111111111\nbranch refs/heads/main\n\nworktree /repo/worktrees/alpha\nHEAD 2222222222222222222222222222222222222222\nbranch refs/heads/workspace/alpha\nlocked active-agent\n\nworktree /repo/worktrees/gone\nHEAD 3333333333333333333333333333333333333333\ndetached\nprunable gitdir file points to non-existent location\n\n";

fn entry(path: &str, prunable: bool, locked: bool) -> ParsedWorktreeEntry {
    ParsedWorktreeEntry {
        path: path.to_string(),
        branch: None,
        head: String::new(),
        is_locked: locked,
        lock_reason: None,
        is_prunable: prunable,
    }
}

#[test]
fn parses_a_listing_of_three_worktrees() {
    let entries = parse_worktree_list_porcelain(LISTING);
    assert_eq!(entries.len(), 3);
    assert_eq!(entries[0].path, "/repo");
    assert_eq!(entries[0].branch.as_deref(), Some("main"));
    assert_eq!(entries[0].head, "1111111111111111111111111111111111111111");
    assert!(!entries[0].is_locked);
    assert_eq!(entries[1].branch.as_deref(), Some("workspace/alpha"));
    assert!(entries[1].is_locked);
    assert_eq!(entries[1].lock_reason.as_deref(), Some("active-agent"));
    assert_eq!(entries[2].branch, None);
    assert!(entries[2].is_prunable);
    assert!(!entries[2].is_locked);
}

#[test]
fn parser_handles_bare_lock_crlf_and_no_final_newline() {
    let entries = parse_worktree_list_porcelain("worktree /a\r\nlocked\r\nbranch refs/heads/x\r\nworktree /b\nlocked   spaced reason  ");
    assert_eq!(entries.len(), 2);
    assert_eq!(entries[0].path, "/a");
    assert!(entries[0].is_locked);
    assert_eq!(entries[0].lock_reason, None);
    assert_eq!(entries[0].branch.as_deref(), Some("x"));
    assert_eq!(entries[1].path, "/b");
    assert_eq!(entries[1].lock_reason.as_deref(), Some("spaced reason"));
}

#[test]
fn parser_ignores_lines_before_the_first_record_and_unknown_keys() {
    assert!(parse_worktree_list_porcelain("").is_empty());
    let entries = parse_worktree_list_porcelain("HEAD abc\nbare\nworktree /x\nbare\nfrobnicate\n");
    assert_eq!(entries.len(), 1);
    assert_eq!(entries[0].path, "/x");
    assert_eq!(entries[0].head, "");
    assert_eq!(entries[0].branch, None);
}

#[test]
fn parser_keeps_a_branch_outside_refs_heads() {
    let entries = parse_worktree_list_porcelain("worktree /x\nbranch refs/remotes/origin/main\n");
    assert_eq!(entries[0].branch.as_deref(), Some("refs/remotes/origin/main"));
}

#[test]
fn health_follows_precedence() {
    let plain = entry("/w", false, false);
    let prunable = entry("/w", true, true);
    let locked = entry("/w", false, true);
    assert_eq!(derive_worktree_health(&plain, false, true), WorktreeHealthStatus::Orphaned);
    assert_eq!(derive_worktree_health(&prunable, true, true), WorktreeHealthStatus::Orphaned);
    assert_eq!(derive_worktree_health(&locked, true, false), WorktreeHealthStatus::Corrupted);
    assert_eq!(derive_worktree_health(&locked, true, true), WorktreeHealthStatus::Locked);
    assert_eq!(derive_worktree_health(&plain, true, true), WorktreeHealthStatus::Healthy);
}

#[test]
fn metadata_of_each_git_entry_shape() {
    assert!(matches!(metadata_check("/w", &GitEntry::Missing), MetadataCheck::Invalid));
    assert!(matches!(metadata_check("/w", &GitEntry::Directory), MetadataCheck::Valid));
    assert!(matches!(
        metadata_check("/w", &GitEntry::File(Err("denied".to_string()))),
        MetadataCheck::Invalid
    ));
    assert!(matches!(
        metadata_check("/w", &GitEntry::File(Ok("garbage".to_string()))),
        MetadataCheck::Invalid
    ));
    match metadata_check("/w", &GitEntry::File(Ok("gitdir: /repo/.git/worktrees/w\n".to_string()))) {
        MetadataCheck::TargetMustExist(p) => assert_eq!(p, "/repo/.git/worktrees/w"),
        _ => panic!("a pointer file names its target"),
    }
    match metadata_check("/w", &GitEntry::File(Ok("  gitdir:  ../private ".to_string()))) {
        MetadataCheck::TargetMustExist(p) => assert_eq!(p, "/w/../private"),
        _ => panic!("a relative pointer is taken below the worktree"),
    }
}

#[test]
fn gitdir_pointer_needs_the_key() {
    assert_eq!(gitdir_pointer("gitdir: /x"), Some("/x".to_string()));
    assert_eq!(gitdir_pointer("\n gitdir:/y \n"), Some("/y".to_string()));
    assert_eq!(gitdir_pointer("git dir: /x"), None);
}

#[test]
fn index_lock_paths_cover_both_layouts() {
    let direct = index_lock_paths("/w", &GitEntry::Directory);
    assert_eq!(direct, vec!["/w/.git/index.lock".to_string()]);
    let pointed = index_lock_paths("/w", &GitEntry::File(Ok("gitdir: /repo/.git/worktrees/w".to_string())));
    assert_eq!(
        pointed,
        vec!["/w/.git/index.lock".to_string(), "/repo/.git/worktrees/w/index.lock".to_string()]
    );
    let unreadable = index_lock_paths("/w", &GitEntry::File(Err("denied".to_string())));
    assert_eq!(unreadable, vec!["/w/.git/index.lock".to_string()]);
    let missing = index_lock_paths("/w/", &GitEntry::Missing);
    assert_eq!(missing, vec!["/w/.git/index.lock".to_string()]);
}

#[test]
fn workspace_names_and_paths() {
    assert_eq!(workspace_branch_name("alpha"), "workspace/alpha");
    assert_eq!(worktree_path_for("/repo", "alpha"), "/repo/worktrees/alpha");
    assert_eq!(worktree_path_for("/repo/", "alpha"), "/repo/worktrees/alpha");
}

#[test]
fn duplicate_branch_is_refused() {
    let entries = parse_worktree_list_porcelain(LISTING);
    assert!(check_branch_free(&entries, "workspace/beta").is_ok());
    assert_eq!(
        check_branch_free(&entries, "workspace/alpha").unwrap_err(),
        "Branch 'workspace/alpha' is already used by another worktree"
    );
}

#[test]
fn create_result_is_locked_for_the_agent() {
    let created = worktree_add_outcome(
        true,
        "",
        "workspace/alpha".to_string(),
        "/repo/worktrees/alpha".to_string(),
    )
    .unwrap();
    let result = locked_create_result(created);
    assert_eq!(result.branch_name, "workspace/alpha");
    assert_eq!(result.worktree_path, "/repo/worktrees/alpha");
    assert!(result.is_locked);
    assert_eq!(result.lock_reason.as_deref(), Some("active-agent"));
    assert_eq!(result.health_status, WorktreeHealthStatus::Locked);
    let failed = worktree_add_outcome(false, "fatal: bad", "b".to_string(), "p".to_string());
    assert_eq!(failed.unwrap_err(), "Failed to create worktree: fatal: bad");
    let _ = WorkspaceResult { branch_name: String::new(), worktree_path: String::new() };
}

#[test]
fn outcomes_of_branch_and_unlock_steps() {
    assert!(branch_creation_outcome(true, "").is_ok());
    assert!(branch_creation_outcome(false, "fatal: a branch named 'x' already exists").is_ok());
    assert_eq!(
        branch_creation_outcome(false, "fatal: not a valid object name").unwrap_err(),
        "Failed to create branch: fatal: not a valid object name"
    );
    assert!(unlock_outcome(false, "fatal: '/w' is not locked\n").is_ok());
    assert_eq!(
        unlock_outcome(false, "  fatal: no such worktree \n").unwrap_err(),
        "Failed to unlock worktree: fatal: no such worktree"
    );
}

#[test]
fn lifecycle_info_defaults_missing_branch_to_empty() {
    let info = lifecycle_info(entry("/w", false, false), WorktreeHealthStatus::Healthy);
    assert_eq!(info.branch, "");
    assert_eq!(info.path, "/w");
    let listed = parse_worktree_list_porcelain(LISTING);
    let info = lifecycle_info(listed[1].clone(), WorktreeHealthStatus::Locked);
    assert_eq!(info.branch, "workspace/alpha");
    assert_eq!(info.head_commit, "2222222222222222222222222222222222222222");
}
