use hatch_kernel::{
    CommitOutcome, Uuid, authenticated_clone_url, branch_delete_outcome, commit_outcome,
    failure_message, remove_directory_by_hand, file_paths_for_diff,
    CoordinatedCommand, branch_from_remote_head, build_git_status, choose_default_branch,
    classify_status, decimal_string, git_output_result, invalid_params_message, join,
    launch_failure_message, merge_method_or_default, parse_ahead_behind, parse_repo_full_name,
    text_contains, trimmed, UuidResult,
};

#[test]
fn git_output_is_stdout_or_trimmed_stderr() {
    assert_eq!(git_output_result(true, "out\n".to_string(), "warn"), Ok("out\n".to_string()));
    assert_eq!(
        git_output_result(false, String::new(), "\n fatal: nope \n"),
        Err("fatal: nope".to_string())
    );
}

#[test]
fn launch_failure_names_the_command() {
    let args = vec!["worktree".to_string(), "list".to_string()];
    assert_eq!(
        launch_failure_message(&args, "not found"),
        "Failed to execute git worktree list: not found"
    );
}

#[test]
fn default_branch_resolution() {
    assert_eq!(
        branch_from_remote_head("refs/remotes/origin/trunk\n"),
        Some("trunk".to_string())
    );
    assert_eq!(branch_from_remote_head("garbage"), None);
    assert_eq!(choose_default_branch(Some("trunk".to_string()), true, true), "trunk");
    assert_eq!(choose_default_branch(None, true, true), "main");
    assert_eq!(choose_default_branch(None, false, true), "master");
    assert_eq!(choose_default_branch(None, false, false), "main");
}

#[test]
fn ahead_behind_parsing() {
    assert_eq!(parse_ahead_behind("3\t5\n"), (3, 5));
    assert_eq!(parse_ahead_behind("+3\tx"), (3, 0));
    assert_eq!(parse_ahead_behind("3"), (0, 0));
    assert_eq!(parse_ahead_behind("1\t2\t3"), (0, 0));
    assert_eq!(parse_ahead_behind("4294967296\t4294967295"), (0, 4294967295));
    assert_eq!(parse_ahead_behind(""), (0, 0));
}

#[test]
fn porcelain_status_is_sorted_into_three_lists() {
    let (staged, modified, untracked) =
        classify_status("M  a.rs\n M b.rs\n D c.rs\n?? d.rs\nA  e.rs\nR  f.rs\nUU g.rs\nx\n");
    assert_eq!(staged, vec!["a.rs", "e.rs", "f.rs"]);
    assert_eq!(modified, vec!["b.rs", "c.rs"]);
    assert_eq!(untracked, vec!["d.rs"]);
}

#[test]
fn git_status_record() {
    let status = build_git_status(" main \n", "?? new.txt\n", 1, 2);
    assert_eq!(status.branch, "main");
    assert_eq!(status.ahead, 1);
    assert_eq!(status.behind, 2);
    assert_eq!(status.untracked, vec!["new.txt"]);
    assert!(status.staged.is_empty());
}

#[test]
fn repo_full_name_from_urls() {
    assert_eq!(parse_repo_full_name("https://github.com/o/r"), Ok("o/r".to_string()));
    assert_eq!(parse_repo_full_name(" https://github.com/o/r.git "), Ok("o/r".to_string()));
    assert_eq!(parse_repo_full_name("git@github.com:o/r.git"), Ok("o/r".to_string()));
    assert_eq!(parse_repo_full_name("https://gitlab.com/o/r"), Ok("o/r".to_string()));
    assert_eq!(parse_repo_full_name("git@git.example.org:team/tool.git"), Ok("team/tool".to_string()));
    assert_eq!(
        parse_repo_full_name("ftp://example.com/o/r"),
        Err("Could not parse repository URL: ftp://example.com/o/r".to_string())
    );
    assert_eq!(
        parse_repo_full_name(" https://host-only "),
        Err("Could not parse repository URL: https://host-only".to_string())
    );
    assert_eq!(
        parse_repo_full_name("git@nocolon"),
        Err("Could not parse repository URL: git@nocolon".to_string())
    );
}

#[test]
fn command_table_lookup() {
    assert_eq!(CoordinatedCommand::from_name("git_status"), Ok(CoordinatedCommand::Status));
    assert_eq!(CoordinatedCommand::from_name("git_merge_pr"), Ok(CoordinatedCommand::MergePr));
    assert_eq!(
        CoordinatedCommand::from_name("git_create_workspace_branch"),
        Ok(CoordinatedCommand::CreateWorkspaceBranch)
    );
    let err = CoordinatedCommand::from_name("git_rebase").unwrap_err();
    assert!(err.contains("Unsupported coordinated command"));
    assert_eq!(err, "Unsupported coordinated command: git_rebase");
    assert_eq!(
        invalid_params_message("git_status", "missing field"),
        "Invalid params for git_status: missing field"
    );
    assert_eq!(merge_method_or_default(None), "squash");
    assert_eq!(merge_method_or_default(Some("rebase".to_string())), "rebase");
}

#[test]
fn text_helpers() {
    assert_eq!(trimmed("\u{3000} a b \t"), "a b");
    assert!(text_contains("abcabd", "abd"));
    assert!(!text_contains("ab", "abc"));
    assert!(text_contains("x", ""));
    assert_eq!(decimal_string(0), "0");
    assert_eq!(decimal_string(18446744073709551615), "18446744073709551615");
    assert_eq!(join("/a", "/abs"), "/abs");
    assert_eq!(join("", "rel"), "rel");
    assert_eq!(join("/a", "b"), "/a/b");
}

#[test]
fn uuid_result_text() {
    let id = UuidResult("00000000000000ff".to_string());
    assert_eq!(id.to_string(), "00000000000000ff");
}

#[test]
fn commit_and_branch_delete_outcomes() {
    assert!(matches!(commit_outcome(true, ""), CommitOutcome::Committed));
    match commit_outcome(false, "On branch main\nnothing to commit, working tree clean") {
        CommitOutcome::NothingToCommit(text) => assert_eq!(text, "Nothing to commit"),
        _ => panic!("nothing to commit is no failure"),
    }
    match commit_outcome(false, "fatal: empty ident") {
        CommitOutcome::Failed(error) => assert_eq!(error, "Failed to commit: fatal: empty ident"),
        _ => panic!("other errors fail the commit"),
    }
    assert!(branch_delete_outcome(false, "error: branch 'x' not found.").is_ok());
    assert_eq!(
        branch_delete_outcome(false, "fatal: cannot lock ref").unwrap_err(),
        "Failed to delete branch: fatal: cannot lock ref"
    );
    assert!(remove_directory_by_hand(false, "fatal: validation failed"));
    assert!(!remove_directory_by_hand(false, "fatal: '/w' is not a working tree"));
    assert!(!remove_directory_by_hand(true, ""));
    assert_eq!(failure_message("push", "rejected"), "Failed to push: rejected");
}

#[test]
fn identifier_and_clone_url() {
    assert_eq!(Uuid::from_parts(0xff, 0).to_string(), "00000000000000ff");
    assert_eq!(Uuid::from_parts(0xf0f0, 0x0f0f).to_string(), "000000000000ffff");
    assert_eq!(Uuid::from_parts(u64::MAX, 0).to_string(), "ffffffffffffffff");
    assert_eq!(
        authenticated_clone_url("https://github.com/o/r.git", Some("tok")),
        "https://tok@github.com/o/r.git"
    );
    assert_eq!(authenticated_clone_url("https://gitlab.com/o/r", Some("tok")), "https://gitlab.com/o/r");
    assert_eq!(authenticated_clone_url("https://github.com/o/r", None), "https://github.com/o/r");
}

#[test]
fn repo_full_name_needs_owner_and_repo() {
    let refused = |u: &str| Err(format!("Could not parse repository URL: {}", u.trim()));
    assert_eq!(parse_repo_full_name("https://h/x"), refused("https://h/x"));
    assert_eq!(parse_repo_full_name("https://h/"), refused("https://h/"));
    assert_eq!(parse_repo_full_name("https://host/a/b/c"), refused("https://host/a/b/c"));
    assert_eq!(parse_repo_full_name("https://h//r"), refused("https://h//r"));
    assert_eq!(parse_repo_full_name("https://h/o/"), refused("https://h/o/"));
    assert_eq!(parse_repo_full_name("git@h:o.git"), refused("git@h:o.git"));
    assert_eq!(parse_repo_full_name("https://h/o/r.git"), Ok("o/r".to_string()));
}

#[test]
fn diff_paths_relative_to_the_repository() {
    assert_eq!(
        file_paths_for_diff("/repo", "src/a.rs"),
        ("/repo/src/a.rs".to_string(), "src/a.rs".to_string())
    );
    assert_eq!(
        file_paths_for_diff("/repo", "/repo/src/a.rs"),
        ("/repo/src/a.rs".to_string(), "src/a.rs".to_string())
    );
    assert_eq!(
        file_paths_for_diff("/repo/", "/repo/b.rs"),
        ("/repo/b.rs".to_string(), "b.rs".to_string())
    );
    assert_eq!(
        file_paths_for_diff("/repo", "/repository/x"),
        ("/repository/x".to_string(), "/repository/x".to_string())
    );
}
