//! Workspace isolation kernel: a per-repository priority queue of git
//! operations, and the bookkeeping around isolated worktrees.
//!
//! Everything here is a pure function or a state transition; running `git`,
//! touching the filesystem, timers and channels are left to the caller, which
//! hands the outcomes back as plain values.
mod commands;
mod diffs;
mod coordinator;
mod gitops;
mod ids;
mod language;
mod listing;
mod lifecycle;
mod paths;
mod porcelain;
mod queue;
mod records;
mod status;
mod text;

pub use commands::{
    CoordinatedCommand, command_named, invalid_params_message, merge_method_or_default,
};
pub use coordinator::{
    CancelOutcome, DispatchOutcome, EnqueueReceipt, GitCoordinatorQueueStatus,
    GitCoordinatorState, OPERATION_TIMEOUT_SECS, RepoQueueState, cancelled_message,
    settle_outcome, timed_out_message,
};
pub use diffs::{change_label, diff_stats, line_count, status_labels};
pub use language::{file_diff_flags, language_for_extension, language_for_path};
pub use listing::parse_worktree_info_list;
pub use gitops::{
    CommitOutcome, branch_delete_outcome, branch_from_remote_head, choose_default_branch,
    commit_outcome, failure_message, git_output_result, launch_failure_message,
    parse_ahead_behind, remove_directory_by_hand,
};
pub use ids::{decimal_string, operation_id};
pub use lifecycle::{
    GitEntry, MetadataCheck, WorktreeHealthStatus, WorktreeLifecycleInfo, active_agent_reason,
    branch_creation_outcome, check_branch_free, derive_worktree_health, index_lock_paths,
    lifecycle_info, metadata_check, unlock_outcome,
};
pub use paths::{file_paths_for_diff, gitdir_pointer, join, workspace_branch_name, worktree_path_for};
pub use porcelain::{ParsedWorktreeEntry, parse_worktree_list_porcelain};
pub use queue::{
    GitCoordinatorOperation, GitOperationPriority, QueuedGitOperation, queue_insert_by_priority,
};
pub use records::{
    CloneProgress, FileChange, FileContent, FileDiff, FileEntry, MergeResult, PullRequestInfo,
    Repository, Uuid, UuidResult, WorkspaceResult, WorktreeCreateResult, WorktreeInfo,
    authenticated_clone_url, locked_create_result, parse_repo_full_name, worktree_add_outcome,
};
pub use status::{ChangeKind, GitStatus, build_git_status, classify_status};
pub use text::{text_contains, trimmed};
