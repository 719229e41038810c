use crate::text::same_text;
use vstd::prelude::*;

verus! {

/// The commands that the coordinator dispatches: a closed table from command
/// name to handler.
#[derive(Debug, Clone, Copy, PartialEq, Eq, Structural)]
pub enum CoordinatedCommand {
    CloneRepo,
    OpenLocalRepo,
    CreateWorkspaceBranch,
    DeleteWorkspaceBranch,
    ListWorktrees,
    PruneWorktrees,
    Status,
    Commit,
    Push,
    CreatePr,
    CreateGithubRepo,
    Diff,
    DiffStats,
    FileDiff,
    GetPr,
    MergePr,
}

/// The command that `name` denotes, if any.
pub open spec fn command_named(name: Seq<char>) -> Option<CoordinatedCommand> {
    if name == "git_clone_repo"@ {
        Some(CoordinatedCommand::CloneRepo)
    } else if name == "git_open_local_repo"@ {
        Some(CoordinatedCommand::OpenLocalRepo)
    } else if name == "git_create_workspace_branch"@ {
        Some(CoordinatedCommand::CreateWorkspaceBranch)
    } else if name == "git_delete_workspace_branch"@ {
        Some(CoordinatedCommand::DeleteWorkspaceBranch)
    } else if name == "git_list_worktrees"@ {
        Some(CoordinatedCommand::ListWorktrees)
    } else if name == "git_prune_worktrees"@ {
        Some(CoordinatedCommand::PruneWorktrees)
    } else if name == "git_status"@ {
        Some(CoordinatedCommand::Status)
    } else if name == "git_commit"@ {
        Some(CoordinatedCommand::Commit)
    } else if name == "git_push"@ {
        Some(CoordinatedCommand::Push)
    } else if name == "git_create_pr"@ {
        Some(CoordinatedCommand::CreatePr)
    } else if name == "git_create_github_repo"@ {
        Some(CoordinatedCommand::CreateGithubRepo)
    } else if name == "git_diff"@ {
        Some(CoordinatedCommand::Diff)
    } else if name == "git_diff_stats"@ {
        Some(CoordinatedCommand::DiffStats)
    } else if name == "git_file_diff"@ {
        Some(CoordinatedCommand::FileDiff)
    } else if name == "git_get_pr"@ {
        Some(CoordinatedCommand::GetPr)
    } else if name == "git_merge_pr"@ {
        Some(CoordinatedCommand::MergePr)
    } else {
        None
    }
}

impl CoordinatedCommand {
    /// Looks up the command called `name`; an unknown name is refused.
    pub fn from_name(name: &str) -> (r: Result<CoordinatedCommand, String>)
        ensures
            match command_named(name@) {
                Some(c) => r == Ok::<CoordinatedCommand, String>(c),
                None => r is Err && r->Err_0@ == "Unsupported coordinated command: "@ + name@,
            },
    {
    if same_text(name, "git_clone_repo") {
        Ok(CoordinatedCommand::CloneRepo)
    } else if same_text(name, "git_open_local_repo") {
        Ok(CoordinatedCommand::OpenLocalRepo)
    } else if same_text(name, "git_create_workspace_branch") {
        Ok(CoordinatedCommand::CreateWorkspaceBranch)
    } else if same_text(name, "git_delete_workspace_branch") {
        Ok(CoordinatedCommand::DeleteWorkspaceBranch)
    } else if same_text(name, "git_list_worktrees") {
        Ok(CoordinatedCommand::ListWorktrees)
    } else if same_text(name, "git_prune_worktrees") {
        Ok(CoordinatedCommand::PruneWorktrees)
    } else if same_text(name, "git_status") {
        Ok(CoordinatedCommand::Status)
    } else if same_text(name, "git_commit") {
        Ok(CoordinatedCommand::Commit)
    } else if same_text(name, "git_push") {
        Ok(CoordinatedCommand::Push)
    } else if same_text(name, "git_create_pr") {
        Ok(CoordinatedCommand::CreatePr)
    } else if same_text(name, "git_create_github_repo") {
        Ok(CoordinatedCommand::CreateGithubRepo)
    } else if same_text(name, "git_diff") {
        Ok(CoordinatedCommand::Diff)
    } else if same_text(name, "git_diff_stats") {
        Ok(CoordinatedCommand::DiffStats)
    } else if same_text(name, "git_file_diff") {
        Ok(CoordinatedCommand::FileDiff)
    } else if same_text(name, "git_get_pr") {
        Ok(CoordinatedCommand::GetPr)
    } else if same_text(name, "git_merge_pr") {
        Ok(CoordinatedCommand::MergePr)
        } else {
            let mut msg = String::from_str("Unsupported coordinated command: ");
            msg.append(name);
            Err(msg)
        }
    }
}

/// The message for parameters that do not fit a command's schema.
pub fn invalid_params_message(command: &str, error: &str) -> (r: String)
    ensures
        r@ == "Invalid params for "@ + command@ + ": "@ + error@,
{
    let mut msg = String::from_str("Invalid params for ");
    msg.append(command);
    msg.append(": ");
    msg.append(error);
    msg
}

/// The merge method used when a merge request names none.
pub fn merge_method_or_default(method: Option<String>) -> (r: String)
    ensures
        method is Some ==> r == method->0,
        method is None ==> r@ == "squash"@,
{
    match method {
        Some(m) => m,
        None => String::from_str("squash"),
    }
}

} // verus!
