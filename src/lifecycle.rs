use crate::paths::{gitdir_pointer, gitdir_pointer_text, join, join_path, resolve_gitdir_text};
use crate::porcelain::{ParsedWorktreeEntry, opt_view};
use crate::text::{contains, text_contains, trim, trimmed};
use vstd::prelude::*;

verus! {

/// Health of a worktree as observed on disk.
#[derive(Debug, Clone, Copy, PartialEq, Eq, Structural)]
pub enum WorktreeHealthStatus {
    Healthy,
    Orphaned,
    Locked,
    Corrupted,
}

/// The health that the probes give, in order of precedence: a missing or
/// prunable worktree is orphaned, broken metadata means corrupted, then a
/// lock, and otherwise healthy.
pub open spec fn health_of(
    path_exists: bool,
    is_prunable: bool,
    metadata_valid: bool,
    is_locked: bool,
) -> WorktreeHealthStatus {
    if !path_exists || is_prunable {
        WorktreeHealthStatus::Orphaned
    } else if !metadata_valid {
        WorktreeHealthStatus::Corrupted
    } else if is_locked {
        WorktreeHealthStatus::Locked
    } else {
        WorktreeHealthStatus::Healthy
    }
}

/// Classifies `entry`, given whether its directory exists and whether its
/// git metadata passed validation.
pub fn derive_worktree_health(
    entry: &ParsedWorktreeEntry,
    path_exists: bool,
    metadata_valid: bool,
) -> (r: WorktreeHealthStatus)
    ensures
        r == health_of(path_exists, entry.is_prunable, metadata_valid, entry.is_locked),
        (r == WorktreeHealthStatus::Orphaned) <==> (!path_exists || entry.is_prunable),
        (r == WorktreeHealthStatus::Corrupted) <==> (!metadata_valid && path_exists
            && !entry.is_prunable),
        (r == WorktreeHealthStatus::Locked) <==> (entry.is_locked && metadata_valid && path_exists
            && !entry.is_prunable),
{
    if !path_exists || entry.is_prunable {
        WorktreeHealthStatus::Orphaned
    } else if !metadata_valid {
        WorktreeHealthStatus::Corrupted
    } else if entry.is_locked {
        WorktreeHealthStatus::Locked
    } else {
        WorktreeHealthStatus::Healthy
    }
}

/// What the filesystem holds at `<worktree>/.git`.
pub enum GitEntry {
    Missing,
    Directory,
    /// A file: its text, or the error that reading it gave.
    File(Result<String, String>),
}

/// The verdict on a worktree's metadata, or the path whose existence decides it.
pub enum MetadataCheck {
    Valid,
    Invalid,
    TargetMustExist(String),
}

/// Validates the `.git` entry of the worktree at `worktree_path`: a directory
/// is valid; a file must point with `gitdir:` to a path (relative ones are
/// taken below the worktree) that must exist; anything else is invalid.
pub fn metadata_check(worktree_path: &str, git_entry: &GitEntry) -> (r: MetadataCheck)
    ensures
        match git_entry {
            GitEntry::Missing => r is Invalid,
            GitEntry::Directory => r is Valid,
            GitEntry::File(Err(_)) => r is Invalid,
            GitEntry::File(Ok(c)) => match gitdir_pointer_text(c@) {
                None => r is Invalid,
                Some(p) => r is TargetMustExist && r->TargetMustExist_0@ == resolve_gitdir_text(
                    worktree_path@,
                    p,
                ),
            },
        },
{
    match git_entry {
        GitEntry::Missing => MetadataCheck::Invalid,
        GitEntry::Directory => MetadataCheck::Valid,
        GitEntry::File(Err(_)) => MetadataCheck::Invalid,
        GitEntry::File(Ok(c)) => match gitdir_pointer(c.as_str()) {
            None => MetadataCheck::Invalid,
            Some(p) => MetadataCheck::TargetMustExist(join(worktree_path, p.as_str())),
        },
    }
}

/// The `index.lock` files to clear for the worktree at `worktree_path`: the
/// one in a `.git` directory, and the one in the private directory that a
/// readable `gitdir:` file points to. Clearing them is best effort, so an
/// unreadable `.git` file only leaves out the second one.
pub fn index_lock_paths(worktree_path: &str, git_entry: &GitEntry) -> (r: Vec<String>)
    ensures
        r@.len() >= 1,
        r@[0]@ == join_path(join_path(worktree_path@, ".git"@), "index.lock"@),
        match git_entry {
            GitEntry::File(Ok(c)) => match gitdir_pointer_text(c@) {
                None => r@.len() == 1,
                Some(p) => r@.len() == 2 && r@[1]@ == join_path(
                    resolve_gitdir_text(worktree_path@, p),
                    "index.lock"@,
                ),
            },
            _ => r@.len() == 1,
        },
{
    let git_dir = join(worktree_path, ".git");
    let direct = join(git_dir.as_str(), "index.lock");
    let mut paths: Vec<String> = Vec::new();
    paths.push(direct);
    match git_entry {
        GitEntry::File(Ok(c)) => {
            match gitdir_pointer(c.as_str()) {
                Some(p) => {
                    let private_dir = join(worktree_path, p.as_str());
                    paths.push(join(private_dir.as_str(), "index.lock"));
                },
                None => {},
            }
        },
        _ => {},
    }
    paths
}

/// A listed worktree with its health.
#[derive(Debug, Clone)]
pub struct WorktreeLifecycleInfo {
    pub path: String,
    /// The branch, empty for a worktree without one.
    pub branch: String,
    pub head_commit: String,
    pub is_locked: bool,
    pub lock_reason: Option<String>,
    pub health_status: WorktreeHealthStatus,
}

pub fn lifecycle_info(entry: ParsedWorktreeEntry, health_status: WorktreeHealthStatus) -> (r:
    WorktreeLifecycleInfo)
    ensures
        r.path == entry.path,
        r.branch@ == match entry.branch {
            Some(b) => b@,
            None => Seq::<char>::empty(),
        },
        r.head_commit == entry.head,
        r.is_locked == entry.is_locked,
        r.lock_reason == entry.lock_reason,
        r.health_status == health_status,
{
    let branch = match entry.branch {
        Some(b) => b,
        None => String::new(),
    };
    WorktreeLifecycleInfo {
        path: entry.path,
        branch,
        head_commit: entry.head,
        is_locked: entry.is_locked,
        lock_reason: entry.lock_reason,
        health_status,
    }
}

/// Some listed entry is on `branch`.
pub open spec fn branch_taken(entries: Seq<ParsedWorktreeEntry>, branch: Seq<char>) -> bool {
    exists|i: int| 0 <= i < entries.len() && opt_view(#[trigger] entries[i].branch) == Some(branch)
}

/// Refuses a branch that a listed worktree already uses.
pub fn check_branch_free(entries: &Vec<ParsedWorktreeEntry>, branch: &str) -> (r: Result<(), String>)
    ensures
        r is Ok <==> !branch_taken(entries@, branch@),
        r is Err ==> r->Err_0@ == "Branch '"@ + branch@ + "' is already used by another worktree"@,
{
    let mut i: usize = 0;
    while i < entries.len()
        invariant
            0 <= i <= entries@.len(),
            forall|k: int| 0 <= k < i ==> opt_view(#[trigger] entries@[k].branch) != Some(branch@),
        decreases entries@.len() - i,
    {
        let taken = match &entries[i].branch {
            Some(b) => crate::text::same_text(b.as_str(), branch),
            None => false,
        };
        if taken {
            let mut msg = String::from_str("Branch '");
            msg.append(branch);
            msg.append("' is already used by another worktree");
            return Err(msg);
        }
        i = i + 1;
    }
    Ok(())
}

/// Branches in use are pairwise distinct.
pub open spec fn branches_unique(entries: Seq<ParsedWorktreeEntry>) -> bool {
    forall|i: int, j: int|
        0 <= i < j < entries.len() && entries[i].branch is Some ==> opt_view(
            #[trigger] entries[i].branch,
        ) != opt_view(#[trigger] entries[j].branch)
}

/// When the duplicate check lets a branch through, a worktree added on it
/// leaves every branch with at most one worktree.
pub proof fn lemma_created_branch_unique(
    entries: Seq<ParsedWorktreeEntry>,
    added: ParsedWorktreeEntry,
)
    requires
        branches_unique(entries),
        added.branch is Some,
        !branch_taken(entries, added.branch->0@),
    ensures
        branches_unique(entries.push(added)),
{
    let all = entries.push(added);
    assert forall|i: int, j: int|
        0 <= i < j < all.len() && all[i].branch is Some implies opt_view(
        #[trigger] all[i].branch,
    ) != opt_view(#[trigger] all[j].branch) by {
        if j == entries.len() {
            assert(all[i] == entries[i]);
            if opt_view(all[i].branch) == opt_view(added.branch) {
                assert(opt_view(entries[i].branch) == Some(added.branch->0@));
            }
        } else {
            assert(all[i] == entries[i] && all[j] == entries[j]);
        }
    }
}

/// The lock reason that `create` writes.
pub fn active_agent_reason() -> (r: String)
    ensures
        r@ == "active-agent"@,
{
    String::from_str("active-agent")
}

/// Outcome of `git branch <name> origin/<default>`: a branch that already
/// exists is fine; any other failure is reported with git's error text.
pub fn branch_creation_outcome(succeeded: bool, stderr: &str) -> (r: Result<(), String>)
    ensures
        r is Ok <==> (succeeded || contains(stderr@, "already exists"@)),
        r is Err ==> r->Err_0@ == "Failed to create branch: "@ + stderr@,
{
    if succeeded || text_contains(stderr, "already exists") {
        Ok(())
    } else {
        let mut msg = String::from_str("Failed to create branch: ");
        msg.append(stderr);
        Err(msg)
    }
}

/// Outcome of `git worktree unlock`: a worktree that was not locked is fine.
pub fn unlock_outcome(succeeded: bool, stderr: &str) -> (r: Result<(), String>)
    ensures
        r is Ok <==> (succeeded || contains(stderr@, "is not locked"@)),
        r is Err ==> r->Err_0@ == "Failed to unlock worktree: "@ + trim(stderr@),
{
    if succeeded || text_contains(stderr, "is not locked") {
        Ok(())
    } else {
        let mut msg = String::from_str("Failed to unlock worktree: ");
        let t = trimmed(stderr);
        msg.append(t.as_str());
        Err(msg)
    }
}

} // verus!
