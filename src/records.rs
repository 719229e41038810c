use crate::lifecycle::{WorktreeHealthStatus, active_agent_reason};
use crate::text::{
    after, chars_of, find_char, first_char, has_prefix, lemma_first_char_facts, starts_with, trim,
    trimmed,
};
use vstd::prelude::*;

verus! {

/// A repository checked out under the workspaces root.
#[derive(Debug, Clone)]
pub struct Repository {
    pub id: String,
    pub name: String,
    /// `owner/repo`.
    pub full_name: String,
    pub clone_url: String,
    pub local_path: String,
    pub default_branch: String,
    pub is_private: bool,
}

/// Progress of a clone.
#[derive(Debug, Clone)]
pub struct CloneProgress {
    pub stage: String,
    pub percent: u32,
}

/// The branch and worktree made for a workspace.
#[derive(Debug, Clone)]
pub struct WorkspaceResult {
    pub branch_name: String,
    pub worktree_path: String,
}

/// A worktree as `git_list_worktrees` reports it.
#[derive(Debug, Clone)]
pub struct WorktreeInfo {
    pub path: String,
    pub head: String,
    pub branch: Option<String>,
    pub is_bare: bool,
    pub is_detached: bool,
    pub is_locked: bool,
    pub is_prunable: bool,
}

/// Line counts of one changed file.
#[derive(Debug, Clone)]
pub struct FileChange {
    pub path: String,
    pub additions: u32,
    pub deletions: u32,
    pub status: String,
}

/// A node of a directory listing.
#[derive(Debug)]
pub struct FileEntry {
    pub name: String,
    pub path: String,
    pub is_directory: bool,
    pub children: Option<Vec<FileEntry>>,
}

/// The text of a file and its language.
#[derive(Debug, Clone)]
pub struct FileContent {
    pub path: String,
    pub content: String,
    pub language: String,
    pub size: u64,
}

/// A file's content at HEAD and in the working copy.
#[derive(Debug, Clone)]
pub struct FileDiff {
    pub path: String,
    pub old_content: String,
    pub new_content: String,
    pub language: String,
    pub is_new_file: bool,
    pub is_deleted: bool,
}

/// A pull request as the forge reports it.
#[derive(Debug, Clone)]
pub struct PullRequestInfo {
    pub number: u32,
    pub title: String,
    pub state: String,
    pub merged: bool,
    pub mergeable: Option<bool>,
    pub mergeable_state: String,
    pub html_url: String,
}

/// The forge's answer to a merge.
#[derive(Debug, Clone)]
pub struct MergeResult {
    pub merged: bool,
    pub message: String,
    pub sha: Option<String>,
}

/// What `worktree_create` returns.
#[derive(Debug, Clone)]
pub struct WorktreeCreateResult {
    pub branch_name: String,
    pub worktree_path: String,
    pub is_locked: bool,
    pub lock_reason: Option<String>,
    pub health_status: WorktreeHealthStatus,
}

/// A freshly created workspace: locked for its agent.
pub fn locked_create_result(created: WorkspaceResult) -> (r: WorktreeCreateResult)
    ensures
        r.branch_name == created.branch_name,
        r.worktree_path == created.worktree_path,
        r.is_locked,
        r.lock_reason is Some && r.lock_reason->0@ == "active-agent"@,
        r.health_status == WorktreeHealthStatus::Locked,
{
    WorktreeCreateResult {
        branch_name: created.branch_name,
        worktree_path: created.worktree_path,
        is_locked: true,
        lock_reason: Some(active_agent_reason()),
        health_status: WorktreeHealthStatus::Locked,
    }
}

/// Outcome of `git worktree add`: the workspace, or git's error text.
pub fn worktree_add_outcome(
    succeeded: bool,
    stderr: &str,
    branch_name: String,
    worktree_path: String,
) -> (r: Result<WorkspaceResult, String>)
    ensures
        succeeded ==> r is Ok && r->Ok_0.branch_name == branch_name && r->Ok_0.worktree_path
            == worktree_path,
        !succeeded ==> r is Err && r->Err_0@ == "Failed to create worktree: "@ + stderr@,
{
    if succeeded {
        Ok(WorkspaceResult { branch_name, worktree_path })
    } else {
        let mut msg = String::from_str("Failed to create worktree: ");
        msg.append(stderr);
        Err(msg)
    }
}

/// `owner/repo` of a clone URL, trimmed: `https://<host>/owner/repo` or
/// `git@<host>:owner/repo`, with one `.git` suffix dropped. The host ends at
/// the first `/` (https) or `:` (ssh).
pub open spec fn repo_full_name_of(url: Seq<char>) -> Option<Seq<char>> {
    let u = trim(url);
    if starts_with(u, "https://"@) {
        path_after(after(u, "https://"@), '/')
    } else if starts_with(u, "git@"@) {
        path_after(after(u, "git@"@), ':')
    } else {
        None
    }
}

/// What follows the first `sep` of `rest`, without a `.git` suffix, when it
/// is `owner/repo`; none otherwise.
pub open spec fn path_after(rest: Seq<char>, sep: char) -> Option<Seq<char>> {
    let k = first_char(rest, sep);
    let p = without_git_suffix(rest.subrange(k + 1, rest.len() as int));
    if k < rest.len() && is_owner_repo(p) {
        Some(p)
    } else {
        None
    }
}

/// `p` is `owner/repo`: two non-empty parts joined by its only `/`.
pub open spec fn is_owner_repo(p: Seq<char>) -> bool {
    let k = first_char(p, '/');
    0 < k < p.len() - 1 && first_char(p.subrange(k + 1, p.len() as int), '/') == p.len() - k - 1
}

/// The same, said of the characters: exactly one `/`, neither first nor last.
pub proof fn lemma_owner_repo_shape(p: Seq<char>)
    requires
        is_owner_repo(p),
    ensures
        exists|k: int|
            0 < k < p.len() - 1 && p[k] == '/' && forall|i: int|
                0 <= i < p.len() && i != k ==> #[trigger] p[i] != '/',
{
    let k = first_char(p, '/');
    let tail = p.subrange(k + 1, p.len() as int);
    lemma_first_char_facts(p, '/');
    lemma_first_char_facts(tail, '/');
    assert forall|i: int| 0 <= i < p.len() && i != k implies #[trigger] p[i] != '/' by {
        if i > k {
            assert(p[i] == tail[i - k - 1]);
        }
    }
}

pub open spec fn without_git_suffix(p: Seq<char>) -> Seq<char> {
    if p.len() >= 4 && p.subrange(p.len() - 4, p.len() as int) == ".git"@ {
        p.subrange(0, p.len() - 4)
    } else {
        p
    }
}

fn unparsable_url(u: &str) -> (r: Result<String, String>)
    ensures
        r is Err && r->Err_0@ == "Could not parse repository URL: "@ + u@,
{
    let mut msg = String::from_str("Could not parse repository URL: ");
    msg.append(u);
    Err(msg)
}

/// Reads `owner/repo` from a clone URL.
pub fn parse_repo_full_name(url: &str) -> (r: Result<String, String>)
    ensures
        match repo_full_name_of(url@) {
            Some(n) => r is Ok && r->Ok_0@ == n,
            None => r is Err && r->Err_0@ == "Could not parse repository URL: "@ + trim(url@),
        },
        r is Ok ==> is_owner_repo(r->Ok_0@),
{
    let u = trimmed(url);
    let cs = chars_of(u.as_str());
    let n = cs.len();
    assert(cs@.subrange(0, n as int) =~= cs@);
    let https = chars_of("https://");
    let ssh = chars_of("git@");
    let (skip, sep) = if has_prefix(&cs, 0, n, &https) {
        (https.len(), '/')
    } else if has_prefix(&cs, 0, n, &ssh) {
        (ssh.len(), ':')
    } else {
        return unparsable_url(u.as_str());
    };
    let ghost rest = cs@.subrange(skip as int, n as int);
    assert(rest == after(cs@, if sep == '/' { "https://"@ } else { "git@"@ }));
    let k = find_char(&cs, skip, n, sep);
    if k == n {
        return unparsable_url(u.as_str());
    }
    let start = k + 1;
    assert(rest.subrange(k - skip + 1, rest.len() as int) =~= cs@.subrange(start as int, n as int));
    let suffix = chars_of(".git");
    let ghost p = cs@.subrange(start as int, n as int);
    let end = if n - start >= 4 && has_prefix(&cs, n - 4, n, &suffix) {
        proof {
            reveal_strlit(".git");
            assert(cs@.subrange(n - 4, n as int).subrange(0, 4) =~= p.subrange(
                p.len() - 4,
                p.len() as int,
            ));
        }
        n - 4
    } else {
        proof {
            reveal_strlit(".git");
            if p.len() >= 4 {
                assert(cs@.subrange(n - 4, n as int).subrange(0, 4) =~= p.subrange(
                    p.len() - 4,
                    p.len() as int,
                ));
            }
        }
        n
    };
    assert(without_git_suffix(p) =~= cs@.subrange(start as int, end as int));
    let slash = find_char(&cs, start, end, '/');
    if slash == start || slash >= end - 1 {
        return unparsable_url(u.as_str());
    }
    let ghost q = cs@.subrange(start as int, end as int);
    assert(q.subrange(slash - start + 1, q.len() as int) =~= cs@.subrange(slash + 1, end as int));
    if find_char(&cs, slash + 1, end, '/') != end {
        return unparsable_url(u.as_str());
    }
    Ok(String::from_str(u.as_str().substring_char(start, end)))
}

/// The URL to clone from: with an access token, a `https://github.com/` URL
/// carries it as `https://<token>@github.com/...`; any other URL is used as it is.
pub open spec fn clone_url_text(url: Seq<char>, token: Option<Seq<char>>) -> Seq<char> {
    match token {
        Some(t) => if starts_with(url, "https://github.com/"@) {
            "https://"@ + t + "@github.com/"@ + after(url, "https://github.com/"@)
        } else {
            url
        },
        None => url,
    }
}

pub fn authenticated_clone_url(url: &str, token: Option<&str>) -> (r: String)
    ensures
        r@ == clone_url_text(url@, match token {
            Some(t) => Some(t@),
            None => None,
        }),
{
    match token {
        None => String::from_str(url),
        Some(t) => {
            let cs = chars_of(url);
            let n = cs.len();
            assert(cs@.subrange(0, n as int) =~= cs@);
            let key = chars_of("https://github.com/");
            if has_prefix(&cs, 0, n, &key) {
                let mut r = String::from_str("https://");
                r.append(t);
                r.append("@github.com/");
                r.append(url.substring_char(key.len(), n));
                r
            } else {
                String::from_str(url)
            }
        },
    }
}

/// An identifier in the shape of a UUID.
pub struct Uuid;

/// Lower-case hexadecimal digit of `d`.
pub open spec fn hex_char(d: nat) -> char {
    if d < 10 {
        ((48 + d) as u8) as char
    } else {
        ((87 + d) as u8) as char
    }
}

/// The last `k` hexadecimal digits of `v`, most significant first, padded with zeros.
pub open spec fn hex_digits(v: nat, k: nat) -> Seq<char>
    decreases k,
{
    if k == 0 {
        Seq::empty()
    } else {
        hex_digits(v / 16, (k - 1) as nat).push(hex_char(v % 16))
    }
}

fn hex_digit_text(d: u64) -> (r: String)
    requires
        d < 16,
    ensures
        r@ == seq![hex_char(d as nat)],
{
    proof {
        reveal_strlit("0123456789abcdef");
    }
    let s = "0123456789abcdef";
    assert(s@[d as int] == hex_char(d as nat));
    String::from_str(s.substring_char(d as usize, d as usize + 1))
}

fn hex_text(v: u64, k: u64) -> (r: String)
    ensures
        r@ == hex_digits(v as nat, k as nat),
    decreases k,
{
    if k == 0 {
        String::new()
    } else {
        let mut r = hex_text(v / 16, k - 1);
        let d = hex_digit_text(v % 16);
        r.append(d.as_str());
        r
    }
}

impl Uuid {
    /// The identifier made from a clock reading and a process number: the
    /// sixteen lower-case hexadecimal digits of their exclusive or.
    pub fn from_parts(nanos: u64, pid: u64) -> (r: UuidResult)
        ensures
            r.0@ == hex_digits((nanos ^ pid) as nat, 16),
    {
        UuidResult(hex_text(nanos ^ pid, 16))
    }
}

/// The text of an identifier made by `Uuid`.
pub struct UuidResult(pub String);

impl UuidResult {
    pub fn to_string(&self) -> (r: String)
        ensures
            r == self.0,
    {
        self.0.clone()
    }
}

} // verus!
