use crate::text::{after, chars_of, has_prefix, starts_with, trim, trim_bounds};
use vstd::prelude::*;

verus! {

/// `base` joined with `part` as a path is joined: an absolute `part` replaces
/// `base`, otherwise one separator stands between them.
pub open spec fn join_path(base: Seq<char>, part: Seq<char>) -> Seq<char> {
    if part.len() > 0 && part[0] == '/' {
        part
    } else if base.len() == 0 {
        part
    } else if base.last() == '/' {
        base + part
    } else {
        base + seq!['/'] + part
    }
}

pub fn join(base: &str, part: &str) -> (r: String)
    ensures
        r@ == join_path(base@, part@),
{
    let pl = part.unicode_len();
    let bl = base.unicode_len();
    if pl > 0 && part.get_char(0) == '/' {
        String::from_str(part)
    } else if bl == 0 {
        String::from_str(part)
    } else if base.get_char(bl - 1) == '/' {
        let mut r = String::from_str(base);
        r.append(part);
        r
    } else {
        let mut r = String::from_str(base);
        proof {
            reveal_strlit("/");
        }
        r.append("/");
        r.append(part);
        r
    }
}

/// The path that a `.git` file's text points to: its trimmed text must start
/// with `gitdir:`, and what follows, trimmed, is the path.
pub open spec fn gitdir_pointer_text(contents: Seq<char>) -> Option<Seq<char>> {
    if starts_with(trim(contents), "gitdir:"@) {
        Some(trim(after(trim(contents), "gitdir:"@)))
    } else {
        None
    }
}

pub fn gitdir_pointer(contents: &str) -> (r: Option<String>)
    ensures
        match r {
            Some(p) => gitdir_pointer_text(contents@) == Some(p@),
            None => gitdir_pointer_text(contents@) is None,
        },
{
    let cs = chars_of(contents);
    let key = chars_of("gitdir:");
    let (a, b) = trim_bounds(&cs, 0, cs.len());
    assert(cs@.subrange(0, cs@.len() as int) =~= contents@);
    if !has_prefix(&cs, a, b, &key) {
        return None;
    }
    let x = a + key.len();
    assert(after(cs@.subrange(a as int, b as int), "gitdir:"@) =~= cs@.subrange(x as int, b as int));
    let (p, q) = trim_bounds(&cs, x, b);
    Some(String::from_str(contents.substring_char(p, q)))
}

/// Where the pointer `raw` of the worktree at `worktree_path` leads: an
/// absolute pointer as it is, a relative one below the worktree.
pub open spec fn resolve_gitdir_text(worktree_path: Seq<char>, raw: Seq<char>) -> Seq<char> {
    join_path(worktree_path, raw)
}

/// `x` without separators at either end.
pub open spec fn trim_separators(x: Seq<char>) -> Seq<char>
    decreases x.len(),
{
    if x.len() > 0 && x[0] == '/' {
        trim_separators(x.drop_first())
    } else if x.len() > 0 && x.last() == '/' {
        trim_separators(x.drop_last())
    } else {
        x
    }
}

/// The file a diff is asked for: a path that already starts with the
/// repository's text is taken as it is, anything else below the repository.
pub open spec fn full_file_path_text(repo: Seq<char>, file: Seq<char>) -> Seq<char> {
    if starts_with(file, repo) {
        file
    } else {
        join_path(repo, file)
    }
}

/// The file's path relative to the repository: what follows the repository's
/// path at a separator, without separators at its ends; the file as given
/// when its path does not continue the repository's at a separator.
pub open spec fn relative_file_text(repo: Seq<char>, file: Seq<char>) -> Seq<char> {
    let full = full_file_path_text(repo, file);
    let n = repo.len() as int;
    if n > 0 && starts_with(full, repo) && (full.len() == n || repo.last() == '/' || full[n] == '/') {
        trim_separators(after(full, repo))
    } else {
        file
    }
}

fn trimmed_separators(cs: &Vec<char>, a: usize, b: usize) -> (r: (usize, usize))
    requires
        a <= b <= cs@.len(),
    ensures
        a <= r.0 <= r.1 <= b,
        cs@.subrange(r.0 as int, r.1 as int) == trim_separators(cs@.subrange(a as int, b as int)),
{
    let mut x = a;
    let mut y = b;
    while x < y && (cs[x] == '/' || cs[y - 1] == '/')
        invariant
            a <= x <= y <= b <= cs@.len(),
            trim_separators(cs@.subrange(a as int, b as int)) == trim_separators(
                cs@.subrange(x as int, y as int),
            ),
        decreases y - x,
    {
        if cs[x] == '/' {
            assert(cs@.subrange(x as int, y as int).drop_first() =~= cs@.subrange(x + 1, y as int));
            x = x + 1;
        } else {
            assert(cs@.subrange(x as int, y as int).drop_last() =~= cs@.subrange(x as int, y - 1));
            y = y - 1;
        }
    }
    (x, y)
}

/// The full path and the repository-relative path of a file a diff is asked for.
pub fn file_paths_for_diff(repo: &str, file: &str) -> (r: (String, String))
    ensures
        r.0@ == full_file_path_text(repo@, file@),
        r.1@ == relative_file_text(repo@, file@),
{
    let rc = chars_of(repo);
    let fc = chars_of(file);
    assert(fc@.subrange(0, fc@.len() as int) =~= fc@);
    let full = if has_prefix(&fc, 0, fc.len(), &rc) {
        String::from_str(file)
    } else {
        join(repo, file)
    };
    let cs = chars_of(full.as_str());
    let n = rc.len();
    let m = cs.len();
    assert(cs@.subrange(0, m as int) =~= cs@);
    if n > 0 && has_prefix(&cs, 0, m, &rc) && (m == n || rc[n - 1] == '/' || cs[n] == '/') {
        let (x, y) = trimmed_separators(&cs, n, m);
        assert(after(cs@, rc@) =~= cs@.subrange(n as int, m as int));
        let rel = String::from_str(full.as_str().substring_char(x, y));
        (full, rel)
    } else {
        (full, String::from_str(file))
    }
}

/// The worktree of workspace `workspace_id`: `<repo_root>/worktrees/<workspace_id>`.
pub open spec fn worktree_path_text(repo_root: Seq<char>, workspace_id: Seq<char>) -> Seq<char> {
    join_path(join_path(repo_root, "worktrees"@), workspace_id)
}

pub fn worktree_path_for(repo_root: &str, workspace_id: &str) -> (r: String)
    ensures
        r@ == worktree_path_text(repo_root@, workspace_id@),
{
    let dir = join(repo_root, "worktrees");
    join(dir.as_str(), workspace_id)
}

/// The branch of workspace `workspace_id`: `workspace/<workspace_id>`.
pub open spec fn workspace_branch_text(workspace_id: Seq<char>) -> Seq<char> {
    "workspace/"@ + workspace_id
}

pub fn workspace_branch_name(workspace_id: &str) -> (r: String)
    ensures
        r@ == workspace_branch_text(workspace_id@),
{
    let mut r = String::from_str("workspace/");
    r.append(workspace_id);
    r
}

} // verus!
