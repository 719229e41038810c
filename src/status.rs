use crate::text::{bounds_of, chars_of, line_bounds, lines, trim, trimmed};
use vstd::prelude::*;

verus! {

/// The state of a working copy: its branch, how far it is ahead of and
/// behind its upstream, and its changed files by kind.
#[derive(Debug, Clone)]
pub struct GitStatus {
    pub branch: String,
    pub ahead: u32,
    pub behind: u32,
    pub staged: Vec<String>,
    pub modified: Vec<String>,
    pub untracked: Vec<String>,
}

/// Kind of change a `git status --porcelain` record reports.
#[derive(Debug, Clone, Copy, PartialEq, Eq, Structural)]
pub enum ChangeKind {
    Staged,
    Modified,
    Untracked,
}

/// The kind of a record: `??` is untracked; ` M` and ` D` are modified; an
/// index code of M, A, D or R is staged; anything else, and any record
/// shorter than three characters, counts as none.
pub open spec fn change_kind(line: Seq<char>) -> Option<ChangeKind> {
    if line.len() < 3 {
        None
    } else if line[0] == '?' && line[1] == '?' {
        Some(ChangeKind::Untracked)
    } else if line[0] == ' ' && (line[1] == 'M' || line[1] == 'D') {
        Some(ChangeKind::Modified)
    } else if line[0] == 'M' || line[0] == 'A' || line[0] == 'D' || line[0] == 'R' {
        Some(ChangeKind::Staged)
    } else {
        None
    }
}

/// The paths of the records of kind `kind`, in order: each record's text
/// after its two-letter code and the space.
pub open spec fn files_of_kind(ls: Seq<Seq<char>>, kind: ChangeKind) -> Seq<Seq<char>>
    decreases ls.len(),
{
    if ls.len() == 0 {
        Seq::empty()
    } else {
        let rest = files_of_kind(ls.drop_last(), kind);
        if change_kind(ls.last()) == Some(kind) {
            rest.push(ls.last().subrange(3, ls.last().len() as int))
        } else {
            rest
        }
    }
}

pub open spec fn texts(v: Seq<String>) -> Seq<Seq<char>> {
    v.map_values(|s: String| s@)
}

fn kind_at(cs: &Vec<char>, a: usize, b: usize) -> (r: Option<ChangeKind>)
    requires
        a <= b <= cs@.len(),
    ensures
        r == change_kind(cs@.subrange(a as int, b as int)),
{
    if b - a < 3 {
        return None;
    }
    let x = cs[a];
    let y = cs[a + 1];
    assert(cs@.subrange(a as int, b as int)[0] == x);
    assert(cs@.subrange(a as int, b as int)[1] == y);
    if x == '?' && y == '?' {
        Some(ChangeKind::Untracked)
    } else if x == ' ' && (y == 'M' || y == 'D') {
        Some(ChangeKind::Modified)
    } else if x == 'M' || x == 'A' || x == 'D' || x == 'R' {
        Some(ChangeKind::Staged)
    } else {
        None
    }
}

/// Sorts the records of `git status --porcelain` output into staged, modified
/// and untracked paths.
pub fn classify_status(output: &str) -> (r: (Vec<String>, Vec<String>, Vec<String>))
    ensures
        texts(r.0@) == files_of_kind(lines(output@), ChangeKind::Staged),
        texts(r.1@) == files_of_kind(lines(output@), ChangeKind::Modified),
        texts(r.2@) == files_of_kind(lines(output@), ChangeKind::Untracked),
{
    let cs = chars_of(output);
    let bounds = line_bounds(&cs);
    let ghost ls = lines(output@);
    let mut staged: Vec<String> = Vec::new();
    let mut modified: Vec<String> = Vec::new();
    let mut untracked: Vec<String> = Vec::new();
    let mut k: usize = 0;
    assert(ls.subrange(0, 0) =~= Seq::<Seq<char>>::empty());
    assert(texts(staged@) =~= Seq::<Seq<char>>::empty());
    assert(texts(modified@) =~= Seq::<Seq<char>>::empty());
    assert(texts(untracked@) =~= Seq::<Seq<char>>::empty());
    while k < bounds.len()
        invariant
            cs@ == output@,
            ls == lines(output@),
            bounds_of(cs@, bounds@, ls),
            0 <= k <= bounds@.len(),
            texts(staged@) == files_of_kind(ls.subrange(0, k as int), ChangeKind::Staged),
            texts(modified@) == files_of_kind(ls.subrange(0, k as int), ChangeKind::Modified),
            texts(untracked@) == files_of_kind(ls.subrange(0, k as int), ChangeKind::Untracked),
        decreases bounds@.len() - k,
    {
        let (a, b) = bounds[k];
        assert(bounds@[k as int].0 <= bounds@[k as int].1 <= cs@.len());
        let ghost line = ls[k as int];
        assert(cs@.subrange(a as int, b as int) == line);
        assert(ls.subrange(0, k + 1).drop_last() =~= ls.subrange(0, k as int));
        assert(ls.subrange(0, k + 1).last() == line);
        let kind = kind_at(&cs, a, b);
        match kind {
            Some(kd) => {
                let path = String::from_str(output.substring_char(a + 3, b));
                assert(path@ =~= line.subrange(3, line.len() as int));
                let ghost before = (staged@, modified@, untracked@);
                match kd {
                    ChangeKind::Staged => {
                        staged.push(path);
                        assert(texts(staged@) =~= texts(before.0).push(path@));
                    },
                    ChangeKind::Modified => {
                        modified.push(path);
                        assert(texts(modified@) =~= texts(before.1).push(path@));
                    },
                    ChangeKind::Untracked => {
                        untracked.push(path);
                        assert(texts(untracked@) =~= texts(before.2).push(path@));
                    },
                }
            },
            None => {},
        }
        k = k + 1;
    }
    assert(ls.subrange(0, k as int) =~= ls);
    (staged, modified, untracked)
}

/// The status of a working copy from `git branch --show-current` output,
/// `git status --porcelain` output, and the ahead and behind counts.
pub fn build_git_status(branch_output: &str, status_output: &str, ahead: u32, behind: u32) -> (r:
    GitStatus)
    ensures
        r.branch@ == trim(branch_output@),
        r.ahead == ahead,
        r.behind == behind,
        texts(r.staged@) == files_of_kind(lines(status_output@), ChangeKind::Staged),
        texts(r.modified@) == files_of_kind(lines(status_output@), ChangeKind::Modified),
        texts(r.untracked@) == files_of_kind(lines(status_output@), ChangeKind::Untracked),
{
    let (staged, modified, untracked) = classify_status(status_output);
    GitStatus { branch: trimmed(branch_output), ahead, behind, staged, modified, untracked }
}

} // verus!
