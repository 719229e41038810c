use crate::porcelain::opt_view;
use crate::records::WorktreeInfo;
use crate::text::{after, bounds_of, chars_of, equals_at, has_prefix, line_bounds, lines, starts_with};
use vstd::prelude::*;

verus! {

/// A worktree record as plain text values, in the shape `git_list_worktrees` reports.
pub struct WorktreeInfoModel {
    pub path: Seq<char>,
    pub head: Seq<char>,
    pub branch: Option<Seq<char>>,
    pub is_bare: bool,
    pub is_detached: bool,
    pub is_locked: bool,
    pub is_prunable: bool,
}

impl View for WorktreeInfo {
    type V = WorktreeInfoModel;

    open spec fn view(&self) -> WorktreeInfoModel {
        WorktreeInfoModel {
            path: self.path@,
            head: self.head@,
            branch: opt_view(self.branch),
            is_bare: self.is_bare,
            is_detached: self.is_detached,
            is_locked: self.is_locked,
            is_prunable: self.is_prunable,
        }
    }
}

pub open spec fn info_views(v: Seq<WorktreeInfo>) -> Seq<WorktreeInfoModel> {
    v.map_values(|w: WorktreeInfo| w@)
}

/// What a line inside a record changes: the branch is kept as the full ref;
/// `locked` and `prunable` count with or without trailing text.
pub open spec fn apply_info_line(w: WorktreeInfoModel, line: Seq<char>) -> WorktreeInfoModel {
    if starts_with(line, "HEAD "@) {
        WorktreeInfoModel { head: after(line, "HEAD "@), ..w }
    } else if starts_with(line, "branch "@) {
        WorktreeInfoModel { branch: Some(after(line, "branch "@)), ..w }
    } else if line == "bare"@ {
        WorktreeInfoModel { is_bare: true, ..w }
    } else if line == "detached"@ {
        WorktreeInfoModel { is_detached: true, ..w }
    } else if starts_with(line, "locked"@) {
        WorktreeInfoModel { is_locked: true, ..w }
    } else if starts_with(line, "prunable"@) {
        WorktreeInfoModel { is_prunable: true, ..w }
    } else {
        w
    }
}

pub open spec fn info_state(ls: Seq<Seq<char>>) -> (Seq<WorktreeInfoModel>, Option<WorktreeInfoModel>)
    decreases ls.len(),
{
    if ls.len() == 0 {
        (Seq::empty(), None)
    } else {
        let (done, cur) = info_state(ls.drop_last());
        let line = ls.last();
        if starts_with(line, "worktree "@) {
            (
                match cur {
                    Some(w) => done.push(w),
                    None => done,
                },
                Some(
                    WorktreeInfoModel {
                        path: after(line, "worktree "@),
                        head: Seq::empty(),
                        branch: None,
                        is_bare: false,
                        is_detached: false,
                        is_locked: false,
                        is_prunable: false,
                    },
                ),
            )
        } else {
            (
                done,
                match cur {
                    Some(w) => Some(apply_info_line(w, line)),
                    None => None,
                },
            )
        }
    }
}

/// The records of a porcelain listing in the shape `git_list_worktrees` reports.
pub open spec fn info_records(ls: Seq<Seq<char>>) -> Seq<WorktreeInfoModel> {
    let (done, cur) = info_state(ls);
    match cur {
        Some(w) => done.push(w),
        None => done,
    }
}

pub open spec fn opt_info_view(o: Option<WorktreeInfo>) -> Option<WorktreeInfoModel> {
    match o {
        Some(w) => Some(w@),
        None => None,
    }
}

fn text_between(s: &str, a: usize, b: usize) -> (r: String)
    requires
        a <= b <= s@.len(),
    ensures
        r@ == s@.subrange(a as int, b as int),
{
    String::from_str(s.substring_char(a, b))
}

/// Parses `git worktree list --porcelain` output into the records that
/// `git_list_worktrees` reports.
pub fn parse_worktree_info_list(output: &str) -> (r: Vec<WorktreeInfo>)
    ensures
        info_views(r@) == info_records(lines(output@)),
{
    let cs = chars_of(output);
    let bounds = line_bounds(&cs);
    let ghost ls = lines(output@);
    let k_worktree = chars_of("worktree ");
    let k_head = chars_of("HEAD ");
    let k_branch = chars_of("branch ");
    let k_bare = chars_of("bare");
    let k_detached = chars_of("detached");
    let k_locked = chars_of("locked");
    let k_prunable = chars_of("prunable");
    let mut done: Vec<WorktreeInfo> = Vec::new();
    let mut cur: Option<WorktreeInfo> = None;
    let mut k: usize = 0;
    assert(ls.subrange(0, 0) =~= Seq::<Seq<char>>::empty());
    assert(info_views(done@) =~= Seq::<WorktreeInfoModel>::empty());
    while k < bounds.len()
        invariant
            cs@ == output@,
            ls == lines(output@),
            bounds_of(cs@, bounds@, ls),
            0 <= k <= bounds@.len(),
            k_worktree@ == "worktree "@,
            k_head@ == "HEAD "@,
            k_branch@ == "branch "@,
            k_bare@ == "bare"@,
            k_detached@ == "detached"@,
            k_locked@ == "locked"@,
            k_prunable@ == "prunable"@,
            info_state(ls.subrange(0, k as int)) == (info_views(done@), opt_info_view(cur)),
        decreases bounds@.len() - k,
    {
        let (a, b) = bounds[k];
        assert(bounds@[k as int].0 <= bounds@[k as int].1 <= cs@.len());
        let ghost line = ls[k as int];
        assert(cs@.subrange(a as int, b as int) == line);
        assert(ls.subrange(0, k + 1).drop_last() =~= ls.subrange(0, k as int));
        assert(ls.subrange(0, k + 1).last() == line);
        if has_prefix(&cs, a, b, &k_worktree) {
            let ghost before = done@;
            match cur {
                Some(w) => {
                    done.push(w);
                    assert(info_views(done@) =~= info_views(before).push(w@));
                },
                None => {},
            }
            let x = a + k_worktree.len();
            assert(after(line, "worktree "@) =~= cs@.subrange(x as int, b as int));
            cur = Some(
                WorktreeInfo {
                    path: text_between(output, x, b),
                    head: String::new(),
                    branch: None,
                    is_bare: false,
                    is_detached: false,
                    is_locked: false,
                    is_prunable: false,
                },
            );
        } else {
            cur = match cur {
                None => None,
                Some(w) => {
                    let mut w = w;
                    if has_prefix(&cs, a, b, &k_head) {
                        let x = a + k_head.len();
                        assert(after(line, "HEAD "@) =~= cs@.subrange(x as int, b as int));
                        w.head = text_between(output, x, b);
                    } else if has_prefix(&cs, a, b, &k_branch) {
                        let x = a + k_branch.len();
                        assert(after(line, "branch "@) =~= cs@.subrange(x as int, b as int));
                        w.branch = Some(text_between(output, x, b));
                    } else if equals_at(&cs, a, b, &k_bare) {
                        w.is_bare = true;
                    } else if equals_at(&cs, a, b, &k_detached) {
                        w.is_detached = true;
                    } else if has_prefix(&cs, a, b, &k_locked) {
                        w.is_locked = true;
                    } else if has_prefix(&cs, a, b, &k_prunable) {
                        w.is_prunable = true;
                    }
                    Some(w)
                },
            };
        }
        k = k + 1;
    }
    assert(ls.subrange(0, k as int) =~= ls);
    let ghost before = done@;
    match cur {
        Some(w) => {
            done.push(w);
            assert(info_views(done@) =~= info_views(before).push(w@));
        },
        None => {},
    }
    done
}

} // verus!
