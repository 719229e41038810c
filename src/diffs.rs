use crate::gitops::{first_tab, lemma_first_tab, parse_u32_at, u32_text_value};
use crate::records::FileChange;
use crate::text::{bounds_of, chars_of, line_bounds, lines};
use vstd::prelude::*;

verus! {

/// Label of a `git status --porcelain` record for the diff view: `??` is
/// untracked, an index `A` added, a `D` on either side deleted, an index `R`
/// renamed, anything else modified.
pub open spec fn change_label_text(x: char, y: char) -> Seq<char> {
    if x == '?' && y == '?' {
        "untracked"@
    } else if x == 'A' {
        "added"@
    } else if x == 'D' || y == 'D' {
        "deleted"@
    } else if x == 'R' {
        "renamed"@
    } else {
        "modified"@
    }
}

pub fn change_label(x: char, y: char) -> (r: String)
    ensures
        r@ == change_label_text(x, y),
{
    if x == '?' && y == '?' {
        String::from_str("untracked")
    } else if x == 'A' {
        String::from_str("added")
    } else if x == 'D' || y == 'D' {
        String::from_str("deleted")
    } else if x == 'R' {
        String::from_str("renamed")
    } else {
        String::from_str("modified")
    }
}

/// Path and label of each record of at least three characters, in order.
pub open spec fn labelled_paths(ls: Seq<Seq<char>>) -> Seq<(Seq<char>, Seq<char>)>
    decreases ls.len(),
{
    if ls.len() == 0 {
        Seq::empty()
    } else {
        let rest = labelled_paths(ls.drop_last());
        let l = ls.last();
        if l.len() < 3 {
            rest
        } else {
            rest.push((l.subrange(3, l.len() as int), change_label_text(l[0], l[1])))
        }
    }
}

pub open spec fn pair_views(v: Seq<(String, String)>) -> Seq<(Seq<char>, Seq<char>)> {
    v.map_values(|p: (String, String)| (p.0@, p.1@))
}

/// Every record of `git status --porcelain` output with its label.
pub fn status_labels(output: &str) -> (r: Vec<(String, String)>)
    ensures
        pair_views(r@) == labelled_paths(lines(output@)),
{
    let cs = chars_of(output);
    let bounds = line_bounds(&cs);
    let ghost ls = lines(output@);
    let mut r: Vec<(String, String)> = Vec::new();
    let mut k: usize = 0;
    assert(ls.subrange(0, 0) =~= Seq::<Seq<char>>::empty());
    assert(pair_views(r@) =~= Seq::<(Seq<char>, Seq<char>)>::empty());
    while k < bounds.len()
        invariant
            cs@ == output@,
            ls == lines(output@),
            bounds_of(cs@, bounds@, ls),
            0 <= k <= bounds@.len(),
            pair_views(r@) == labelled_paths(ls.subrange(0, k as int)),
        decreases bounds@.len() - k,
    {
        let (a, b) = bounds[k];
        assert(bounds@[k as int].0 <= bounds@[k as int].1 <= cs@.len());
        let ghost line = ls[k as int];
        assert(cs@.subrange(a as int, b as int) == line);
        assert(ls.subrange(0, k + 1).drop_last() =~= ls.subrange(0, k as int));
        assert(ls.subrange(0, k + 1).last() == line);
        if b - a >= 3 {
            assert(line[0] == cs@[a as int] && line[1] == cs@[a + 1]);
            let label = change_label(cs[a], cs[a + 1]);
            let path = String::from_str(output.substring_char(a + 3, b));
            assert(path@ =~= line.subrange(3, line.len() as int));
            let ghost before = r@;
            r.push((path, label));
            assert(pair_views(r@) =~= pair_views(before).push((path@, label@)));
        }
        k = k + 1;
    }
    assert(ls.subrange(0, k as int) =~= ls);
    r
}

pub open spec fn u32_or_zero(s: Seq<char>) -> u32 {
    match u32_text_value(s) {
        Some(v) => v,
        None => 0,
    }
}

/// The first three tab-separated fields of a `git diff --numstat` line, when
/// it has at least three: additions and deletions (0 when unreadable) and
/// the path.
pub open spec fn numstat_fields(line: Seq<char>) -> Option<(u32, u32, Seq<char>)> {
    let t1 = first_tab(line);
    let r1 = line.subrange(t1 + 1, line.len() as int);
    let t2 = first_tab(r1);
    let r2 = r1.subrange(t2 + 1, r1.len() as int);
    if t1 < line.len() && t2 < r1.len() {
        Some((u32_or_zero(line.subrange(0, t1)), u32_or_zero(r1.subrange(0, t2)), r2.subrange(0, first_tab(r2))))
    } else {
        None
    }
}

/// Index of the first tab in `cs[a..b]`, counted from `a`.
fn tab_in(cs: &Vec<char>, a: usize, b: usize) -> (r: usize)
    requires
        a <= b <= cs@.len(),
    ensures
        a <= r <= b,
        r - a == first_tab(cs@.subrange(a as int, b as int)),
{
    let mut k = a;
    while k < b && cs[k] != '\t'
        invariant
            a <= k <= b <= cs@.len(),
            forall|i: int| a <= i < k ==> cs@[i] != '\t',
        decreases b - k,
    {
        k = k + 1;
    }
    proof {
        let t = cs@.subrange(a as int, b as int);
        assert forall|i: int| 0 <= i < k - a implies t[i] != '\t' by {
            assert(t[i] == cs@[a + i]);
        }
        if k < b {
            assert(t[k - a] == cs@[k as int]);
        }
        lemma_first_tab(t, k - a);
    }
    k
}

/// Reads the numstat line `s[a..b]`.
fn numstat_at(s: &str, cs: &Vec<char>, a: usize, b: usize) -> (r: Option<(u32, u32, String)>)
    requires
        cs@ == s@,
        a <= b <= cs@.len(),
    ensures
        match r {
            Some((x, y, p)) => numstat_fields(cs@.subrange(a as int, b as int)) == Some(
                (x, y, p@),
            ),
            None => numstat_fields(cs@.subrange(a as int, b as int)) is None,
        },
{
    let ghost line = cs@.subrange(a as int, b as int);
    let t1 = tab_in(cs, a, b);
    if t1 == b {
        return None;
    }
    let ghost r1 = line.subrange(t1 - a + 1, line.len() as int);
    assert(r1 =~= cs@.subrange(t1 + 1, b as int));
    let t2 = tab_in(cs, t1 + 1, b);
    if t2 == b {
        return None;
    }
    let ghost r2 = r1.subrange(t2 - t1, r1.len() as int);
    assert(r2 =~= cs@.subrange(t2 + 1, b as int));
    let t3 = tab_in(cs, t2 + 1, b);
    assert(line.subrange(0, t1 - a) =~= cs@.subrange(a as int, t1 as int));
    assert(r1.subrange(0, t2 - t1 - 1) =~= cs@.subrange(t1 + 1, t2 as int));
    assert(r2.subrange(0, t3 - t2 - 1) =~= cs@.subrange(t2 + 1, t3 as int));
    let additions = match parse_u32_at(cs, a, t1) {
        Some(v) => v,
        None => 0,
    };
    let deletions = match parse_u32_at(cs, t1 + 1, t2) {
        Some(v) => v,
        None => 0,
    };
    Some((additions, deletions, String::from_str(s.substring_char(t2 + 1, t3))))
}

/// The label of the last record for `path`, if any: a later record for a
/// path overrides an earlier one.
pub open spec fn label_for(st: Seq<(Seq<char>, Seq<char>)>, path: Seq<char>) -> Option<Seq<char>>
    decreases st.len(),
{
    if st.len() == 0 {
        None
    } else if st.last().0 == path {
        Some(st.last().1)
    } else {
        label_for(st.drop_last(), path)
    }
}

/// The records for other paths than `path`.
pub open spec fn without_path(st: Seq<(Seq<char>, Seq<char>)>, path: Seq<char>) -> Seq<
    (Seq<char>, Seq<char>),
> {
    st.filter(|e: (Seq<char>, Seq<char>)| e.0 != path)
}

/// Changes found so far, and the status records not yet matched, after the
/// numstat lines `ls`: each numstat line becomes a change labelled as its
/// status record says (modified without one), and that record is used up.
pub open spec fn numstat_fold(ls: Seq<Seq<char>>, st: Seq<(Seq<char>, Seq<char>)>) -> (
    Seq<(Seq<char>, u32, u32, Seq<char>)>,
    Seq<(Seq<char>, Seq<char>)>,
)
    decreases ls.len(),
{
    if ls.len() == 0 {
        (Seq::empty(), st)
    } else {
        let (changes, left) = numstat_fold(ls.drop_last(), st);
        match numstat_fields(ls.last()) {
            None => (changes, left),
            Some((x, y, p)) => (
                changes.push(
                    (
                        p,
                        x,
                        y,
                        match label_for(left, p) {
                            Some(l) => l,
                            None => "modified"@,
                        },
                    ),
                ),
                without_path(left, p),
            ),
        }
    }
}

pub open spec fn change_views(v: Seq<FileChange>) -> Seq<(Seq<char>, u32, u32, Seq<char>)> {
    v.map_values(|c: FileChange| (c.path@, c.additions, c.deletions, c.status@))
}

/// The untracked paths among status records, in order.
pub open spec fn untracked_paths(st: Seq<(Seq<char>, Seq<char>)>) -> Seq<Seq<char>> {
    st.filter(|e: (Seq<char>, Seq<char>)| e.1 == "untracked"@).map_values(
        |e: (Seq<char>, Seq<char>)| e.0,
    )
}

proof fn lemma_without_path_push(
    s: Seq<(Seq<char>, Seq<char>)>,
    x: (Seq<char>, Seq<char>),
    path: Seq<char>,
)
    ensures
        without_path(s.push(x), path) == if x.0 != path {
            without_path(s, path).push(x)
        } else {
            without_path(s, path)
        },
{
    assert(s.push(x).drop_last() =~= s);
    reveal_with_fuel(Seq::filter, 1);
}

proof fn lemma_untracked_push(s: Seq<(Seq<char>, Seq<char>)>, x: (Seq<char>, Seq<char>))
    ensures
        untracked_paths(s.push(x)) == if x.1 == "untracked"@ {
            untracked_paths(s).push(x.0)
        } else {
            untracked_paths(s)
        },
{
    assert(s.push(x).drop_last() =~= s);
    reveal_with_fuel(Seq::filter, 1);
    let fs = s.filter(|e: (Seq<char>, Seq<char>)| e.1 == "untracked"@);
    assert(fs.push(x).map_values(|e: (Seq<char>, Seq<char>)| e.0) =~= fs.map_values(
        |e: (Seq<char>, Seq<char>)| e.0,
    ).push(x.0));
}

fn label_lookup(st: &Vec<(String, String)>, path: &String) -> (r: Option<String>)
    ensures
        match r {
            Some(l) => label_for(pair_views(st@), path@) == Some(l@),
            None => label_for(pair_views(st@), path@) is None,
        },
{
    let mut i: usize = st.len();
    assert(pair_views(st@).subrange(0, st@.len() as int) =~= pair_views(st@));
    while i > 0
        invariant
            0 <= i <= st@.len(),
            label_for(pair_views(st@), path@) == label_for(
                pair_views(st@).subrange(0, i as int),
                path@,
            ),
        decreases i,
    {
        let ghost head = pair_views(st@).subrange(0, i as int);
        assert(head.last() == (st@[i - 1].0@, st@[i - 1].1@));
        if st[i - 1].0 == *path {
            return Some(st[i - 1].1.clone());
        }
        assert(head.drop_last() =~= pair_views(st@).subrange(0, i - 1));
        i = i - 1;
    }
    None
}

fn remove_path(st: Vec<(String, String)>, path: &String) -> (r: Vec<(String, String)>)
    ensures
        pair_views(r@) == without_path(pair_views(st@), path@),
{
    let mut r: Vec<(String, String)> = Vec::new();
    let mut st = st;
    let ghost orig = pair_views(st@);
    let mut i: usize = 0;
    let n = st.len();
    assert(orig.subrange(0, 0) =~= Seq::<(Seq<char>, Seq<char>)>::empty());
    assert(pair_views(r@) =~= Seq::<(Seq<char>, Seq<char>)>::empty());
    while i < n
        invariant
            n == st@.len(),
            orig == pair_views(st@),
            0 <= i <= n,
            pair_views(r@) == without_path(orig.subrange(0, i as int), path@),
        decreases n - i,
    {
        let e = (st[i].0.clone(), st[i].1.clone());
        let ghost before = r@;
        assert(orig.subrange(0, i + 1) =~= orig.subrange(0, i as int).push((e.0@, e.1@)));
        proof {
            lemma_without_path_push(orig.subrange(0, i as int), (e.0@, e.1@), path@);
        }
        let keep = !(e.0 == *path);

        if keep {
            r.push(e);
            assert(pair_views(r@) =~= pair_views(before).push((e.0@, e.1@)));
        }
        i = i + 1;
    }
    assert(orig.subrange(0, n as int) =~= orig);
    r
}

/// Per-file line counts from `git status --porcelain` and `git diff --numstat
/// HEAD` output, and the untracked paths that numstat did not cover, whose
/// line counts the caller adds.
pub fn diff_stats(status_output: &str, numstat_output: &str) -> (r: (Vec<FileChange>, Vec<String>))
    ensures
        ({
            let (changes, left) = numstat_fold(
                lines(numstat_output@),
                labelled_paths(lines(status_output@)),
            );
            &&& change_views(r.0@) == changes
            &&& r.1@.map_values(|p: String| p@) == untracked_paths(left)
        }),
{
    let mut left = status_labels(status_output);
    let cs = chars_of(numstat_output);
    let bounds = line_bounds(&cs);
    let ghost ls = lines(numstat_output@);
    let ghost st0 = labelled_paths(lines(status_output@));
    let mut changes: Vec<FileChange> = Vec::new();
    let mut k: usize = 0;
    assert(ls.subrange(0, 0) =~= Seq::<Seq<char>>::empty());
    assert(change_views(changes@) =~= Seq::<(Seq<char>, u32, u32, Seq<char>)>::empty());
    while k < bounds.len()
        invariant
            cs@ == numstat_output@,
            ls == lines(numstat_output@),
            bounds_of(cs@, bounds@, ls),
            0 <= k <= bounds@.len(),
            numstat_fold(ls.subrange(0, k as int), st0) == (change_views(changes@), pair_views(left@)),
        decreases bounds@.len() - k,
    {
        let (a, b) = bounds[k];
        assert(bounds@[k as int].0 <= bounds@[k as int].1 <= cs@.len());
        assert(cs@.subrange(a as int, b as int) == ls[k as int]);
        assert(ls.subrange(0, k + 1).drop_last() =~= ls.subrange(0, k as int));
        assert(ls.subrange(0, k + 1).last() == ls[k as int]);
        match numstat_at(numstat_output, &cs, a, b) {
            Some((additions, deletions, path)) => {
                let status = match label_lookup(&left, &path) {
                    Some(l) => l,
                    None => String::from_str("modified"),
                };
                left = remove_path(left, &path);
                let ghost before = changes@;
                changes.push(FileChange { path, additions, deletions, status });
                assert(change_views(changes@) =~= change_views(before).push(
                    (path@, additions, deletions, status@),
                ));
            },
            None => {},
        }
        k = k + 1;
    }
    assert(ls.subrange(0, k as int) =~= ls);
    let mut untracked: Vec<String> = Vec::new();
    let ghost lv = pair_views(left@);
    let mut i: usize = 0;
    assert(lv.subrange(0, 0) =~= Seq::<(Seq<char>, Seq<char>)>::empty());
    assert(untracked@.map_values(|p: String| p@) =~= Seq::<Seq<char>>::empty());
    assert(untracked_paths(lv.subrange(0, 0)) =~= Seq::<Seq<char>>::empty());
    while i < left.len()
        invariant
            lv == pair_views(left@),
            0 <= i <= left@.len(),
            untracked@.map_values(|p: String| p@) == untracked_paths(lv.subrange(0, i as int)),
        decreases left@.len() - i,
    {
        assert(lv.subrange(0, i + 1) =~= lv.subrange(0, i as int).push(lv[i as int]));
        assert(lv[i as int] == (left@[i as int].0@, left@[i as int].1@));
        proof {
            lemma_untracked_push(lv.subrange(0, i as int), lv[i as int]);
        }
        let ghost before = untracked@;
        let is_untracked = crate::text::same_text(left[i].1.as_str(), "untracked");
        if is_untracked {
            untracked.push(left[i].0.clone());
            assert(untracked@.map_values(|p: String| p@) =~= before.map_values(|p: String| p@).push(
                left@[i as int].0@,
            ));
        }
        i = i + 1;
    }
    assert(lv.subrange(0, i as int) =~= lv);
    (changes, untracked)
}

/// Number of lines of `text`, as `lines` splits it.
pub fn line_count(text: &str) -> (r: usize)
    ensures
        r == lines(text@).len(),
{
    let cs = chars_of(text);
    line_bounds(&cs).len()
}

} // verus!
