use crate::text::{
    after, chars_of, equals_at, has_prefix, lines, split_state, starts_with, strip_cr,
    strip_prefix_once, trim, trim_bounds, trim_start,
};
use vstd::prelude::*;

verus! {

/// One record of `git worktree list --porcelain`.
#[derive(Debug, Clone)]
pub struct ParsedWorktreeEntry {
    pub path: String,
    /// Short branch name, without `refs/heads/`.
    pub branch: Option<String>,
    pub head: String,
    pub is_locked: bool,
    pub lock_reason: Option<String>,
    pub is_prunable: bool,
}

/// A parsed record as plain text values.
pub struct WorktreeEntryModel {
    pub path: Seq<char>,
    pub branch: Option<Seq<char>>,
    pub head: Seq<char>,
    pub is_locked: bool,
    pub lock_reason: Option<Seq<char>>,
    pub is_prunable: bool,
}

pub open spec fn opt_view(o: Option<String>) -> Option<Seq<char>> {
    match o {
        Some(s) => Some(s@),
        None => None,
    }
}

impl View for ParsedWorktreeEntry {
    type V = WorktreeEntryModel;

    open spec fn view(&self) -> WorktreeEntryModel {
        WorktreeEntryModel {
            path: self.path@,
            branch: opt_view(self.branch),
            head: self.head@,
            is_locked: self.is_locked,
            lock_reason: opt_view(self.lock_reason),
            is_prunable: self.is_prunable,
        }
    }
}

pub open spec fn entries_view(v: Seq<ParsedWorktreeEntry>) -> Seq<WorktreeEntryModel> {
    v.map_values(|e: ParsedWorktreeEntry| e@)
}

/// The record that a `worktree <path>` line opens.
pub open spec fn fresh_entry(path: Seq<char>) -> WorktreeEntryModel {
    WorktreeEntryModel {
        path,
        branch: None,
        head: Seq::empty(),
        is_locked: false,
        lock_reason: None,
        is_prunable: false,
    }
}

/// What a line inside a record changes in it; unknown lines change nothing.
pub open spec fn apply_line(e: WorktreeEntryModel, line: Seq<char>) -> WorktreeEntryModel {
    if starts_with(line, "branch "@) {
        WorktreeEntryModel {
            branch: Some(strip_prefix_once(after(line, "branch "@), "refs/heads/"@)),
            ..e
        }
    } else if starts_with(line, "HEAD "@) {
        WorktreeEntryModel { head: after(line, "HEAD "@), ..e }
    } else if line == "prunable"@ || starts_with(line, "prunable "@) {
        WorktreeEntryModel { is_prunable: true, ..e }
    } else if line == "locked"@ || starts_with(line, "locked "@) {
        let reason = trim(after(line, "locked"@));
        WorktreeEntryModel {
            is_locked: true,
            lock_reason: if reason.len() > 0 {
                Some(reason)
            } else {
                e.lock_reason
            },
            ..e
        }
    } else {
        e
    }
}

/// Finished records and the record in progress, after one more line.
pub open spec fn parse_step(
    st: (Seq<WorktreeEntryModel>, Option<WorktreeEntryModel>),
    line: Seq<char>,
) -> (Seq<WorktreeEntryModel>, Option<WorktreeEntryModel>) {
    let (done, cur) = st;
    if starts_with(line, "worktree "@) {
        (
            match cur {
                Some(e) => done.push(e),
                None => done,
            },
            Some(fresh_entry(after(line, "worktree "@))),
        )
    } else {
        (
            done,
            match cur {
                Some(e) => Some(apply_line(e, line)),
                None => None,
            },
        )
    }
}

pub open spec fn parse_state(ls: Seq<Seq<char>>) -> (
    Seq<WorktreeEntryModel>,
    Option<WorktreeEntryModel>,
)
    decreases ls.len(),
{
    if ls.len() == 0 {
        (Seq::empty(), None)
    } else {
        parse_step(parse_state(ls.drop_last()), ls.last())
    }
}

/// The records of a porcelain listing given as lines.
pub open spec fn parse_lines(ls: Seq<Seq<char>>) -> Seq<WorktreeEntryModel> {
    let (done, cur) = parse_state(ls);
    match cur {
        Some(e) => done.push(e),
        None => done,
    }
}

/// Prefixes and keywords of the porcelain format, as characters.
struct Keywords {
    worktree: Vec<char>,
    branch: Vec<char>,
    refs_heads: Vec<char>,
    head: Vec<char>,
    prunable: Vec<char>,
    prunable_sp: Vec<char>,
    locked: Vec<char>,
    locked_sp: Vec<char>,
}

impl Keywords {
    spec fn wf(&self) -> bool {
        &&& self.worktree@ == "worktree "@
        &&& self.branch@ == "branch "@
        &&& self.refs_heads@ == "refs/heads/"@
        &&& self.head@ == "HEAD "@
        &&& self.prunable@ == "prunable"@
        &&& self.prunable_sp@ == "prunable "@
        &&& self.locked@ == "locked"@
        &&& self.locked_sp@ == "locked "@
    }

    fn new() -> (r: Keywords)
        ensures
            r.wf(),
    {
        Keywords {
            worktree: chars_of("worktree "),
            branch: chars_of("branch "),
            refs_heads: chars_of("refs/heads/"),
            head: chars_of("HEAD "),
            prunable: chars_of("prunable"),
            prunable_sp: chars_of("prunable "),
            locked: chars_of("locked"),
            locked_sp: chars_of("locked "),
        }
    }
}

fn text_between(s: &str, a: usize, b: usize) -> (r: String)
    requires
        a <= b <= s@.len(),
    ensures
        r@ == s@.subrange(a as int, b as int),
{
    String::from_str(s.substring_char(a, b))
}

/// Applies the line `s[a..b]` to the record in progress.
fn apply_line_exec(
    e: ParsedWorktreeEntry,
    s: &str,
    cs: &Vec<char>,
    kw: &Keywords,
    a: usize,
    b: usize,
) -> (r: ParsedWorktreeEntry)
    requires
        kw.wf(),
        cs@ == s@,
        a <= b <= cs@.len(),
    ensures
        r@ == apply_line(e@, cs@.subrange(a as int, b as int)),
{
    let ghost line = cs@.subrange(a as int, b as int);
    let mut e = e;
    if has_prefix(cs, a, b, &kw.branch) {
        let x = a + kw.branch.len();
        let ghost rest = after(line, "branch "@);
        assert(rest =~= cs@.subrange(x as int, b as int));
        let y = if has_prefix(cs, x, b, &kw.refs_heads) {
            x + kw.refs_heads.len()
        } else {
            x
        };
        assert(strip_prefix_once(rest, "refs/heads/"@) =~= cs@.subrange(y as int, b as int));
        e.branch = Some(text_between(s, y, b));
    } else if has_prefix(cs, a, b, &kw.head) {
        let x = a + kw.head.len();
        assert(after(line, "HEAD "@) =~= cs@.subrange(x as int, b as int));
        e.head = text_between(s, x, b);
    } else if equals_at(cs, a, b, &kw.prunable) || has_prefix(cs, a, b, &kw.prunable_sp) {
        e.is_prunable = true;
    } else if equals_at(cs, a, b, &kw.locked) || has_prefix(cs, a, b, &kw.locked_sp) {
        proof {
            reveal_strlit("locked");
            reveal_strlit("locked ");
            if line != "locked"@ {
                assert(line.subrange(0, 6) =~= line.subrange(0, 7).subrange(0, 6));
            }
            assert(line.subrange(0, 6) =~= "locked"@);
        }
        let x = a + kw.locked.len();
        assert(after(line, "locked"@) =~= cs@.subrange(x as int, b as int));
        let (p, q) = trim_bounds(cs, x, b);
        e.is_locked = true;
        if p < q {
            e.lock_reason = Some(text_between(s, p, q));
        }
    }
    e
}

/// Feeds the line `s[a..b]` to the parser state.
fn feed_line(
    done: &mut Vec<ParsedWorktreeEntry>,
    cur: Option<ParsedWorktreeEntry>,
    s: &str,
    cs: &Vec<char>,
    kw: &Keywords,
    a: usize,
    b: usize,
) -> (r: Option<ParsedWorktreeEntry>)
    requires
        kw.wf(),
        cs@ == s@,
        a <= b <= cs@.len(),
    ensures
        ({
            let (d, c) = parse_step(
                (entries_view(old(done)@), opt_entry_view(cur)),
                cs@.subrange(a as int, b as int),
            );
            entries_view(final(done)@) == d && opt_entry_view(r) == c
        }),
{
    if has_prefix(cs, a, b, &kw.worktree) {
        let ghost old_done = done@;
        match cur {
            Some(e) => {
                done.push(e);
                assert(entries_view(done@) =~= entries_view(old_done).push(e@));
            },
            None => {},
        }
        let x = a + kw.worktree.len();
        assert(after(cs@.subrange(a as int, b as int), "worktree "@) =~= cs@.subrange(
            x as int,
            b as int,
        ));
        Some(
            ParsedWorktreeEntry {
                path: text_between(s, x, b),
                branch: None,
                head: String::new(),
                is_locked: false,
                lock_reason: None,
                is_prunable: false,
            },
        )
    } else {
        match cur {
            Some(e) => Some(apply_line_exec(e, s, cs, kw, a, b)),
            None => None,
        }
    }
}

pub open spec fn opt_entry_view(o: Option<ParsedWorktreeEntry>) -> Option<WorktreeEntryModel> {
    match o {
        Some(e) => Some(e@),
        None => None,
    }
}

/// A record as the tool writes it, one line per attribute and a blank line
/// after it.
pub open spec fn render_entry(e: WorktreeEntryModel) -> Seq<Seq<char>> {
    seq!["worktree "@ + e.path, "HEAD "@ + e.head] + (match e.branch {
        Some(b) => seq!["branch "@ + "refs/heads/"@ + b],
        None => seq!["detached"@],
    }) + (if e.is_locked {
        match e.lock_reason {
            Some(r) => seq!["locked "@ + r],
            None => seq!["locked"@],
        }
    } else {
        Seq::empty()
    }) + (if e.is_prunable {
        seq!["prunable"@]
    } else {
        Seq::empty()
    }) + seq![Seq::<char>::empty()]
}

/// The listing of `es` as lines.
pub open spec fn render_lines(es: Seq<WorktreeEntryModel>) -> Seq<Seq<char>>
    decreases es.len(),
{
    if es.len() == 0 {
        Seq::empty()
    } else {
        render_lines(es.drop_last()) + render_entry(es.last())
    }
}

/// A record the tool can produce: a lock reason only on a locked worktree,
/// never empty and never with white space at its ends.
pub open spec fn well_formed_entry(e: WorktreeEntryModel) -> bool {
    match e.lock_reason {
        Some(r) => e.is_locked && r.len() > 0 && trim(r) == r,
        None => true,
    }
}

/// Parser state after feeding `ls`, in order, to `st`.
pub open spec fn parse_from(
    st: (Seq<WorktreeEntryModel>, Option<WorktreeEntryModel>),
    ls: Seq<Seq<char>>,
) -> (Seq<WorktreeEntryModel>, Option<WorktreeEntryModel>)
    decreases ls.len(),
{
    if ls.len() == 0 {
        st
    } else {
        parse_from(parse_step(st, ls[0]), ls.drop_first())
    }
}

proof fn lemma_parse_state_append(a: Seq<Seq<char>>, b: Seq<Seq<char>>)
    ensures
        parse_state(a + b) == parse_from(parse_state(a), b),
    decreases b.len(),
{
    if b.len() == 0 {
        assert(a + b =~= a);
    } else {
        let a2 = a.push(b[0]);
        assert(a + b =~= a2 + b.drop_first());
        assert(a2.drop_last() =~= a);
        lemma_parse_state_append(a2, b.drop_first());
    }
}

proof fn lemma_parse_from_append(
    st: (Seq<WorktreeEntryModel>, Option<WorktreeEntryModel>),
    a: Seq<Seq<char>>,
    b: Seq<Seq<char>>,
)
    ensures
        parse_from(st, a + b) == parse_from(parse_from(st, a), b),
    decreases a.len(),
{
    if a.len() == 0 {
        assert(a + b =~= b);
    } else {
        assert((a + b)[0] == a[0]);
        assert((a + b).drop_first() =~= a.drop_first() + b);
        lemma_parse_from_append(parse_step(st, a[0]), a.drop_first(), b);
    }
}

proof fn lemma_parse_from_one(
    st: (Seq<WorktreeEntryModel>, Option<WorktreeEntryModel>),
    x: Seq<char>,
)
    ensures
        parse_from(st, seq![x]) == parse_step(st, x),
{
    assert(seq![x].drop_first() =~= Seq::<Seq<char>>::empty());
    reveal_with_fuel(parse_from, 2);
}

proof fn lemma_not_prefix(l: Seq<char>, p: Seq<char>)
    requires
        l.len() > 0,
        p.len() > 0,
        l[0] != p[0],
    ensures
        !starts_with(l, p),
{
    if starts_with(l, p) {
        assert(l.subrange(0, p.len() as int)[0] == p[0]);
    }
}

proof fn lemma_after_concat(p: Seq<char>, x: Seq<char>)
    ensures
        starts_with(p + x, p),
        after(p + x, p) == x,
{
    assert((p + x).subrange(0, p.len() as int) =~= p);
    assert((p + x).subrange(p.len() as int, (p + x).len() as int) =~= x);
}

/// Feeding the lines of one well-formed record to a parser closes the record
/// in progress and leaves exactly that record open.
proof fn lemma_parse_entry(
    st: (Seq<WorktreeEntryModel>, Option<WorktreeEntryModel>),
    e: WorktreeEntryModel,
)
    requires
        well_formed_entry(e),
    ensures
        parse_from(st, render_entry(e)) == ((
            match st.1 {
                Some(c) => st.0.push(c),
                None => st.0,
            },
            Some(e),
        )),
{
    reveal_strlit("worktree ");
    reveal_strlit("HEAD ");
    reveal_strlit("branch ");
    reveal_strlit("refs/heads/");
    reveal_strlit("detached");
    reveal_strlit("locked");
    reveal_strlit("locked ");
    reveal_strlit("prunable");
    reveal_strlit("prunable ");
    let l_path = "worktree "@ + e.path;
    let l_head = "HEAD "@ + e.head;
    let p_branch = match e.branch {
        Some(b) => seq!["branch "@ + "refs/heads/"@ + b],
        None => seq!["detached"@],
    };
    let p_lock = if e.is_locked {
        match e.lock_reason {
            Some(r) => seq!["locked "@ + r],
            None => seq!["locked"@],
        }
    } else {
        Seq::<Seq<char>>::empty()
    };
    let p_prune = if e.is_prunable {
        seq!["prunable"@]
    } else {
        Seq::<Seq<char>>::empty()
    };
    let blank = seq![Seq::<char>::empty()];
    assert(render_entry(e) == seq![l_path, l_head] + p_branch + p_lock + p_prune + blank);
    assert(seq![l_path, l_head] =~= seq![l_path] + seq![l_head]);
    // the opening line
    lemma_after_concat("worktree "@, e.path);
    let s1 = parse_step(st, l_path);
    lemma_parse_from_one(st, l_path);
    let f = fresh_entry(e.path);
    assert(s1.1 == Some(f));
    // the HEAD line
    lemma_after_concat("HEAD "@, e.head);
    lemma_not_prefix(l_head, "worktree "@);
    lemma_not_prefix(l_head, "branch "@);
    let e2 = WorktreeEntryModel { head: e.head, ..f };
    assert(apply_line(f, l_head) == e2);
    lemma_parse_from_one(s1, l_head);
    let s2 = parse_step(s1, l_head);
    assert(s2 == (s1.0, Some(e2)));
    lemma_parse_from_append(st, seq![l_path], seq![l_head]);
    // the branch line
    let e3 = WorktreeEntryModel { branch: e.branch, ..e2 };
    match e.branch {
        Some(b) => {
            let l = "branch "@ + "refs/heads/"@ + b;
            assert(l =~= "branch "@ + ("refs/heads/"@ + b));
            lemma_after_concat("branch "@, "refs/heads/"@ + b);
            lemma_after_concat("refs/heads/"@, b);
            lemma_not_prefix(l, "worktree "@);
            assert(apply_line(e2, l) == e3);
            lemma_parse_from_one(s2, l);
        },
        None => {
            let l = "detached"@;
            lemma_not_prefix(l, "worktree "@);
            lemma_not_prefix(l, "branch "@);
            lemma_not_prefix(l, "HEAD "@);
            lemma_not_prefix(l, "prunable "@);
            lemma_not_prefix(l, "locked "@);
            assert(l != "prunable"@);
            assert(l != "locked"@);
            assert(apply_line(e2, l) == e3);
            lemma_parse_from_one(s2, l);
        },
    }
    let s3 = parse_from(s2, p_branch);
    assert(s3 == (s1.0, Some(e3)));
    // the lock line
    let e4 = WorktreeEntryModel { is_locked: e.is_locked, lock_reason: e.lock_reason, ..e3 };
    if e.is_locked {
        match e.lock_reason {
            Some(r) => {
                let l = "locked "@ + r;
                lemma_after_concat("locked "@, r);
                lemma_not_prefix(l, "worktree "@);
                lemma_not_prefix(l, "branch "@);
                lemma_not_prefix(l, "HEAD "@);
                lemma_not_prefix(l, "prunable "@);
                assert(l != "prunable"@);
                let rest = after(l, "locked"@);
                assert(rest =~= seq![' '] + r);
                assert(rest.drop_first() =~= r);
                assert(trim_start(rest) == trim_start(r));
                assert(apply_line(e3, l) == e4);
                lemma_parse_from_one(s3, l);
            },
            None => {
                let l = "locked"@;
                lemma_not_prefix(l, "worktree "@);
                lemma_not_prefix(l, "branch "@);
                lemma_not_prefix(l, "HEAD "@);
                lemma_not_prefix(l, "prunable "@);
                assert(l != "prunable"@);
                assert(after(l, "locked"@) =~= Seq::<char>::empty());
                assert(trim(Seq::<char>::empty()) =~= Seq::<char>::empty());
                assert(apply_line(e3, l) == e4);
                lemma_parse_from_one(s3, l);
            },
        }
    } else {
        assert(e4 == e3);
    }
    let s4 = parse_from(s3, p_lock);
    assert(s4 == (s1.0, Some(e4)));
    // the prunable line
    let e5 = WorktreeEntryModel { is_prunable: e.is_prunable, ..e4 };
    if e.is_prunable {
        let l = "prunable"@;
        lemma_not_prefix(l, "worktree "@);
        lemma_not_prefix(l, "branch "@);
        lemma_not_prefix(l, "HEAD "@);
        assert(apply_line(e4, l) == e5);
        lemma_parse_from_one(s4, l);
    }
    let s5 = parse_from(s4, p_prune);
    assert(s5 == (s1.0, Some(e5)));
    assert(e5 == e);
    // the blank line
    let l = Seq::<char>::empty();
    assert(!starts_with(l, "worktree "@));
    assert(l != "prunable"@ && l != "locked"@);
    assert(apply_line(e, l) == e);
    lemma_parse_from_one(s5, l);
    lemma_parse_from_append(st, seq![l_path, l_head], p_branch);
    lemma_parse_from_append(st, seq![l_path, l_head] + p_branch, p_lock);
    lemma_parse_from_append(st, seq![l_path, l_head] + p_branch + p_lock, p_prune);
    lemma_parse_from_append(st, seq![l_path, l_head] + p_branch + p_lock + p_prune, blank);
}

/// Writing well-formed records out as a listing and parsing it back gives
/// the same records: the parser loses nothing the tool writes, whatever the
/// ignored lines (`detached`, the blank separators) around them.
pub proof fn lemma_parse_render(es: Seq<WorktreeEntryModel>)
    requires
        forall|i: int| 0 <= i < es.len() ==> well_formed_entry(#[trigger] es[i]),
    ensures
        parse_lines(render_lines(es)) == es,
        es.len() > 0 ==> parse_state(render_lines(es)) == (es.drop_last(), Some(es.last())),
    decreases es.len(),
{
    if es.len() == 0 {
        assert(parse_lines(render_lines(es)) =~= es);
    } else {
        let prev = es.drop_last();
        assert forall|i: int| 0 <= i < prev.len() implies well_formed_entry(#[trigger] prev[i]) by {
            assert(prev[i] == es[i]);
        }
        lemma_parse_render(prev);
        lemma_parse_state_append(render_lines(prev), render_entry(es.last()));
        lemma_parse_entry(parse_state(render_lines(prev)), es.last());
        if prev.len() > 0 {
            assert(prev.drop_last().push(prev.last()) =~= prev);
        } else {
            assert(parse_state(render_lines(prev)).1 is None);
        }
        assert(es.drop_last().push(es.last()) =~= es);
    }
}

/// `x` holds neither a line feed nor a carriage return.
pub open spec fn text_safe(x: Seq<char>) -> bool {
    forall|i: int| 0 <= i < x.len() ==> #[trigger] x[i] != '\n' && x[i] != '\r'
}

/// A record whose values can be written on one line each.
pub open spec fn writable_entry(e: WorktreeEntryModel) -> bool {
    &&& well_formed_entry(e)
    &&& text_safe(e.path)
    &&& text_safe(e.head)
    &&& (e.branch is Some ==> text_safe(e.branch->0))
    &&& (e.lock_reason is Some ==> text_safe(e.lock_reason->0))
}

/// Lines written out, each ended by a line feed.
pub open spec fn join_lines(ls: Seq<Seq<char>>) -> Seq<char>
    decreases ls.len(),
{
    if ls.len() == 0 {
        Seq::empty()
    } else {
        join_lines(ls.drop_last()) + ls.last() + seq!['\n']
    }
}

/// The text of a listing of `es`, as the tool writes it.
pub open spec fn render_text(es: Seq<WorktreeEntryModel>) -> Seq<char> {
    join_lines(render_lines(es))
}

proof fn lemma_split_append_plain(s: Seq<char>, t: Seq<char>)
    requires
        text_safe(t),
    ensures
        split_state(s + t) == (split_state(s).0, split_state(s).1 + t),
    decreases t.len(),
{
    if t.len() == 0 {
        assert(s + t =~= s);
        assert(split_state(s).1 + t =~= split_state(s).1);
    } else {
        let t0 = t.drop_last();
        assert(text_safe(t0)) by {
            assert forall|i: int| 0 <= i < t0.len() implies #[trigger] t0[i] != '\n' && t0[i] != '\r' by {
                assert(t0[i] == t[i]);
            }
        }
        lemma_split_append_plain(s, t0);
        assert((s + t).drop_last() =~= s + t0);
        assert((s + t).last() == t.last());
        assert(t.last() == t[t.len() - 1]);
        assert(split_state(s).1 + t0.push(t.last()) =~= split_state(s).1 + t);
        assert((split_state(s).1 + t0).push(t.last()) =~= split_state(s).1 + t);
    }
}

proof fn lemma_lines_of_joined(ls: Seq<Seq<char>>)
    requires
        forall|k: int| 0 <= k < ls.len() ==> text_safe(#[trigger] ls[k]),
    ensures
        split_state(join_lines(ls)) == (ls, Seq::<char>::empty()),
        lines(join_lines(ls)) == ls,
    decreases ls.len(),
{
    if ls.len() > 0 {
        let prev = ls.drop_last();
        assert forall|k: int| 0 <= k < prev.len() implies text_safe(#[trigger] prev[k]) by {
            assert(prev[k] == ls[k]);
        }
        lemma_lines_of_joined(prev);
        let l = ls.last();
        assert(text_safe(ls[ls.len() - 1]));
        lemma_split_append_plain(join_lines(prev), l);
        let body = join_lines(prev) + l;
        assert(join_lines(ls) == body + seq!['\n']);
        assert((body + seq!['\n']).drop_last() =~= body);
        assert(split_state(join_lines(prev)).1 + l =~= l);
        if l.len() > 0 {
            assert(l.last() == l[l.len() - 1]);
        }
        assert(strip_cr(l) == l);
        assert(prev.push(l) =~= ls);
    }
}

proof fn lemma_safe_concat(a: Seq<char>, b: Seq<char>)
    requires
        text_safe(a),
        text_safe(b),
    ensures
        text_safe(a + b),
{
    assert forall|i: int| 0 <= i < (a + b).len() implies #[trigger] (a + b)[i] != '\n' && (a
        + b)[i] != '\r' by {
        if i < a.len() {
            assert((a + b)[i] == a[i]);
        } else {
            assert((a + b)[i] == b[i - a.len()]);
        }
    }
}

proof fn lemma_render_safe(es: Seq<WorktreeEntryModel>)
    requires
        forall|i: int| 0 <= i < es.len() ==> writable_entry(#[trigger] es[i]),
    ensures
        forall|k: int| 0 <= k < render_lines(es).len() ==> text_safe(#[trigger] render_lines(es)[k]),
    decreases es.len(),
{
    if es.len() > 0 {
        let prev = es.drop_last();
        assert forall|i: int| 0 <= i < prev.len() implies writable_entry(#[trigger] prev[i]) by {
            assert(prev[i] == es[i]);
        }
        lemma_render_safe(prev);
        let e = es.last();
        assert(writable_entry(es[es.len() - 1]));
        reveal_strlit("worktree ");
        reveal_strlit("HEAD ");
        reveal_strlit("branch ");
        reveal_strlit("refs/heads/");
        reveal_strlit("detached");
        reveal_strlit("locked");
        reveal_strlit("locked ");
        reveal_strlit("prunable");
        assert(text_safe("worktree "@));
        assert(text_safe("HEAD "@));
        assert(text_safe("branch "@));
        assert(text_safe("refs/heads/"@));
        assert(text_safe("detached"@));
        assert(text_safe("locked"@));
        assert(text_safe("locked "@));
        assert(text_safe("prunable"@));
        assert(text_safe(Seq::<char>::empty()));
        lemma_safe_concat("worktree "@, e.path);
        lemma_safe_concat("HEAD "@, e.head);
        if e.branch is Some {
            lemma_safe_concat("branch "@, "refs/heads/"@);
            lemma_safe_concat("branch "@ + "refs/heads/"@, e.branch->0);
        }
        if e.lock_reason is Some {
            lemma_safe_concat("locked "@, e.lock_reason->0);
        }
        let re = render_entry(e);
        assert forall|k: int| 0 <= k < re.len() implies text_safe(#[trigger] re[k]) by {}
        let all = render_lines(es);
        let rp = render_lines(prev);
        assert(all == rp + re);
        assert forall|k: int| 0 <= k < all.len() implies text_safe(#[trigger] all[k]) by {
            if k < rp.len() {
                assert(all[k] == rp[k]);
            } else {
                assert(all[k] == re[k - rp.len()]);
            }
        }
    }
}

/// Records written out as the tool writes them, one value per line, parse
/// back to the same records.
pub proof fn lemma_parse_render_text(es: Seq<WorktreeEntryModel>)
    requires
        forall|i: int| 0 <= i < es.len() ==> writable_entry(#[trigger] es[i]),
    ensures
        parse_lines(lines(render_text(es))) == es,
{
    lemma_render_safe(es);
    lemma_lines_of_joined(render_lines(es));
    assert forall|i: int| 0 <= i < es.len() implies well_formed_entry(#[trigger] es[i]) by {
        assert(writable_entry(es[i]));
    }
    lemma_parse_render(es);
}

/// Parses the output of `git worktree list --porcelain` into its records, in
/// order. A record opens at each `worktree ` line; `branch` loses one leading
/// `refs/heads/`; `locked` takes its trimmed trailing text as the reason;
/// unknown lines are ignored.
pub fn parse_worktree_list_porcelain(output: &str) -> (r: Vec<ParsedWorktreeEntry>)
    ensures
        entries_view(r@) == parse_lines(lines(output@)),
{
    let cs = chars_of(output);
    let kw = Keywords::new();
    let n = cs.len();
    let mut done: Vec<ParsedWorktreeEntry> = Vec::new();
    let mut cur: Option<ParsedWorktreeEntry> = None;
    let mut a: usize = 0;
    let mut i: usize = 0;
    let ghost mut gl: Seq<Seq<char>> = Seq::empty();
    assert(entries_view(done@) =~= Seq::<WorktreeEntryModel>::empty());
    assert(cs@.subrange(0, 0) =~= Seq::<char>::empty());
    while i < n
        invariant
            kw.wf(),
            cs@ == output@,
            n == cs@.len(),
            0 <= a <= i <= n,
            split_state(cs@.subrange(0, i as int)) == (gl, cs@.subrange(a as int, i as int)),
            parse_state(gl) == (entries_view(done@), opt_entry_view(cur)),
        decreases n - i,
    {
        assert(cs@.subrange(0, i + 1).drop_last() =~= cs@.subrange(0, i as int));
        if cs[i] == '\n' {
            let b = if i > a && cs[i - 1] == '\r' {
                i - 1
            } else {
                i
            };
            proof {
                if b < i {
                    assert(cs@.subrange(a as int, i as int).drop_last() =~= cs@.subrange(
                        a as int,
                        b as int,
                    ));
                }
                assert(strip_cr(cs@.subrange(a as int, i as int)) == cs@.subrange(a as int, b as int));
                assert(gl.push(cs@.subrange(a as int, b as int)).drop_last() =~= gl);
            }
            cur = feed_line(&mut done, cur, output, &cs, &kw, a, b);
            proof {
                gl = gl.push(cs@.subrange(a as int, b as int));
            }
            a = i + 1;
            assert(cs@.subrange(a as int, i + 1) =~= Seq::<char>::empty());
        } else {
            assert(cs@.subrange(a as int, i as int).push(cs@[i as int]) =~= cs@.subrange(
                a as int,
                i + 1,
            ));
        }
        i = i + 1;
    }
    assert(cs@.subrange(0, n as int) =~= output@);
    if a < n {
        proof {
            assert(gl.push(cs@.subrange(a as int, n as int)).drop_last() =~= gl);
        }
        cur = feed_line(&mut done, cur, output, &cs, &kw, a, n);
        proof {
            gl = gl.push(cs@.subrange(a as int, n as int));
        }
    }
    assert(lines(output@) == gl);
    let ghost before = done@;
    match cur {
        Some(e) => {
            done.push(e);
            assert(entries_view(done@) =~= entries_view(before).push(e@));
        },
        None => {},
    }
    done
}

} // verus!
