use crate::text::{after, chars_of, contains, starts_with, text_contains, trim, trimmed};
use vstd::prelude::*;

verus! {

/// What a finished `git` process gives back: its standard output when it
/// succeeded, else its standard error, trimmed.
pub fn git_output_result(succeeded: bool, stdout: String, stderr: &str) -> (r: Result<
    String,
    String,
>)
    ensures
        succeeded ==> r == Ok::<String, String>(stdout),
        !succeeded ==> r is Err && r->Err_0@ == trim(stderr@),
{
    if succeeded {
        Ok(stdout)
    } else {
        Err(trimmed(stderr))
    }
}

/// `Failed to <action>: <detail>`, the shape of a handler's error.
pub fn failure_message(action: &str, detail: &str) -> (r: String)
    ensures
        r@ == "Failed to "@ + action@ + ": "@ + detail@,
{
    let mut r = String::from_str("Failed to ");
    r.append(action);
    r.append(": ");
    r.append(detail);
    r
}

/// What a `git commit` run means for the commit handler.
pub enum CommitOutcome {
    /// A commit was made; its hash is read next.
    Committed,
    /// There was nothing to commit: the handler answers with this text.
    NothingToCommit(String),
    Failed(String),
}

/// Reads a `git commit` run: success, nothing to commit (git says so on
/// standard error), or a failure carrying git's error text.
pub fn commit_outcome(succeeded: bool, stderr: &str) -> (r: CommitOutcome)
    ensures
        succeeded ==> r is Committed,
        !succeeded && contains(stderr@, "nothing to commit"@) ==> r is NothingToCommit
            && r->NothingToCommit_0@ == "Nothing to commit"@,
        !succeeded && !contains(stderr@, "nothing to commit"@) ==> r is Failed
            && r->Failed_0@ == "Failed to commit: "@ + stderr@,
{
    if succeeded {
        CommitOutcome::Committed
    } else if text_contains(stderr, "nothing to commit") {
        CommitOutcome::NothingToCommit(String::from_str("Nothing to commit"))
    } else {
        proof {
            reveal_strlit("Failed to ");
            reveal_strlit("commit");
            reveal_strlit(": ");
            reveal_strlit("Failed to commit: ");
            assert("Failed to "@ + "commit"@ + ": "@ =~= "Failed to commit: "@);
        }
        CommitOutcome::Failed(failure_message("commit", stderr))
    }
}

/// After `git worktree remove --force` failed, whether the directory is to be
/// deleted by hand: not when git says the path is no worktree or does not exist.
pub fn remove_directory_by_hand(succeeded: bool, stderr: &str) -> (r: bool)
    ensures
        r == (!succeeded && !contains(stderr@, "is not a working tree"@) && !contains(
            stderr@,
            "No such file"@,
        )),
{
    !succeeded && !text_contains(stderr, "is not a working tree") && !text_contains(
        stderr,
        "No such file",
    )
}

/// Outcome of `git branch -D`: a branch that is already gone is fine.
pub fn branch_delete_outcome(succeeded: bool, stderr: &str) -> (r: Result<(), String>)
    ensures
        r is Ok <==> (succeeded || contains(stderr@, "not found"@) || contains(
            stderr@,
            "error: branch"@,
        )),
        r is Err ==> r->Err_0@ == "Failed to delete branch: "@ + stderr@,
{
    if succeeded || text_contains(stderr, "not found") || text_contains(stderr, "error: branch") {
        Ok(())
    } else {
        proof {
            reveal_strlit("Failed to ");
            reveal_strlit("delete branch");
            reveal_strlit(": ");
            reveal_strlit("Failed to delete branch: ");
            assert("Failed to "@ + "delete branch"@ + ": "@ =~= "Failed to delete branch: "@);
        }
        Err(failure_message("delete branch", stderr))
    }
}

/// Words joined with single spaces.
pub open spec fn joined(words: Seq<Seq<char>>) -> Seq<char>
    decreases words.len(),
{
    if words.len() == 0 {
        Seq::empty()
    } else if words.len() == 1 {
        words[0]
    } else {
        joined(words.drop_last()) + seq![' '] + words.last()
    }
}

/// The message for a `git` that could not be started.
pub fn launch_failure_message(args: &Vec<String>, error: &str) -> (r: String)
    ensures
        r@ == "Failed to execute git "@ + joined(args@.map_values(|a: String| a@)) + ": "@ + error@,
{
    let mut r = String::from_str("Failed to execute git ");
    let ghost start = r@;
    let mut i: usize = 0;
    while i < args.len()
        invariant
            0 <= i <= args@.len(),
            start == "Failed to execute git "@,
            r@ == start + joined(args@.subrange(0, i as int).map_values(|a: String| a@)),
        decreases args@.len() - i,
    {
        let ghost before = r@;
        if i > 0 {
            r.append(" ");
        }
        r.append(args[i].as_str());
        proof {
            let ws = args@.subrange(0, i + 1).map_values(|a: String| a@);
            assert(ws.drop_last() =~= args@.subrange(0, i as int).map_values(|a: String| a@));
            reveal_strlit(" ");
            if i == 0 {
                assert(ws.len() == 1);
                assert(joined(ws) == ws[0]);
                assert(r@ =~= start + joined(ws));
            } else {
                assert(r@ =~= start + joined(ws));
            }
        }
        i = i + 1;
    }
    assert(args@.subrange(0, args@.len() as int) =~= args@);
    r.append(": ");
    r.append(error);
    r
}

/// The default branch named by `git symbolic-ref refs/remotes/origin/HEAD`:
/// its trimmed output without `refs/remotes/origin/`.
pub open spec fn branch_of_remote_head(stdout: Seq<char>) -> Option<Seq<char>> {
    if starts_with(trim(stdout), "refs/remotes/origin/"@) {
        Some(after(trim(stdout), "refs/remotes/origin/"@))
    } else {
        None
    }
}

pub fn branch_from_remote_head(stdout: &str) -> (r: Option<String>)
    ensures
        match r {
            Some(b) => branch_of_remote_head(stdout@) == Some(b@),
            None => branch_of_remote_head(stdout@) is None,
        },
{
    let t = trimmed(stdout);
    let cs = chars_of(t.as_str());
    let key = chars_of("refs/remotes/origin/");
    if !crate::text::has_prefix(&cs, 0, cs.len(), &key) {
        assert(cs@.subrange(0, cs@.len() as int) =~= cs@);
        return None;
    }
    assert(cs@.subrange(0, cs@.len() as int) =~= cs@);
    Some(String::from_str(t.as_str().substring_char(key.len(), cs.len())))
}

/// The default branch: the one the remote's HEAD names; else `main`, then
/// `master`, whichever exists as a remote branch; else `main`.
pub fn choose_default_branch(remote_head: Option<String>, main_exists: bool, master_exists: bool) -> (r:
    String)
    ensures
        remote_head is Some ==> r == remote_head->0,
        remote_head is None && !main_exists && master_exists ==> r@ == "master"@,
        remote_head is None && (main_exists || !master_exists) ==> r@ == "main"@,
{
    match remote_head {
        Some(b) => b,
        None => if main_exists {
            String::from_str("main")
        } else if master_exists {
            String::from_str("master")
        } else {
            String::from_str("main")
        },
    }
}

pub open spec fn is_digit(c: char) -> bool {
    '0' <= c <= '9'
}

pub open spec fn digits_value(d: Seq<char>) -> nat
    decreases d.len(),
{
    if d.len() == 0 {
        0
    } else {
        digits_value(d.drop_last()) * 10 + ((d.last() as u32 - '0' as u32) as nat)
    }
}

/// Unsigned decimal text as `u32` reads it: an optional `+`, then one or more
/// digits whose value fits.
pub open spec fn u32_text_value(s: Seq<char>) -> Option<u32> {
    let d = unsigned_part(s);
    if d.len() > 0 && all_digits(d) && digits_value(d) <= u32::MAX {
        Some(digits_value(d) as u32)
    } else {
        None
    }
}

/// `s` without one leading `+`.
pub open spec fn unsigned_part(s: Seq<char>) -> Seq<char> {
    if s.len() > 0 && s[0] == '+' {
        s.drop_first()
    } else {
        s
    }
}

pub open spec fn all_digits(d: Seq<char>) -> bool {
    forall|i: int| 0 <= i < d.len() ==> is_digit(#[trigger] d[i])
}

proof fn lemma_digits_value_grows(d: Seq<char>, k: int)
    requires
        0 <= k <= d.len(),
        all_digits(d),
    ensures
        digits_value(d.subrange(0, k)) <= digits_value(d),
    decreases d.len() - k,
{
    if k < d.len() {
        lemma_digits_value_grows(d, k + 1);
        assert(d.subrange(0, k + 1).drop_last() =~= d.subrange(0, k));
    } else {
        assert(d.subrange(0, k) =~= d);
    }
}

/// Reads `cs[a..b]` as `u32` text.
pub fn parse_u32_at(cs: &Vec<char>, a: usize, b: usize) -> (r: Option<u32>)
    requires
        a <= b <= cs@.len(),
    ensures
        r == u32_text_value(cs@.subrange(a as int, b as int)),
{
    let ghost s = cs@.subrange(a as int, b as int);
    let start = if a < b && cs[a] == '+' {
        a + 1
    } else {
        a
    };
    let ghost d = cs@.subrange(start as int, b as int);
    assert(d =~= unsigned_part(s));
    if start == b {
        return None;
    }
    let mut v: u64 = 0;
    let mut i = start;
    while i < b
        invariant
            a <= start <= i <= b <= cs@.len(),
            d == cs@.subrange(start as int, b as int),
            s == cs@.subrange(a as int, b as int),
            d == unsigned_part(s),
            v == digits_value(cs@.subrange(start as int, i as int)),
            v <= u32::MAX,
            forall|k: int| start <= k < i ==> is_digit(#[trigger] cs@[k]),
        decreases b - i,
    {
        let c = cs[i];
        assert(cs@.subrange(start as int, i + 1).drop_last() =~= cs@.subrange(start as int, i as int));
        if !('0' <= c && c <= '9') {
            proof {
                assert(d[i - start] == cs@[i as int]);
                assert(!is_digit(d[i - start]));
                assert(!all_digits(d));
                assert(u32_text_value(s) is None);
            }
            return None;
        }
        let digit = (c as u32 - '0' as u32) as u64;
        let next = v * 10 + digit;
        if next > 0xFFFF_FFFF {
            proof {
                let p = cs@.subrange(start as int, i + 1);
                assert(p.last() == c);
                assert(digits_value(p) == next);
                if all_digits(d) {
                    lemma_digits_value_grows(d, i + 1 - start);
                    assert(d.subrange(0, i + 1 - start) =~= p);
                }
                assert(u32_text_value(s) is None);
            }
            return None;
        }
        v = next;
        i = i + 1;
    }
    assert(d =~= cs@.subrange(start as int, i as int));
    Some(v as u32)
}

/// Index of the first tab in `t`, or its length.
pub open spec fn first_tab(t: Seq<char>) -> int
    decreases t.len(),
{
    if t.len() == 0 {
        0
    } else if t[0] == '\t' {
        0
    } else {
        1 + first_tab(t.drop_first())
    }
}

pub proof fn lemma_first_tab(t: Seq<char>, k: int)
    requires
        0 <= k <= t.len(),
        forall|i: int| 0 <= i < k ==> t[i] != '\t',
        k == t.len() || t[k] == '\t',
    ensures
        first_tab(t) == k,
    decreases k,
{
    if k > 0 {
        assert forall|i: int| 0 <= i < k - 1 implies t.drop_first()[i] != '\t' by {
            assert(t.drop_first()[i] == t[i + 1]);
        }
        lemma_first_tab(t.drop_first(), k - 1);
    }
}

/// Ahead and behind counts from `git rev-list --left-right --count`: two
/// tab-separated numbers once trimmed; a missing or unreadable number is 0,
/// and anything but exactly two fields gives (0, 0).
pub open spec fn ahead_behind_of(stdout: Seq<char>) -> (u32, u32) {
    let t = trim(stdout);
    let k = first_tab(t);
    let rest = t.subrange(k + 1, t.len() as int);
    if k < t.len() && first_tab(rest) == rest.len() {
        (
            match u32_text_value(t.subrange(0, k)) {
                Some(v) => v,
                None => 0,
            },
            match u32_text_value(rest) {
                Some(v) => v,
                None => 0,
            },
        )
    } else {
        (0, 0)
    }
}

pub fn parse_ahead_behind(stdout: &str) -> (r: (u32, u32))
    ensures
        r == ahead_behind_of(stdout@),
{
    let t = trimmed(stdout);
    let cs = chars_of(t.as_str());
    let n = cs.len();
    let mut k: usize = 0;
    while k < n && cs[k] != '\t'
        invariant
            0 <= k <= n == cs@.len(),
            forall|i: int| 0 <= i < k ==> cs@[i] != '\t',
        decreases n - k,
    {
        k = k + 1;
    }
    proof {
        lemma_first_tab(cs@, k as int);
    }
    if k == n {
        return (0, 0);
    }
    let mut m: usize = k + 1;
    while m < n && cs[m] != '\t'
        invariant
            k < n == cs@.len(),
            k + 1 <= m <= n,
            forall|i: int| k + 1 <= i < m ==> cs@[i] != '\t',
        decreases n - m,
    {
        m = m + 1;
    }
    let ghost rest = cs@.subrange(k + 1, n as int);
    proof {
        assert forall|i: int| 0 <= i < m - k - 1 implies rest[i] != '\t' by {
            assert(rest[i] == cs@[k + 1 + i]);
        }
        if m < n {
            assert(rest[m - k - 1] == cs@[m as int]);
        }
        lemma_first_tab(rest, m - k - 1);
    }
    if m < n {
        return (0, 0);
    }
    let ahead = match parse_u32_at(&cs, 0, k) {
        Some(v) => v,
        None => 0,
    };
    let behind = match parse_u32_at(&cs, k + 1, n) {
        Some(v) => v,
        None => 0,
    };
    (ahead, behind)
}

} // verus!
