use vstd::prelude::*;
use vstd::std_specs::iter::IteratorSpec;
use vstd::string::{axiom_spec_iter, next_postcondition};

verus! {

broadcast use {axiom_spec_iter, next_postcondition};

/// The characters of `s`, in order.
pub fn chars_of(s: &str) -> (r: Vec<char>)
    ensures
        r@ == s@,
{
    let mut it = s.chars();
    let mut r: Vec<char> = Vec::new();
    loop
        invariant
            it.remaining() == s@.subrange(r@.len() as int, s@.len() as int),
            r@ == s@.subrange(0, r@.len() as int),
            r@.len() <= s@.len(),
        ensures
            r@ == s@,
        decreases s@.len() - r@.len(),
    {
        match it.next() {
            Some(c) => {
                r.push(c);
            },
            None => {
                break ;
            },
        }
    }
    r
}

/// `c` is white space in the sense of Unicode's White_Space property.
pub open spec fn is_space(c: char) -> bool {
    let u = c as u32;
    (0x09 <= u <= 0x0D) || u == 0x20 || u == 0x85 || u == 0xA0 || u == 0x1680 || (0x2000 <= u
        <= 0x200A) || u == 0x2028 || u == 0x2029 || u == 0x202F || u == 0x205F || u == 0x3000
}

pub fn is_space_char(c: char) -> (r: bool)
    ensures
        r == is_space(c),
{
    let u = c as u32;
    (0x09 <= u && u <= 0x0D) || u == 0x20 || u == 0x85 || u == 0xA0 || u == 0x1680 || (0x2000 <= u
        && u <= 0x200A) || u == 0x2028 || u == 0x2029 || u == 0x202F || u == 0x205F || u == 0x3000
}

/// `l` without its leading white space.
pub open spec fn trim_start(l: Seq<char>) -> Seq<char>
    decreases l.len(),
{
    if l.len() > 0 && is_space(l[0]) {
        trim_start(l.drop_first())
    } else {
        l
    }
}

/// `l` without its trailing white space.
pub open spec fn trim_end(l: Seq<char>) -> Seq<char>
    decreases l.len(),
{
    if l.len() > 0 && is_space(l.last()) {
        trim_end(l.drop_last())
    } else {
        l
    }
}

/// `l` without white space at either end.
pub open spec fn trim(l: Seq<char>) -> Seq<char> {
    trim_end(trim_start(l))
}

pub open spec fn starts_with(l: Seq<char>, p: Seq<char>) -> bool {
    p.len() <= l.len() && l.subrange(0, p.len() as int) == p
}

/// `l` after the prefix `p`, which it is known to start with.
pub open spec fn after(l: Seq<char>, p: Seq<char>) -> Seq<char> {
    l.subrange(p.len() as int, l.len() as int)
}

/// `l` without one leading `p`, if it starts with one.
pub open spec fn strip_prefix_once(l: Seq<char>, p: Seq<char>) -> Seq<char> {
    if starts_with(l, p) {
        after(l, p)
    } else {
        l
    }
}

/// Bounds of the part of `cs[a..b]` that remains once white space is trimmed
/// from both ends.
pub fn trim_bounds(cs: &Vec<char>, a: usize, b: usize) -> (r: (usize, usize))
    requires
        a <= b <= cs@.len(),
    ensures
        a <= r.0 <= r.1 <= b,
        cs@.subrange(r.0 as int, r.1 as int) == trim(cs@.subrange(a as int, b as int)),
{
    let mut x = a;
    while x < b && is_space_char(cs[x])
        invariant
            a <= x <= b <= cs@.len(),
            trim_start(cs@.subrange(a as int, b as int)) == trim_start(cs@.subrange(x as int, b as int)),
        decreases b - x,
    {
        assert(cs@.subrange(x as int, b as int).drop_first() =~= cs@.subrange(x + 1, b as int));
        x = x + 1;
    }
    assert(trim_start(cs@.subrange(x as int, b as int)) == cs@.subrange(x as int, b as int));
    let mut y = b;
    while y > x && is_space_char(cs[y - 1])
        invariant
            a <= x <= y <= b <= cs@.len(),
            trim_end(cs@.subrange(x as int, b as int)) == trim_end(cs@.subrange(x as int, y as int)),
        decreases y - x,
    {
        assert(cs@.subrange(x as int, y as int).drop_last() =~= cs@.subrange(x as int, y - 1));
        y = y - 1;
    }
    (x, y)
}

/// Whether `cs[a..b]` starts with `p`.
pub fn has_prefix(cs: &Vec<char>, a: usize, b: usize, p: &Vec<char>) -> (r: bool)
    requires
        a <= b <= cs@.len(),
    ensures
        r == starts_with(cs@.subrange(a as int, b as int), p@),
{
    if p.len() > b - a {
        return false;
    }
    let mut k: usize = 0;
    while k < p.len()
        invariant
            a <= b <= cs@.len(),
            p@.len() <= b - a,
            0 <= k <= p@.len(),
            forall|t: int| 0 <= t < k ==> cs@[a + t] == p@[t],
        decreases p@.len() - k,
    {
        if cs[a + k] != p[k] {
            assert(cs@.subrange(a as int, b as int)[k as int] != p@[k as int]);
            return false;
        }
        k = k + 1;
    }
    assert(cs@.subrange(a as int, b as int).subrange(0, p@.len() as int) =~= p@);
    true
}

/// Whether `cs[a..b]` is exactly `p`.
pub fn equals_at(cs: &Vec<char>, a: usize, b: usize, p: &Vec<char>) -> (r: bool)
    requires
        a <= b <= cs@.len(),
    ensures
        r == (cs@.subrange(a as int, b as int) == p@),
{
    if p.len() != b - a {
        return false;
    }
    let r = has_prefix(cs, a, b, p);
    assert(cs@.subrange(a as int, b as int).subrange(0, p@.len() as int) =~= cs@.subrange(
        a as int,
        b as int,
    ));
    r
}

/// `p` occurs somewhere in `s`.
pub open spec fn contains(s: Seq<char>, p: Seq<char>) -> bool {
    exists|i: int| 0 <= i && i + p.len() <= s.len() && #[trigger] s.subrange(i, i + p.len()) == p
}

/// Whether `p` occurs in `s`.
pub fn text_contains(s: &str, p: &str) -> (r: bool)
    ensures
        r == contains(s@, p@),
{
    let cs = chars_of(s);
    let ps = chars_of(p);
    let n = cs.len();
    let m = ps.len();
    if m > n {
        assert forall|i: int| 0 <= i && i + p@.len() <= s@.len() implies #[trigger] s@.subrange(
            i,
            i + p@.len(),
        ) != p@ by {}
        return false;
    }
    let mut i: usize = 0;
    loop
        invariant
            cs@ == s@,
            ps@ == p@,
            n == cs@.len(),
            m == ps@.len(),
            m <= n,
            0 <= i <= n - m,
            forall|k: int| 0 <= k < i ==> #[trigger] s@.subrange(k, k + p@.len()) != p@,
        ensures
            forall|k: int| 0 <= k <= n - m ==> #[trigger] s@.subrange(k, k + p@.len()) != p@,
        decreases n - m - i,
    {
        if has_prefix(&cs, i, n, &ps) {
            assert(cs@.subrange(i as int, n as int).subrange(0, m as int) =~= s@.subrange(
                i as int,
                i + m,
            ));
            return true;
        }
        assert(cs@.subrange(i as int, n as int).subrange(0, m as int) =~= s@.subrange(
            i as int,
            i + m,
        ));
        if i == n - m {
            break ;
        }
        i = i + 1;
    }
    false
}

/// The text of `s` without white space at either end.
pub fn trimmed(s: &str) -> (r: String)
    ensures
        r@ == trim(s@),
{
    let cs = chars_of(s);
    let (a, b) = trim_bounds(&cs, 0, cs.len());
    assert(cs@.subrange(0, cs@.len() as int) =~= s@);
    String::from_str(s.substring_char(a, b))
}

/// Whether `a` and `b` hold the same text.
pub fn same_text(a: &str, b: &str) -> (r: bool)
    ensures
        r == (a@ == b@),
{
    let x = chars_of(a);
    let y = chars_of(b);
    assert(x@.subrange(0, x@.len() as int) =~= x@);
    equals_at(&x, 0, x.len(), &y)
}

/// Index of the first `c` in `s`, or the length of `s`.
pub open spec fn first_char(s: Seq<char>, c: char) -> int
    decreases s.len(),
{
    if s.len() == 0 {
        0
    } else if s[0] == c {
        0
    } else {
        1 + first_char(s.drop_first(), c)
    }
}

pub proof fn lemma_first_char(s: Seq<char>, c: char, k: int)
    requires
        0 <= k <= s.len(),
        forall|i: int| 0 <= i < k ==> s[i] != c,
        k == s.len() || s[k] == c,
    ensures
        first_char(s, c) == k,
    decreases k,
{
    if k > 0 {
        assert forall|i: int| 0 <= i < k - 1 implies s.drop_first()[i] != c by {
            assert(s.drop_first()[i] == s[i + 1]);
        }
        lemma_first_char(s.drop_first(), c, k - 1);
    }
}

/// What `first_char` says of the characters.
pub proof fn lemma_first_char_facts(s: Seq<char>, c: char)
    ensures
        0 <= first_char(s, c) <= s.len(),
        forall|i: int| 0 <= i < first_char(s, c) ==> #[trigger] s[i] != c,
        first_char(s, c) < s.len() ==> s[first_char(s, c)] == c,
    decreases s.len(),
{
    if s.len() > 0 && s[0] != c {
        lemma_first_char_facts(s.drop_first(), c);
        assert forall|i: int| 0 <= i < first_char(s, c) implies #[trigger] s[i] != c by {
            if i > 0 {
                assert(s[i] == s.drop_first()[i - 1]);
            }
        }
    }
}

/// Index of the first `c` in `cs[a..b]`, or `b`.
pub fn find_char(cs: &Vec<char>, a: usize, b: usize, c: char) -> (r: usize)
    requires
        a <= b <= cs@.len(),
    ensures
        a <= r <= b,
        r - a == first_char(cs@.subrange(a as int, b as int), c),
{
    let mut k = a;
    while k < b && cs[k] != c
        invariant
            a <= k <= b <= cs@.len(),
            forall|i: int| a <= i < k ==> cs@[i] != c,
        decreases b - k,
    {
        k = k + 1;
    }
    proof {
        let t = cs@.subrange(a as int, b as int);
        assert forall|i: int| 0 <= i < k - a implies t[i] != c by {
            assert(t[i] == cs@[a + i]);
        }
        if k < b {
            assert(t[k - a] == cs@[k as int]);
        }
        lemma_first_char(t, c, k - a);
    }
    k
}

/// `l` without one trailing carriage return.
pub open spec fn strip_cr(l: Seq<char>) -> Seq<char> {
    if l.len() > 0 && l.last() == '\r' {
        l.drop_last()
    } else {
        l
    }
}

/// Lines finished so far, and the line in progress, after reading `s`.
pub open spec fn split_state(s: Seq<char>) -> (Seq<Seq<char>>, Seq<char>)
    decreases s.len(),
{
    if s.len() == 0 {
        (Seq::empty(), Seq::empty())
    } else {
        let (done, cur) = split_state(s.drop_last());
        if s.last() == '\n' {
            (done.push(strip_cr(cur)), Seq::empty())
        } else {
            (done, cur.push(s.last()))
        }
    }
}

/// The lines of `s`: split at each line feed, a carriage return before the
/// line feed dropped, and a last line kept only when it is not empty.
pub open spec fn lines(s: Seq<char>) -> Seq<Seq<char>> {
    let (done, cur) = split_state(s);
    if cur.len() > 0 {
        done.push(cur)
    } else {
        done
    }
}

/// `r` gives, pair by pair, the bounds in `cs` of the lines `ls`.
pub open spec fn bounds_of(cs: Seq<char>, r: Seq<(usize, usize)>, ls: Seq<Seq<char>>) -> bool {
    &&& r.len() == ls.len()
    &&& forall|k: int|
        0 <= k < r.len() ==> (#[trigger] r[k]).0 <= r[k].1 <= cs.len() && cs.subrange(
            r[k].0 as int,
            r[k].1 as int,
        ) == ls[k]
}

/// Start and end of each line of `cs`, as `lines` splits it.
pub fn line_bounds(cs: &Vec<char>) -> (r: Vec<(usize, usize)>)
    ensures
        bounds_of(cs@, r@, lines(cs@)),
{
    let n = cs.len();
    let mut r: Vec<(usize, usize)> = Vec::new();
    let mut a: usize = 0;
    let mut i: usize = 0;
    assert(cs@.subrange(0, 0) =~= Seq::<char>::empty());
    while i < n
        invariant
            n == cs@.len(),
            0 <= a <= i <= n,
            split_state(cs@.subrange(0, i as int)).1 == cs@.subrange(a as int, i as int),
            bounds_of(cs@, r@, split_state(cs@.subrange(0, i as int)).0),
        decreases n - i,
    {
        assert(cs@.subrange(0, i + 1).drop_last() =~= cs@.subrange(0, i as int));
        let ghost old_r = r@;
        let ghost old_lines = split_state(cs@.subrange(0, i as int)).0;
        if cs[i] == '\n' {
            let b = if i > a && cs[i - 1] == '\r' {
                i - 1
            } else {
                i
            };
            if b < i {
                assert(cs@.subrange(a as int, i as int).drop_last() =~= cs@.subrange(
                    a as int,
                    b as int,
                ));
            }
            r.push((a, b));
            proof {
                let new_lines = split_state(cs@.subrange(0, i + 1)).0;
                assert(new_lines == old_lines.push(cs@.subrange(a as int, b as int)));
                assert forall|k: int| 0 <= k < r@.len() implies (#[trigger] r@[k]).0 <= r@[k].1
                    <= cs@.len() && cs@.subrange(r@[k].0 as int, r@[k].1 as int) == new_lines[k] by {
                    if k < old_r.len() {
                        assert(r@[k] == old_r[k]);
                    }
                }
            }
            a = i + 1;
            assert(cs@.subrange(a as int, i + 1) =~= Seq::<char>::empty());
        } else {
            assert(cs@.subrange(a as int, i as int).push(cs@[i as int]) =~= cs@.subrange(
                a as int,
                i + 1,
            ));
            assert(split_state(cs@.subrange(0, i + 1)).0 == old_lines);
        }
        i = i + 1;
    }
    assert(cs@.subrange(0, n as int) =~= cs@);
    let ghost old_r = r@;
    if a < n {
        r.push((a, n));
        proof {
            assert forall|k: int| 0 <= k < r@.len() implies (#[trigger] r@[k]).0 <= r@[k].1
                <= cs@.len() && cs@.subrange(r@[k].0 as int, r@[k].1 as int) == lines(cs@)[k] by {
                if k < old_r.len() {
                    assert(r@[k] == old_r[k]);
                }
            }
        }
    }
    r
}

} // verus!
