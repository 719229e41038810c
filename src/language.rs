use crate::text::{chars_of, equals_at, has_prefix, starts_with};
use vstd::prelude::*;

verus! {

/// Language shown for a file extension, already in lower case.
pub open spec fn language_of_extension(ext: Seq<char>) -> Seq<char> {
    if ext == "rs"@ {
        "rust"@
    } else if ext == "ts"@ {
        "typescript"@
    } else if ext == "tsx"@ {
        "typescript"@
    } else if ext == "js"@ {
        "javascript"@
    } else if ext == "jsx"@ {
        "javascript"@
    } else if ext == "py"@ {
        "python"@
    } else if ext == "json"@ {
        "json"@
    } else if ext == "toml"@ {
        "toml"@
    } else if ext == "yaml"@ {
        "yaml"@
    } else if ext == "yml"@ {
        "yaml"@
    } else if ext == "md"@ {
        "markdown"@
    } else if ext == "html"@ {
        "html"@
    } else if ext == "css"@ {
        "css"@
    } else if ext == "scss"@ {
        "scss"@
    } else if ext == "sass"@ {
        "scss"@
    } else if ext == "sql"@ {
        "sql"@
    } else if ext == "sh"@ {
        "bash"@
    } else if ext == "bash"@ {
        "bash"@
    } else if ext == "go"@ {
        "go"@
    } else if ext == "java"@ {
        "java"@
    } else if ext == "kt"@ {
        "kotlin"@
    } else if ext == "swift"@ {
        "swift"@
    } else if ext == "c"@ {
        "c"@
    } else if ext == "h"@ {
        "c"@
    } else if ext == "cpp"@ {
        "cpp"@
    } else if ext == "cc"@ {
        "cpp"@
    } else if ext == "hpp"@ {
        "cpp"@
    } else if ext == "xml"@ {
        "xml"@
    } else if ext == "svg"@ {
        "svg"@
    } else {
        "plaintext"@
    }
}

fn eq_chars(e: &Vec<char>, t: &str) -> (r: bool)
    ensures
        r == (e@ == t@),
{
    let tc = chars_of(t);
    assert(e@.subrange(0, e@.len() as int) =~= e@);
    equals_at(e, 0, e.len(), &tc)
}

/// The language shown for an extension that is already in lower case.
pub fn language_for_extension(ext: &str) -> (r: String)
    ensures
        r@ == language_of_extension(ext@),
{
    let e = chars_of(ext);
    if eq_chars(&e, "rs") {
        String::from_str("rust")
    } else if eq_chars(&e, "ts") {
        String::from_str("typescript")
    } else if eq_chars(&e, "tsx") {
        String::from_str("typescript")
    } else if eq_chars(&e, "js") {
        String::from_str("javascript")
    } else if eq_chars(&e, "jsx") {
        String::from_str("javascript")
    } else if eq_chars(&e, "py") {
        String::from_str("python")
    } else if eq_chars(&e, "json") {
        String::from_str("json")
    } else if eq_chars(&e, "toml") {
        String::from_str("toml")
    } else if eq_chars(&e, "yaml") {
        String::from_str("yaml")
    } else if eq_chars(&e, "yml") {
        String::from_str("yaml")
    } else if eq_chars(&e, "md") {
        String::from_str("markdown")
    } else if eq_chars(&e, "html") {
        String::from_str("html")
    } else if eq_chars(&e, "css") {
        String::from_str("css")
    } else if eq_chars(&e, "scss") {
        String::from_str("scss")
    } else if eq_chars(&e, "sass") {
        String::from_str("scss")
    } else if eq_chars(&e, "sql") {
        String::from_str("sql")
    } else if eq_chars(&e, "sh") {
        String::from_str("bash")
    } else if eq_chars(&e, "bash") {
        String::from_str("bash")
    } else if eq_chars(&e, "go") {
        String::from_str("go")
    } else if eq_chars(&e, "java") {
        String::from_str("java")
    } else if eq_chars(&e, "kt") {
        String::from_str("kotlin")
    } else if eq_chars(&e, "swift") {
        String::from_str("swift")
    } else if eq_chars(&e, "c") {
        String::from_str("c")
    } else if eq_chars(&e, "h") {
        String::from_str("c")
    } else if eq_chars(&e, "cpp") {
        String::from_str("cpp")
    } else if eq_chars(&e, "cc") {
        String::from_str("cpp")
    } else if eq_chars(&e, "hpp") {
        String::from_str("cpp")
    } else if eq_chars(&e, "xml") {
        String::from_str("xml")
    } else if eq_chars(&e, "svg") {
        String::from_str("svg")
    } else {
        String::from_str("plaintext")
    }
}

/// What `str::to_lowercase` makes of a text.
pub uninterp spec fn lower_of(s: Seq<char>) -> Seq<char>;

/// Relies on `str::to_lowercase`: its result depends on the characters alone.
#[verifier::external_body]
fn lowercase(s: &str) -> (r: String)
    ensures
        r@ == lower_of(s@),
{
    s.to_lowercase()
}

/// Index just past the last `c` in `s[0..n]`, or 0 when there is none.
pub open spec fn after_last(s: Seq<char>, c: char, n: int) -> int
    decreases n,
{
    if n <= 0 {
        0
    } else if s[n - 1] == c {
        n
    } else {
        after_last(s, c, n - 1)
    }
}

/// `path` without trailing separators and trailing `.` components, which
/// name no file of their own.
pub open spec fn without_tail(path: Seq<char>) -> Seq<char>
    decreases path.len(),
{
    if path.len() > 0 && path.last() == '/' {
        without_tail(path.drop_last())
    } else if path.len() >= 2 && path.last() == '.' && path[path.len() - 2] == '/' {
        without_tail(path.drop_last())
    } else {
        path
    }
}

/// The extension of the last component of `path`: the text after its last
/// dot, when that dot is not the component's first character.
pub open spec fn extension_of(path: Seq<char>) -> Option<Seq<char>> {
    let p = without_tail(path);
    let start = after_last(p, '/', p.len() as int);
    let name = p.subrange(start, p.len() as int);
    let dot = after_last(name, '.', name.len() as int);
    if name == ".."@ {
        None
    } else if dot > 1 {
        Some(name.subrange(dot, name.len() as int))
    } else {
        None
    }
}

/// Language of the file at `path`, by its extension in lower case.
pub open spec fn language_of_path(path: Seq<char>) -> Seq<char> {
    match extension_of(path) {
        Some(e) => language_of_extension(lower_of(e)),
        None => "plaintext"@,
    }
}

fn find_after_last(cs: &Vec<char>, c: char, from: usize, n: usize) -> (r: usize)
    requires
        from <= n <= cs@.len(),
    ensures
        from <= r <= n,
        r - from == after_last(cs@.subrange(from as int, n as int), c, (n - from) as int),
{
    let mut k = n;
    while k > from && cs[k - 1] != c
        invariant
            from <= k <= n <= cs@.len(),
            after_last(cs@.subrange(from as int, n as int), c, (n - from) as int) == after_last(
                cs@.subrange(from as int, n as int),
                c,
                (k - from) as int,
            ),
        decreases k,
    {
        assert(cs@.subrange(from as int, n as int)[k - 1 - from] == cs@[k - 1]);
        k = k - 1;
    }
    if k > from {
        assert(cs@.subrange(from as int, n as int)[k - 1 - from] == cs@[k - 1]);
    }
    k
}

/// The language shown for the file at `path`.
pub fn language_for_path(path: &str) -> (r: String)
    ensures
        r@ == language_of_path(path@),
{
    let cs = chars_of(path);
    let mut n = cs.len();
    assert(cs@.subrange(0, n as int) =~= path@);
    while n > 0 && (cs[n - 1] == '/' || (n >= 2 && cs[n - 1] == '.' && cs[n - 2] == '/'))
        invariant
            cs@ == path@,
            n <= cs@.len(),
            without_tail(path@) == without_tail(cs@.subrange(0, n as int)),
        decreases n,
    {
        assert(cs@.subrange(0, n as int).drop_last() =~= cs@.subrange(0, n - 1));
        n = n - 1;
    }
    let ghost p = cs@.subrange(0, n as int);
    assert(without_tail(p) == p);
    let start = find_after_last(&cs, '/', 0, n);
    assert(cs@.subrange(0, n as int).subrange(0, n as int) =~= p);
    let ghost name = p.subrange(start as int, n as int);
    proof {
        reveal_strlit("..");
        assert(name =~= cs@.subrange(start as int, n as int));
    }
    if n - start == 2 && cs[start] == '.' && cs[start + 1] == '.' {
        assert(name =~= ".."@);
        return String::from_str("plaintext");
    }
    proof {
        reveal_strlit("..");
        if name == ".."@ {
            assert(name.len() == 2 && name[0] == '.' && name[1] == '.');
            assert(name[0] == cs@[start as int] && name[1] == cs@[start + 1]);
        }
    }
    let dot = find_after_last(&cs, '.', start, n);
    if dot - start <= 1 {
        return String::from_str("plaintext");
    }
    assert(name.subrange(dot - start, name.len() as int) =~= path@.subrange(dot as int, n as int));
    let ext = lowercase(path.substring_char(dot, n));
    language_for_extension(ext.as_str())
}

/// Whether `git status --porcelain <file>` output marks a new file and a
/// deleted one: `??` or `A ` starts a new file, ` D` or `D ` a deleted one.
pub fn file_diff_flags(status_output: &str) -> (r: (bool, bool))
    ensures
        r.0 == (starts_with(status_output@, "??"@) || starts_with(status_output@, "A "@)),
        r.1 == (starts_with(status_output@, " D"@) || starts_with(status_output@, "D "@)),
{
    let cs = chars_of(status_output);
    let n = cs.len();
    assert(cs@.subrange(0, n as int) =~= status_output@);
    let is_new = has_prefix(&cs, 0, n, &chars_of("??")) || has_prefix(&cs, 0, n, &chars_of("A "));
    let is_deleted = has_prefix(&cs, 0, n, &chars_of(" D")) || has_prefix(&cs, 0, n, &chars_of("D "));
    (is_new, is_deleted)
}

} // verus!
