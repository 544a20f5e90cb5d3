//! File paths as text: joining them, and the home directory in them.

use crate::text::{
    after, after_last, chars_of, concat2, concat3, same, starts_with, tail_after, tail_is_suffix,
    text_of,
};
use vstd::prelude::*;

verus! {

/// The home directory where the environment names none.
pub const NO_HOME: &'static str = "/tmp";

/// The home directory: what the environment names, else a fallback.
pub fn home(var: Option<String>) -> (r: String)
    ensures
        r@ == (match var {
            Some(v) => v@,
            None => NO_HOME@,
        }),
{
    match var {
        Some(v) => v,
        None => NO_HOME.to_owned(),
    }
}

/// The path `rel` below `base`: an absolute `rel` stands for itself, and a
/// slash goes between the two where `base` is not empty and does not end in
/// one.
pub open spec fn joined_path(base: Seq<char>, rel: Seq<char>) -> Seq<char> {
    if rel.len() > 0 && rel[0] == '/' {
        rel
    } else if base.len() == 0 || base.last() == '/' {
        base + rel
    } else {
        base + "/"@ + rel
    }
}

/// The path `rel` below `base`.
pub fn join_path(base: &str, rel: &str) -> (r: String)
    ensures
        r@ == joined_path(base@, rel@),
{
    let b: usize = base.unicode_len();
    let n: usize = rel.unicode_len();
    if n > 0 && rel.get_char(0) == '/' {
        rel.to_owned()
    } else if b == 0 || base.get_char(b - 1) == '/' {
        concat2(base, rel)
    } else {
        concat3(base, "/", rel)
    }
}

/// `p` with a leading `~` put for the home directory, as a shell does it.
pub open spec fn expanded(p: Seq<char>, home: Seq<char>) -> Seq<char> {
    if "~/"@.is_prefix_of(p) {
        home + "/"@ + p.skip(2)
    } else if p == "~"@ {
        home
    } else {
        p
    }
}

/// Expand a leading `~/`, or a `~` that stands alone, as a shell does it.
///
/// The daemon is started with the root as its working directory, where an
/// unexpanded `~` would name a directory of that name.
pub fn expand_home(p: &str, home: &str) -> (r: String)
    ensures
        r@ == expanded(p@, home@),
{
    if starts_with(p, "~/") {
        proof {
            reveal_strlit("~/");
        }
        let rest = after(p, 2);
        concat3(home, "/", rest.as_str())
    } else if same(p, "~") {
        home.to_owned()
    } else {
        p.to_owned()
    }
}

/// `path` is the directory `h`, or lies below it.
pub open spec fn lies_in(path: Seq<char>, h: Seq<char>) -> bool {
    h.is_prefix_of(path) && (path.len() == h.len() || path[h.len() as int] == '/')
}

/// `p` without the slashes it ends with.
pub open spec fn unslashed(p: Seq<char>) -> Seq<char>
    decreases p.len(),
{
    if p.len() > 0 && p.last() == '/' {
        unslashed(p.drop_last())
    } else {
        p
    }
}

/// `path` with `~` put for the home directory, where it lies in it. Slashes at
/// the end of the home directory do not matter.
pub open spec fn abbreviated(path: Seq<char>, home: Option<Seq<char>>) -> Seq<char> {
    match home {
        Some(h) => if lies_in(path, h) {
            "~"@ + path.skip(h.len() as int)
        } else if lies_in(path, unslashed(h)) {
            "~"@ + path.skip(unslashed(h).len() as int)
        } else {
            path
        },
        None => path,
    }
}

/// Whether `path` is the directory `h`, or lies below it.
fn is_in(path: &str, h: &str) -> (r: bool)
    ensures
        r == lies_in(path@, h@),
{
    let n: usize = h.unicode_len();
    starts_with(path, h) && (path.unicode_len() == n || path.get_char(n) == '/')
}

/// `p` without the slashes it ends with.
fn without_slashes(p: &str) -> (r: String)
    ensures
        r@ == unslashed(p@),
{
    let v = chars_of(p);
    let mut end: usize = v.len();
    assert(v@.take(end as int) =~= v@);
    while end > 0 && v[end - 1] == '/'
        invariant
            0 <= end <= v@.len(),
            unslashed(v@.take(end as int)) == unslashed(v@),
        decreases end,
    {
        assert(v@.take(end as int).drop_last() =~= v@.take(end - 1));
        end = end - 1;
    }
    let r = text_of(&v, 0, end);
    assert(r@ =~= v@.take(end as int));
    r
}

/// `path` with `~` put for the home directory, where it lies in it. A neighbour
/// whose name only begins like the home directory's stays as it is.
pub fn short_home(path: &str, home: Option<&str>) -> (r: String)
    ensures
        r@ == abbreviated(
            path@,
            match home {
                Some(h) => Some(h@),
                None => None,
            },
        ),
{
    match home {
        Some(h) => {
            if is_in(path, h) {
                let rest = after(path, h.unicode_len());
                return concat2("~", rest.as_str());
            }
            let h = without_slashes(h);
            if is_in(path, h.as_str()) {
                let rest = after(path, h.as_str().unicode_len());
                return concat2("~", rest.as_str());
            }
            path.to_owned()
        },
        None => path.to_owned(),
    }
}

// ---------------------------------------------------------------------------
// Extensions
// ---------------------------------------------------------------------------

/// `p` without the slashes it ends with, and without the parts `.` that follow a
/// slash at its end.
pub open spec fn bare(p: Seq<char>) -> Seq<char>
    decreases p.len(),
{
    if p.len() > 0 && (p.last() == '/' || (p.len() > 1 && p.last() == '.' && p[p.len() - 2]
        == '/')) {
        bare(p.drop_last())
    } else {
        p
    }
}

/// The last part of a path.
pub open spec fn last_part(p: Seq<char>) -> Seq<char> {
    tail_after(bare(p), '/')
}

/// A path ends in the name of a file, rather than in nothing, `.` or `..`.
pub open spec fn names_file(p: Seq<char>) -> bool {
    last_part(p).len() > 0 && last_part(p) != "."@ && last_part(p) != ".."@
}

/// The name of a file up to its last dot, or all of it where that dot is the
/// first character, or there is none.
pub open spec fn stem(name: Seq<char>) -> Seq<char> {
    let extension = tail_after(name, '.');
    if name.len() - extension.len() >= 2 {
        name.take(name.len() - extension.len() - 1)
    } else {
        name
    }
}

/// A path without the extension of the file that it names.
pub open spec fn unextended(p: Seq<char>) -> Seq<char> {
    bare(p).take(bare(p).len() - last_part(p).len()) + stem(last_part(p))
}

/// A path without the extension of the file that it names, if it names one.
pub fn without_extension(p: &str) -> (r: Option<String>)
    ensures
        r is Some <==> names_file(p@),
        r matches Some(s) ==> s@ == unextended(p@),
{
    let v = chars_of(p);
    let mut end: usize = v.len();
    assert(v@.take(end as int) =~= v@);
    while end > 0 && (v[end - 1] == '/' || (end > 1 && v[end - 1] == '.' && v[end - 2] == '/'))
        invariant
            0 <= end <= v@.len(),
            bare(v@.take(end as int)) == bare(v@),
        decreases end,
    {
        assert(v@.take(end as int).drop_last() =~= v@.take(end - 1));
        end = end - 1;
    }
    let whole = text_of(&v, 0, end);
    assert(whole@ =~= v@.take(end as int));
    let name = after_last(whole.as_str(), '/');
    let n: usize = name.as_str().unicode_len();
    if n == 0 || same(name.as_str(), ".") || same(name.as_str(), "..") {
        return None;
    }
    let extension = after_last(name.as_str(), '.');
    let e: usize = extension.as_str().unicode_len();
    proof {
        tail_is_suffix(whole@, '/');
        tail_is_suffix(name@, '.');
    }
    let front = text_of(&v, 0, end - n);
    assert(front@ =~= whole@.take(end - n));
    if n - e >= 2 {
        let c = chars_of(name.as_str());
        let kept = text_of(&c, 0, n - e - 1);
        assert(kept@ =~= stem(name@));
        Some(concat2(front.as_str(), kept.as_str()))
    } else {
        Some(concat2(front.as_str(), name.as_str()))
    }
}

// ---------------------------------------------------------------------------
// Laws
// ---------------------------------------------------------------------------

/// A path that begins with a slash is left as it is, so expanding below a home
/// directory that does is done once and for all.
pub proof fn expansion_is_final(p: Seq<char>, home: Seq<char>)
    requires
        home.len() > 0,
        home[0] == '/',
    ensures
        p.len() > 0 && p[0] == '/' ==> expanded(p, home) == p,
        expanded(expanded(p, home), home) == expanded(p, home),
{
    reveal_strlit("~/");
    reveal_strlit("~");
    let e = expanded(p, home);
    assert(e.len() > 0 && e[0] == '/' ==> !"~/"@.is_prefix_of(e) && e != "~"@) by {
        if "~/"@.is_prefix_of(e) {
            assert(e.subrange(0, 2)[0] == '~');
        }
    }
    assert(p.len() > 0 && p[0] == '/' ==> !"~/"@.is_prefix_of(p) && p != "~"@) by {
        if "~/"@.is_prefix_of(p) {
            assert(p.subrange(0, 2)[0] == '~');
        }
    }
    if e == p {
    } else {
        assert(e[0] == '/');
    }
}

/// Abbreviating a path that was expanded gives back what was written.
pub proof fn abbreviation_undoes_expansion(rest: Seq<char>, home: Seq<char>)
    ensures
        abbreviated(expanded("~/"@ + rest, home), Some(home)) == "~/"@ + rest,
{
    reveal_strlit("~/");
    reveal_strlit("~");
    reveal_strlit("/");
    let p = "~/"@ + rest;
    assert(p.subrange(0, 2) =~= "~/"@);
    assert(p.skip(2) =~= rest);
    let e = home + "/"@ + rest;
    assert(e.subrange(0, home.len() as int) =~= home);
    assert("~"@ + e.skip(home.len() as int) =~= p);
}

/// The home directory itself is shown as `~`, and a path that does not lie in it
/// as it is.
pub proof fn only_home_is_abbreviated(path: Seq<char>, home: Seq<char>)
    ensures
        abbreviated(home, Some(home)) == "~"@,
        !lies_in(path, home) && !lies_in(path, unslashed(home)) ==> abbreviated(path, Some(home))
            == path,
{
    assert(home.subrange(0, home.len() as int) =~= home);
    assert("~"@ + home.skip(home.len() as int) =~= "~"@);
}

/// A path below the home directory is shown below `~`, whether or not the home
/// directory is written with a slash at its end.
pub proof fn slash_at_home_does_not_matter(dir: Seq<char>, rest: Seq<char>)
    requires
        dir.len() > 0 ==> dir.last() != '/',
        rest.len() > 0,
        rest[0] != '/',
    ensures
        abbreviated(dir + "/"@ + rest, Some(dir)) == "~/"@ + rest,
        abbreviated(dir + "/"@ + rest, Some(dir + "/"@)) == "~/"@ + rest,
{
    reveal_strlit("/");
    reveal_strlit("~");
    reveal_strlit("~/");
    let path = dir + "/"@ + rest;
    let home = dir + "/"@;
    assert(home.drop_last() =~= dir);
    assert(unslashed(dir) == dir);
    assert(unslashed(home) == dir);
    assert(path.subrange(0, dir.len() as int) =~= dir);
    assert("~"@ + path.skip(dir.len() as int) =~= "~/"@ + rest);
    assert(!lies_in(path, home));
}

/// A `~` that stands alone or before a slash is the home directory, and nothing
/// else is changed.
pub proof fn tilde_is_home(p: &str, home: &str, r: String)
    requires
        call_ensures(expand_home, (p, home), r),
    ensures
        p@ == seq!['~'] ==> r@ == home@,
        p@.len() >= 2 && p@[0] == '~' && p@[1] == '/' ==> r@ == home@ + seq!['/'] + p@.skip(2),
        p@ != seq!['~'] && !(p@.len() >= 2 && p@[0] == '~' && p@[1] == '/') ==> r@ == p@,
{
    reveal_strlit("~");
    reveal_strlit("~/");
    reveal_strlit("/");
    assert("~"@ =~= seq!['~']);
    assert("/"@ =~= seq!['/']);
    if p@.len() >= 2 && p@[0] == '~' && p@[1] == '/' {
        assert(p@.subrange(0, 2) =~= "~/"@);
    }
    if "~/"@.is_prefix_of(p@) {
        assert(p@.subrange(0, 2)[0] == '~' && p@.subrange(0, 2)[1] == '/');
    }
}

/// The home directory is shown as `~` and what lies below it as that and the rest;
/// everything else stays, as does everything where no home directory is known.
pub proof fn home_is_shown_as_tilde(
    path: &str,
    home: &str,
    rest: Seq<char>,
    r: String,
    unknown: String,
)
    requires
        home@.len() > 0,
        home@.last() != '/',
        call_ensures(short_home, (path, Some(home)), r),
        call_ensures(short_home, (path, None), unknown),
    ensures
        path@ == home@ ==> r@ == seq!['~'],
        path@ == home@ + seq!['/'] + rest ==> r@ == seq!['~', '/'] + rest,
        path@.len() < home@.len() || path@.take(home@.len() as int) != home@ ==> r@ == path@,
        path@.len() > home@.len() && path@[home@.len() as int] != '/' ==> r@ == path@,
        unknown@ == path@,
{
    reveal_strlit("~");
    let n = home@.len() as int;
    assert("~"@ =~= seq!['~']);
    assert(unslashed(home@) == home@);
    if path@ == home@ {
        assert(path@.subrange(0, n) =~= home@);
        assert(r@ =~= seq!['~']);
    }
    if path@ == home@ + seq!['/'] + rest {
        assert(path@.subrange(0, n) =~= home@);
        assert(r@ =~= seq!['~', '/'] + rest);
    }
    if path@.len() >= n {
        assert(path@.take(n) =~= path@.subrange(0, n));
    }
}

/// A path below another is written with one slash between, whether or not the
/// other ends in one; one that begins with a slash stands for itself.
pub proof fn joining_puts_one_slash(
    base: &str,
    slashed: &str,
    rel: &str,
    r: String,
    q: String,
)
    requires
        base@.len() > 0,
        base@.last() != '/',
        slashed@ == base@ + seq!['/'],
        call_ensures(join_path, (base, rel), r),
        call_ensures(join_path, (slashed, rel), q),
    ensures
        rel@.len() > 0 && rel@[0] == '/' ==> r@ == rel@ && q@ == rel@,
        !(rel@.len() > 0 && rel@[0] == '/') ==> r@ == base@ + seq!['/'] + rel@ && q@ == r@,
{
    reveal_strlit("/");
    assert("/"@ =~= seq!['/']);
}

/// The home directory is what the environment names, and `/tmp` where it names
/// none.
pub proof fn home_is_named(var: Option<String>, r: String)
    requires
        call_ensures(home, (var,), r),
    ensures
        var is Some ==> r@ == var->0@,
        var is None ==> r@ == "/tmp"@,
{
}

/// Below no path at all, a path is itself.
pub proof fn joining_to_nothing(base: &str, rel: &str, r: String)
    requires
        base@.len() == 0,
        call_ensures(join_path, (base, rel), r),
    ensures
        r@ == rel@,
{
    assert(base@ + rel@ =~= rel@);
}

} // verus!
