//! Text, character by character: comparing, searching, trimming, splitting
//! into words and writing numbers.

use vstd::prelude::*;

verus! {

// ---------------------------------------------------------------------------
// Building
// ---------------------------------------------------------------------------

/// `String::push` appends one character and changes nothing else.
pub assume_specification[ String::push ](s: &mut String, c: char)
    ensures
        final(s)@ == old(s)@.push(c),
;

/// The characters of `s`, in order.
pub fn chars_of(s: &str) -> (v: Vec<char>)
    ensures
        v@ == s@,
{
    let mut v: Vec<char> = Vec::new();
    for c in it: s.chars()
        invariant
            v@ == s@.take(it.index() as int),
            it.seq() == s@,
    {
        v.push(c);
        assert(s@.take(it.index() + 1) =~= s@.take(it.index() as int).push(c));
    }
    assert(s@.take(s@.len() as int) =~= s@);
    v
}

/// The characters `from..to` of `v` as a text.
pub fn text_of(v: &Vec<char>, from: usize, to: usize) -> (s: String)
    requires
        from <= to <= v@.len(),
    ensures
        s@ == v@.subrange(from as int, to as int),
{
    let mut s = String::new();
    let mut i: usize = from;
    while i < to
        invariant
            from <= i <= to <= v@.len(),
            s@ == v@.subrange(from as int, i as int),
        decreases to - i,
    {
        s.push(v[i]);
        assert(v@.subrange(from as int, i + 1) =~= v@.subrange(from as int, i as int).push(v@[i as int]));
        i = i + 1;
    }
    s
}

/// `a` followed by `b`.
pub fn concat2(a: &str, b: &str) -> (s: String)
    ensures
        s@ == a@ + b@,
{
    let mut s = a.to_owned();
    s.append(b);
    s
}

/// `a` followed by `b` followed by `c`.
pub fn concat3(a: &str, b: &str, c: &str) -> (s: String)
    ensures
        s@ == a@ + b@ + c@,
{
    let mut s = a.to_owned();
    s.append(b);
    s.append(c);
    s
}

/// The characters of an optional text.
pub open spec fn opt(o: Option<String>) -> Option<Seq<char>> {
    match o {
        Some(s) => Some(s@),
        None => None,
    }
}

/// The characters of each of several texts.
pub open spec fn each(v: Seq<String>) -> Seq<Seq<char>> {
    v.map_values(|s: String| s@)
}

/// A copy of an optional text.
pub fn copied(o: &Option<String>) -> (r: Option<String>)
    ensures
        r == *o,
{
    match o {
        Some(s) => Some(s.clone()),
        None => None,
    }
}

/// `first` where there is one, else `second`.
pub fn or_else(first: &Option<String>, second: &Option<String>) -> (r: Option<String>)
    ensures
        r == (if first is Some { *first } else { *second }),
{
    match first {
        Some(s) => Some(s.clone()),
        None => copied(second),
    }
}

// ---------------------------------------------------------------------------
// Comparing and searching
// ---------------------------------------------------------------------------

/// Whether two texts hold the same characters.
pub fn same(a: &str, b: &str) -> (r: bool)
    ensures
        r == (a@ == b@),
{
    a.to_owned() == b.to_owned()
}

/// Whether two optional texts are both absent, or both present and the same.
pub fn same_opt(a: &Option<String>, b: &Option<String>) -> (r: bool)
    ensures
        r == (opt(*a) == opt(*b)),
{
    match (a, b) {
        (Some(x), Some(y)) => same(x.as_str(), y.as_str()),
        (None, None) => true,
        _ => false,
    }
}

/// Whether `needle` stands in `v` at position `at`.
fn matches_at(v: &Vec<char>, needle: &Vec<char>, at: usize) -> (r: bool)
    requires
        at + needle@.len() <= v@.len(),
    ensures
        r == (v@.subrange(at as int, at + needle@.len()) == needle@),
{
    let mut i: usize = 0;
    while i < needle.len()
        invariant
            0 <= i <= needle@.len(),
            at + needle.len() <= v.len(),
            forall|k: int| 0 <= k < i ==> v@[at + k] == needle@[k],
        decreases needle@.len() - i,
    {
        if v[at + i] != needle[i] {
            assert(v@.subrange(at as int, at + needle@.len())[i as int] != needle@[i as int]);
            return false;
        }
        i = i + 1;
    }
    assert(v@.subrange(at as int, at + needle@.len()) =~= needle@);
    true
}

/// `needle` occurs somewhere in `s`.
pub open spec fn has(s: Seq<char>, needle: Seq<char>) -> bool {
    exists|i: int|
        0 <= i <= s.len() - needle.len() && #[trigger] s.subrange(i, i + needle.len()) == needle
}

/// Whether `needle` occurs somewhere in `s`.
pub fn contains(s: &str, needle: &str) -> (r: bool)
    ensures
        r == has(s@, needle@),
{
    let v = chars_of(s);
    let n = chars_of(needle);
    if n.len() > v.len() {
        return false;
    }
    let last: usize = v.len() - n.len();
    let mut i: usize = 0;
    while i <= last
        invariant
            v@ == s@,
            n@ == needle@,
            last == v@.len() - n@.len(),
            0 <= i <= last + 1,
            forall|k: int| 0 <= k < i ==> #[trigger] v@.subrange(k, k + n@.len()) != n@,
        decreases last + 1 - i,
    {
        if matches_at(&v, &n, i) {
            return true;
        }
        if i == last {
            return false;
        }
        i = i + 1;
    }
    false
}

/// Whether `s` begins with `p`.
pub fn starts_with(s: &str, p: &str) -> (r: bool)
    ensures
        r == p@.is_prefix_of(s@),
{
    let v = chars_of(s);
    let n = chars_of(p);
    if n.len() > v.len() {
        return false;
    }
    matches_at(&v, &n, 0)
}

/// Whether `s` ends with `p`.
pub fn ends_with(s: &str, p: &str) -> (r: bool)
    ensures
        r == p@.is_suffix_of(s@),
{
    let v = chars_of(s);
    let n = chars_of(p);
    if n.len() > v.len() {
        return false;
    }
    assert(v@.subrange(v@.len() - n@.len(), v@.len() - n@.len() + n@.len()) =~= v@.subrange(
        v@.len() - n@.len(),
        v@.len() as int,
    ));
    matches_at(&v, &n, v.len() - n.len())
}

/// What follows the first `n` characters of `s`.
pub fn after(s: &str, n: usize) -> (r: String)
    requires
        n <= s@.len(),
    ensures
        r@ == s@.skip(n as int),
{
    let v = chars_of(s);
    let r = text_of(&v, n, v.len());
    assert(r@ =~= s@.skip(n as int));
    r
}

/// `s` with every copy of `suffix` at its end taken off.
pub open spec fn strip_all(s: Seq<char>, suffix: Seq<char>) -> Seq<char>
    decreases s.len(),
{
    if suffix.len() > 0 && suffix.is_suffix_of(s) {
        strip_all(s.take(s.len() - suffix.len()), suffix)
    } else {
        s
    }
}

/// `s` with every copy of `suffix` at its end taken off.
pub fn trim_end_matches(s: &str, suffix: &str) -> (r: String)
    ensures
        r@ == strip_all(s@, suffix@),
{
    let v = chars_of(s);
    let n = chars_of(suffix);
    if n.len() == 0 {
        return s.to_owned();
    }
    let mut end: usize = v.len();
    assert(v@.take(end as int) =~= v@);
    while end >= n.len() && matches_at(&v, &n, end - n.len())
        invariant
            v@ == s@,
            n@ == suffix@,
            n@.len() > 0,
            end <= v@.len(),
            strip_all(v@.take(end as int), n@) == strip_all(v@, n@),
        decreases end,
    {
        assert(v@.subrange(end - n@.len(), end as int) =~= v@.take(end as int).subrange(
            end - n@.len(),
            end as int,
        ));
        assert(v@.take(end as int).take(end - n@.len()) =~= v@.take(end - n@.len()));
        end = end - n.len();
    }
    proof {
        if end >= n@.len() {
            assert(v@.subrange(end - n@.len(), end as int) =~= v@.take(end as int).subrange(
                end - n@.len(),
                end as int,
            ));
        }
        assert(v@.subrange(0, end as int) =~= v@.take(end as int));
    }
    text_of(&v, 0, end)
}

/// The part of `s` behind the last `sep`, or all of it where there is none.
pub open spec fn tail_after(s: Seq<char>, sep: char) -> Seq<char>
    decreases s.len(),
{
    if s.len() == 0 || s.last() == sep {
        seq![]
    } else {
        tail_after(s.drop_last(), sep).push(s.last())
    }
}

/// The part of `s` behind the last `sep`, or all of it where there is none.
pub fn after_last(s: &str, sep: char) -> (r: String)
    ensures
        r@ == tail_after(s@, sep),
{
    let v = chars_of(s);
    let mut start: usize = v.len();
    while start > 0 && v[start - 1] != sep
        invariant
            0 <= start <= v@.len(),
            forall|k: int| start <= k < v@.len() ==> v@[k] != sep,
        decreases start,
    {
        start = start - 1;
    }
    proof {
        lemma_tail_after(v@, sep, start as int);
    }
    text_of(&v, start, v.len())
}

/// The part behind the last `sep` stands at the end.
pub proof fn tail_is_suffix(s: Seq<char>, sep: char)
    ensures
        tail_after(s, sep).len() <= s.len(),
        tail_after(s, sep) == s.skip(s.len() - tail_after(s, sep).len()),
    decreases s.len(),
{
    let t = tail_after(s, sep);
    if s.len() == 0 || s.last() == sep {
        assert(t =~= s.skip(s.len() as int));
    } else {
        tail_is_suffix(s.drop_last(), sep);
        assert(t =~= s.skip(s.len() - t.len()));
    }
}

proof fn lemma_tail_after(s: Seq<char>, sep: char, start: int)
    requires
        0 <= start <= s.len(),
        start == 0 || s[start - 1] == sep,
        forall|k: int| start <= k < s.len() ==> s[k] != sep,
    ensures
        tail_after(s, sep) == s.subrange(start, s.len() as int),
    decreases s.len(),
{
    if s.len() == start {
        assert(s.subrange(start, s.len() as int) =~= seq![]);
    } else {
        lemma_tail_after(s.drop_last(), sep, start);
        assert(s.subrange(start, s.len() as int) =~= s.drop_last().subrange(
            start,
            s.len() - 1,
        ).push(s.last()));
    }
}

// ---------------------------------------------------------------------------
// White space, words and trimming
// ---------------------------------------------------------------------------

/// The characters with the Unicode property White_Space.
pub open spec fn white(c: char) -> bool {
    let n = c as u32;
    ||| 0x9 <= n <= 0xD
    ||| n == 0x20
    ||| n == 0x85
    ||| n == 0xA0
    ||| n == 0x1680
    ||| 0x2000 <= n <= 0x200A
    ||| n == 0x2028
    ||| n == 0x2029
    ||| n == 0x202F
    ||| n == 0x205F
    ||| n == 0x3000
}

/// Whether `c` is white space.
pub fn is_white(c: char) -> (r: bool)
    ensures
        r == white(c),
{
    let n: u32 = c as u32;
    (0x9 <= n && n <= 0xD) || n == 0x20 || n == 0x85 || n == 0xA0 || n == 0x1680 || (0x2000 <= n
        && n <= 0x200A) || n == 0x2028 || n == 0x2029 || n == 0x202F || n == 0x205F || n == 0x3000
}

/// `s` without the white space it begins with.
pub open spec fn trim_start(s: Seq<char>) -> Seq<char>
    decreases s.len(),
{
    if s.len() > 0 && white(s[0]) {
        trim_start(s.skip(1))
    } else {
        s
    }
}

/// `s` without the white space it ends with.
pub open spec fn trim_end(s: Seq<char>) -> Seq<char>
    decreases s.len(),
{
    if s.len() > 0 && white(s.last()) {
        trim_end(s.drop_last())
    } else {
        s
    }
}

/// `s` without the white space at its two ends.
pub open spec fn trimmed(s: Seq<char>) -> Seq<char> {
    trim_end(trim_start(s))
}

/// `s` without the white space at its two ends.
pub fn trim(s: &str) -> (r: String)
    ensures
        r@ == trimmed(s@),
{
    let v = chars_of(s);
    let mut i: usize = 0;
    assert(v@.skip(0) =~= v@);
    while i < v.len() && is_white(v[i])
        invariant
            0 <= i <= v@.len(),
            trim_start(v@.skip(i as int)) == trim_start(v@),
        decreases v@.len() - i,
    {
        assert(v@.skip(i as int).skip(1) =~= v@.skip(i + 1));
        i = i + 1;
    }
    assert(trim_start(v@) == v@.skip(i as int));
    let mut j: usize = v.len();
    assert(v@.subrange(i as int, j as int) =~= v@.skip(i as int));
    while j > i && is_white(v[j - 1])
        invariant
            0 <= i <= j <= v@.len(),
            trim_end(v@.subrange(i as int, j as int)) == trim_end(v@.skip(i as int)),
        decreases j,
    {
        assert(v@.subrange(i as int, j as int).drop_last() =~= v@.subrange(i as int, j - 1));
        j = j - 1;
    }
    text_of(&v, i, j)
}

/// The words with one `glue` between each two neighbours.
pub open spec fn joined(words: Seq<Seq<char>>, glue: Seq<char>) -> Seq<char>
    decreases words.len(),
{
    if words.len() == 0 {
        seq![]
    } else if words.len() == 1 {
        words[0]
    } else {
        joined(words.drop_last(), glue) + glue + words.last()
    }
}

/// The texts with one `glue` between each two neighbours.
pub fn join(parts: &Vec<String>, glue: &str) -> (s: String)
    ensures
        s@ == joined(each(parts@), glue@),
{
    let mut s = String::new();
    let mut i: usize = 0;
    let ghost all = each(parts@);
    while i < parts.len()
        invariant
            0 <= i <= parts@.len(),
            all == each(parts@),
            s@ == joined(all.take(i as int), glue@),
        decreases parts@.len() - i,
    {
        if i > 0 {
            s.append(glue);
        }
        s.append(parts[i].as_str());
        proof {
            assert(all.take(i + 1).drop_last() =~= all.take(i as int));
            if i == 0 {
                assert(all.take(1)[0] == all[0]);
                assert(s@ =~= all[0]);
            }
        }
        i = i + 1;
    }
    assert(all.take(parts@.len() as int) =~= all);
    s
}

// ---------------------------------------------------------------------------
// Numbers
// ---------------------------------------------------------------------------

/// The character of a decimal digit.
pub open spec fn digit(d: int) -> char {
    (48 + d) as u8 as char
}

/// A natural number in decimal, without leading zeros.
pub open spec fn decimal(n: nat) -> Seq<char>
    decreases n,
{
    if n < 10 {
        seq![digit(n as int)]
    } else {
        decimal(n / 10).push(digit((n % 10) as int))
    }
}

/// An integer in decimal, with a minus sign where it is negative.
pub open spec fn signed_decimal(n: int) -> Seq<char> {
    if n < 0 {
        "-"@ + decimal((-n) as nat)
    } else {
        decimal(n as nat)
    }
}

/// `n` in decimal.
pub fn number(n: u128) -> (s: String)
    ensures
        s@ == decimal(n as nat),
    decreases n,
{
    let d: u8 = 48 + (n % 10) as u8;
    let mut s = if n < 10 {
        String::new()
    } else {
        number(n / 10)
    };
    s.push(d as char);
    assert(s@ =~= decimal(n as nat));
    s
}

/// `n` in decimal, with a minus sign where it is negative.
pub fn signed_number(n: i64) -> (s: String)
    ensures
        s@ == signed_decimal(n as int),
{
    if n < 0 {
        if n == i64::MIN {
            let m = number(9223372036854775808);
            concat2("-", m.as_str())
        } else {
            let m = number((-n) as u128);
            concat2("-", m.as_str())
        }
    } else {
        number(n as u128)
    }
}

// ---------------------------------------------------------------------------
// Laws
// ---------------------------------------------------------------------------

/// The part behind the last `sep` holds none, and one stands before it where it is
/// not the whole.
pub proof fn tail_has_no_separator(s: Seq<char>, sep: char)
    ensures
        forall|i: int| 0 <= i < tail_after(s, sep).len() ==> tail_after(s, sep)[i] != sep,
        tail_after(s, sep).len() < s.len() ==> s[s.len() - tail_after(s, sep).len() - 1] == sep,
    decreases s.len(),
{
    if s.len() > 0 && s.last() != sep {
        tail_has_no_separator(s.drop_last(), sep);
        tail_is_suffix(s.drop_last(), sep);
    }
}

/// White space is the space and the tab, what ends a line or a page, and the spaces
/// of several widths that Unicode has besides.
pub proof fn white_space_is_unicode(c: char, r: bool)
    requires
        call_ensures(is_white, (c,), r),
    ensures
        r == white(c),
        (c as u32) < 128 ==> (r <==> c == ' ' || c == '\t' || c == '\n' || c == '\r' || c == '\u{b}'
            || c == '\u{c}'),
        (c as u32) >= 128 ==> (r <==> c == '\u{85}' || c == '\u{a0}' || c == '\u{1680}' || ('\u{2000}'
            <= c && c <= '\u{200a}') || c == '\u{2028}' || c == '\u{2029}' || c == '\u{202f}' || c
            == '\u{205f}' || c == '\u{3000}'),
{
}

/// The characters of an optional text are there just where the text is, and of
/// several texts each keeps its place.
pub proof fn views_keep_what_is_there(o: Option<String>, v: Seq<String>, i: int)
    ensures
        opt(o) is Some <==> o is Some,
        o is Some ==> opt(o)->0 == o->0@,
        each(v).len() == v.len(),
        0 <= i < v.len() ==> each(v)[i] == v[i]@,
{
}

/// Texts are the same just where their characters are, and an absent one is the
/// same as an absent one alone.
pub proof fn sameness_is_by_character(
    a: &str,
    b: &str,
    r: bool,
    x: &Option<String>,
    y: &Option<String>,
    q: bool,
)
    requires
        call_ensures(same, (a, b), r),
        call_ensures(same_opt, (x, y), q),
    ensures
        r <==> a@ == b@,
        q <==> (x is None && y is None) || (x is Some && y is Some && x->0@ == y->0@),
{
}

proof fn lemma_trim_start(s: Seq<char>) -> (i: int)
    ensures
        0 <= i <= s.len(),
        trim_start(s) == s.skip(i),
        forall|k: int| 0 <= k < i ==> white(#[trigger] s[k]),
        i < s.len() ==> !white(s[i]),
    decreases s.len(),
{
    if s.len() > 0 && white(s[0]) {
        let j = lemma_trim_start(s.skip(1));
        assert(s.skip(1).skip(j) =~= s.skip(j + 1));
        assert forall|k: int| 0 <= k < j + 1 implies white(#[trigger] s[k]) by {
            if k > 0 {
                assert(s.skip(1)[k - 1] == s[k]);
            }
        }
        if j + 1 < s.len() {
            assert(s.skip(1)[j] == s[j + 1]);
        }
        j + 1
    } else {
        assert(s.skip(0) =~= s);
        0
    }
}

proof fn lemma_trim_end(s: Seq<char>) -> (j: int)
    ensures
        0 <= j <= s.len(),
        trim_end(s) == s.take(j),
        forall|k: int| j <= k < s.len() ==> white(#[trigger] s[k]),
        j > 0 ==> !white(s[j - 1]),
    decreases s.len(),
{
    if s.len() > 0 && white(s.last()) {
        let j = lemma_trim_end(s.drop_last());
        assert(s.drop_last().take(j) =~= s.take(j));
        assert forall|k: int| j <= k < s.len() implies white(#[trigger] s[k]) by {
            if k < s.len() - 1 {
                assert(s.drop_last()[k] == s[k]);
            }
        }
        j
    } else {
        assert(s.take(s.len() as int) =~= s);
        s.len() as int
    }
}

/// Trimming takes white space off the two ends, all of it, and nothing else.
pub proof fn trimming_takes_the_ends(s: &str, r: String) -> (span: (int, int))
    requires
        call_ensures(trim, (s,), r),
    ensures
        0 <= span.0 <= span.1 <= s@.len(),
        r@ == s@.subrange(span.0, span.1),
        forall|k: int| 0 <= k < span.0 || span.1 <= k < s@.len() ==> white(#[trigger] s@[k]),
        r@.len() > 0 ==> !white(r@[0]) && !white(r@.last()),
{
    let i = lemma_trim_start(s@);
    let t = s@.skip(i);
    let j = lemma_trim_end(t);
    assert(t.take(j) =~= s@.subrange(i, i + j));
    assert forall|k: int| 0 <= k < i || i + j <= k < s@.len() implies white(#[trigger] s@[k]) by {
        if k >= i + j {
            assert(t[k - i] == s@[k]);
        }
    }
    if j > 0 {
        assert(t[0] == s@[i]);
    }
    (i, i + j)
}

/// The number that decimal digits stand for.
pub open spec fn numeral(s: Seq<char>) -> int
    decreases s.len(),
{
    if s.len() == 0 {
        0
    } else {
        numeral(s.drop_last()) * 10 + (s.last() as int - '0' as int)
    }
}

/// A number is written in decimal digits that stand for it, without a zero in
/// front.
pub proof fn number_is_decimal(n: u128, s: String)
    requires
        call_ensures(number, (n,), s),
    ensures
        s@.len() > 0,
        forall|i: int| 0 <= i < s@.len() ==> '0' <= #[trigger] s@[i] <= '9',
        numeral(s@) == n,
        s@[0] == '0' ==> s@.len() == 1,
{
    lemma_decimal(n as nat);
}

proof fn lemma_decimal(n: nat)
    ensures
        decimal(n).len() > 0,
        forall|i: int| 0 <= i < decimal(n).len() ==> '0' <= #[trigger] decimal(n)[i] <= '9',
        numeral(decimal(n)) == n,
        decimal(n)[0] == '0' ==> n == 0 && decimal(n).len() == 1,
    decreases n,
{
    let d = decimal(n);
    if n < 10 {
        assert(d.drop_last() =~= seq![]);
        assert(numeral(d.drop_last()) == 0);
    } else {
        lemma_decimal(n / 10);
        assert(d.drop_last() =~= decimal(n / 10));
        assert forall|i: int| 0 <= i < d.len() implies '0' <= #[trigger] d[i] <= '9' by {
            if i < d.len() - 1 {
                assert(d[i] == decimal(n / 10)[i]);
            }
        }
        assert(d[0] == decimal(n / 10)[0]);
    }
}

/// A negative number is written as a minus sign and the number without it.
pub proof fn negative_has_a_sign(n: i64, m: u128, s: String, t: String)
    requires
        call_ensures(signed_number, (n,), s),
        m == (if n < 0 {
            -n
        } else {
            n as int
        }),
        call_ensures(number, (m,), t),
    ensures
        n >= 0 ==> s@ == t@,
        n < 0 ==> s@ == seq!['-'] + t@,
{
    reveal_strlit("-");
    assert("-"@ =~= seq!['-']);
}

/// A text stands at the front of another, or at its end, just where the other is
/// that text and something behind it, or before it.
pub proof fn ends_are_parts(s: &str, p: &str, front: bool, end: bool, other: Seq<char>)
    requires
        call_ensures(starts_with, (s, p), front),
        call_ensures(ends_with, (s, p), end),
    ensures
        s@ == p@ + other ==> front,
        s@ == other + p@ ==> end,
        front ==> s@ == p@ + s@.skip(p@.len() as int),
        end ==> s@ == s@.take(s@.len() - p@.len()) + p@,
{
    let n = p@.len() as int;
    assert(s@ == p@ + other ==> front) by {
        if s@ == p@ + other {
            assert(s@.subrange(0, n) =~= p@);
        }
    }
    assert(s@ == other + p@ ==> end) by {
        if s@ == other + p@ {
            assert(s@.subrange(s@.len() - n, s@.len() as int) =~= p@);
        }
    }
    assert(front ==> s@ == p@ + s@.skip(n)) by {
        if front {
            assert(s@ =~= s@.subrange(0, n) + s@.skip(n));
        }
    }
    assert(end ==> s@ == s@.take(s@.len() - n) + p@) by {
        if end {
            assert(s@ =~= s@.take(s@.len() - n) + s@.subrange(s@.len() - n, s@.len() as int));
        }
    }
}

/// A text that is something, then a part, then something, holds that part.
pub proof fn part_is_found(s: &str, p: &str, inside: bool, before: Seq<char>, behind: Seq<char>)
    requires
        call_ensures(contains, (s, p), inside),
        s@ == before + p@ + behind,
    ensures
        inside,
{
    let i = before.len() as int;
    assert(s@.subrange(i, i + p@.len()) =~= p@);
}

/// A text that holds a part is something, then that part, then something.
pub proof fn found_is_a_part(s: &str, p: &str, inside: bool) -> (around: (Seq<char>, Seq<char>))
    requires
        call_ensures(contains, (s, p), inside),
        inside,
    ensures
        s@ == around.0 + p@ + around.1,
{
    let n = p@.len() as int;
    let i = choose|i: int| 0 <= i <= s@.len() - n && #[trigger] s@.subrange(i, i + n) == p@;
    assert(s@ =~= s@.take(i) + s@.subrange(i, i + n) + s@.skip(i + n));
    (s@.take(i), s@.skip(i + n))
}

/// Nothing joined is nothing, one text joined is itself, and one more text comes
/// behind the others and the glue.
pub proof fn joining_appends(
    few: &Vec<String>,
    more: &Vec<String>,
    glue: &str,
    a: String,
    b: String,
)
    requires
        call_ensures(join, (few, glue), a),
        call_ensures(join, (more, glue), b),
        more@.len() > 0,
        few@ == more@.drop_last(),
    ensures
        few@.len() == 0 ==> a@.len() == 0 && b@ == more@[0]@,
        few@.len() > 0 ==> b@ == a@ + glue@ + more@.last()@,
{
    assert(each(more@).drop_last() =~= each(few@));
}

} // verus!
