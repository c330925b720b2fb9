//! Text helpers shared by the naming rules: character classes, trimming,
//! decimal numbers, ASCII case folding.

use vstd::prelude::*;

verus! {

/// What `char::is_whitespace` says of `c`: the Unicode White_Space
/// property, held by U+0009 to U+000D, U+0020, U+0085, U+00A0, U+1680,
/// U+2000 to U+200A, U+2028, U+2029, U+202F, U+205F and U+3000.
pub open spec fn is_white(c: char) -> bool {
    let n = c as u32;
    ||| 0x09 <= n <= 0x0d
    ||| n == 0x20
    ||| n == 0x85
    ||| n == 0xa0
    ||| n == 0x1680
    ||| 0x2000 <= n <= 0x200a
    ||| n == 0x2028
    ||| n == 0x2029
    ||| n == 0x202f
    ||| n == 0x205f
    ||| n == 0x3000
}

/// An ASCII letter or digit.
pub open spec fn is_ascii_alnum(c: char) -> bool {
    ('a' <= c && c <= 'z') || ('A' <= c && c <= 'Z') || ('0' <= c && c <= '9')
}

/// Whether `char::is_alphanumeric` holds of a character beyond ASCII that
/// is not white space: whether it has the Unicode Alphabetic or Numeric
/// property.
pub uninterp spec fn alnum_beyond_ascii(c: char) -> bool;

/// What `char::is_alphanumeric` says of `c` (Unicode Alphabetic or
/// Numeric): among ASCII characters the letters and digits; no white space
/// character; beyond those, the Unicode tables decide.
pub open spec fn is_alnum(c: char) -> bool {
    if (c as u32) < 128 {
        is_ascii_alnum(c)
    } else if is_white(c) {
        false
    } else {
        alnum_beyond_ascii(c)
    }
}

/// Whether `c` is white space in Unicode's sense, the set
/// `char::is_whitespace` tests.
pub(crate) fn char_is_whitespace(c: char) -> (r: bool)
    ensures
        r == is_white(c),
{
    let n = c as u32;
    (0x09 <= n && n <= 0x0d) || n == 0x20 || n == 0x85 || n == 0xa0 || n == 0x1680 || (0x2000
        <= n && n <= 0x200a) || n == 0x2028 || n == 0x2029 || n == 0x202f || n == 0x205f || n
        == 0x3000
}

/// `char::is_alphanumeric`: whether the character has the Unicode
/// Alphabetic or Numeric property. Among ASCII characters those are the
/// letters and digits; no white space character has either property.
/// Beyond that the result is a fixed property of the character, named
/// `alnum_beyond_ascii`.
#[verifier::external_body]
pub(crate) fn char_is_alphanumeric(c: char) -> (r: bool)
    ensures
        r == is_alnum(c),
        (c as u32) >= 128 && !is_white(c) ==> r == alnum_beyond_ascii(c),
{
    c.is_alphanumeric()
}

/// `String::push`: appends one character.
#[verifier::external_body]
pub(crate) fn push_char(s: &mut String, c: char)
    ensures
        final(s)@ == old(s)@.push(c),
{
    s.push(c);
}

/// The decimal digit character for `d` in 0..10.
pub open spec fn digit_char(d: nat) -> char {
    if d == 0 {
        '0'
    } else if d == 1 {
        '1'
    } else if d == 2 {
        '2'
    } else if d == 3 {
        '3'
    } else if d == 4 {
        '4'
    } else if d == 5 {
        '5'
    } else if d == 6 {
        '6'
    } else if d == 7 {
        '7'
    } else if d == 8 {
        '8'
    } else {
        '9'
    }
}

/// The decimal representation of `n`, most significant digit first, with
/// no leading zeros ("0" for zero).
pub open spec fn decimal(n: nat) -> Seq<char>
    decreases n,
{
    if n < 10 {
        seq![digit_char(n)]
    } else {
        decimal(n / 10).push(digit_char(n % 10))
    }
}

/// The digit character for `d` (below ten).
fn digit(d: usize) -> (r: char)
    requires
        d < 10,
    ensures
        r == digit_char(d as nat),
{
    if d == 0 {
        '0'
    } else if d == 1 {
        '1'
    } else if d == 2 {
        '2'
    } else if d == 3 {
        '3'
    } else if d == 4 {
        '4'
    } else if d == 5 {
        '5'
    } else if d == 6 {
        '6'
    } else if d == 7 {
        '7'
    } else if d == 8 {
        '8'
    } else {
        '9'
    }
}

/// Append the decimal digits of `n` to `s`.
fn push_decimal(s: &mut String, n: usize)
    ensures
        final(s)@ == old(s)@ + decimal(n as nat),
    decreases n,
{
    if n >= 10 {
        push_decimal(s, n / 10);
        push_char(s, digit(n % 10));
        proof {
            assert(old(s)@ + decimal(n as nat) =~= (old(s)@ + decimal((n / 10) as nat)).push(
                digit_char((n % 10) as nat),
            ));
        }
    } else {
        push_char(s, digit(n));
        proof {
            assert(old(s)@ + decimal(n as nat) =~= old(s)@.push(digit_char(n as nat)));
        }
    }
}

/// `n` written in decimal, as `usize`'s `to_string` writes it: no sign,
/// padding or leading zeros.
pub(crate) fn decimal_string(n: usize) -> (r: String)
    ensures
        r@ == decimal(n as nat),
{
    let mut s = String::new();
    push_decimal(&mut s, n);
    proof {
        assert(Seq::<char>::empty() + decimal(n as nat) =~= decimal(n as nat));
    }
    s
}

/// The characters of `s`, in order.
pub fn chars_of(s: &str) -> (r: Vec<char>)
    ensures
        r@ == s@,
{
    let n = s.unicode_len();
    let mut out: Vec<char> = Vec::new();
    let mut i: usize = 0;
    while i < n
        invariant
            n == s@.len(),
            i <= n,
            out@ == s@.take(i as int),
        decreases n - i,
    {
        let c = s.get_char(i);
        out.push(c);
        proof {
            assert(s@.take(i + 1) =~= s@.take(i as int).push(c));
        }
        i += 1;
    }
    proof {
        assert(s@.take(n as int) =~= s@);
    }
    out
}

/// A `String` holding exactly `cs[lo..hi]`.
pub fn string_of(cs: &Vec<char>, lo: usize, hi: usize) -> (r: String)
    requires
        lo <= hi <= cs.len(),
    ensures
        r@ == cs@.subrange(lo as int, hi as int),
{
    let mut out = String::new();
    let mut i = lo;
    while i < hi
        invariant
            lo <= i <= hi,
            hi <= cs.len(),
            out@ == cs@.subrange(lo as int, i as int),
        decreases hi - i,
    {
        push_char(&mut out, cs[i]);
        proof {
            assert(cs@.subrange(lo as int, i + 1) =~= cs@.subrange(lo as int, i as int).push(
                cs@[i as int],
            ));
        }
        i += 1;
    }
    out
}

/// `s` without its leading characters that satisfy `p`.
pub open spec fn strip_start(s: Seq<char>, p: spec_fn(char) -> bool) -> Seq<char>
    decreases s.len(),
{
    if s.len() > 0 && p(s[0]) {
        strip_start(s.drop_first(), p)
    } else {
        s
    }
}

/// `s` without its trailing characters that satisfy `p`.
pub open spec fn strip_end(s: Seq<char>, p: spec_fn(char) -> bool) -> Seq<char>
    decreases s.len(),
{
    if s.len() > 0 && p(s.last()) {
        strip_end(s.drop_last(), p)
    } else {
        s
    }
}

/// `s` without leading and trailing characters that satisfy `p`.
pub open spec fn strip(s: Seq<char>, p: spec_fn(char) -> bool) -> Seq<char> {
    strip_end(strip_start(s, p), p)
}

/// `s` without surrounding white space, as `str::trim` gives it.
pub open spec fn trimmed(s: Seq<char>) -> Seq<char> {
    strip(s, stripped_by(false))
}

/// `s` without surrounding double quotes, as `str::trim_matches('"')`
/// gives it.
pub open spec fn unquoted(s: Seq<char>) -> Seq<char> {
    strip(s, stripped_by(true))
}

pub(crate) proof fn lemma_strip_start_skip(s: Seq<char>, p: spec_fn(char) -> bool, i: int)
    requires
        0 <= i <= s.len(),
        forall|k: int| 0 <= k < i ==> p(s[k]),
    ensures
        strip_start(s, p) == strip_start(s.subrange(i, s.len() as int), p),
    decreases i,
{
    if i > 0 {
        assert(s.drop_first().subrange(i - 1, s.drop_first().len() as int) =~= s.subrange(
            i,
            s.len() as int,
        ));
        lemma_strip_start_skip(s.drop_first(), p, i - 1);
    } else {
        assert(s.subrange(0, s.len() as int) =~= s);
    }
}

proof fn lemma_strip_end_skip(s: Seq<char>, p: spec_fn(char) -> bool, j: int)
    requires
        0 <= j <= s.len(),
        forall|k: int| j <= k < s.len() ==> p(s[k]),
    ensures
        strip_end(s, p) == strip_end(s.subrange(0, j), p),
    decreases s.len() - j,
{
    if j < s.len() {
        assert(s.drop_last().subrange(0, j) =~= s.subrange(0, j));
        lemma_strip_end_skip(s.drop_last(), p, j);
    } else {
        assert(s.subrange(0, j) =~= s);
    }
}

/// What `strip_start` leaves is a suffix of `s` that does not start with a
/// stripped character.
pub(crate) proof fn lemma_strip_start_suffix(s: Seq<char>, p: spec_fn(char) -> bool)
    ensures
        strip_start(s, p).len() <= s.len(),
        strip_start(s, p) == s.subrange(s.len() - strip_start(s, p).len(), s.len() as int),
        strip_start(s, p).len() > 0 ==> !p(strip_start(s, p)[0]),
    decreases s.len(),
{
    if s.len() > 0 && p(s[0]) {
        lemma_strip_start_suffix(s.drop_first(), p);
        let t = strip_start(s.drop_first(), p);
        assert(s.drop_first().subrange(s.drop_first().len() - t.len(), s.drop_first().len() as int)
            =~= s.subrange(s.len() - t.len(), s.len() as int));
    } else {
        assert(s.subrange(0, s.len() as int) =~= s);
    }
}

/// What `strip_end` leaves is a prefix of `s` that does not end with a
/// stripped character.
pub(crate) proof fn lemma_strip_end_prefix(s: Seq<char>, p: spec_fn(char) -> bool)
    ensures
        strip_end(s, p).len() <= s.len(),
        strip_end(s, p) == s.subrange(0, strip_end(s, p).len() as int),
        strip_end(s, p).len() > 0 ==> !p(strip_end(s, p).last()),
    decreases s.len(),
{
    if s.len() > 0 && p(s.last()) {
        lemma_strip_end_prefix(s.drop_last(), p);
        let t = strip_end(s.drop_last(), p);
        assert(s.drop_last().subrange(0, t.len() as int) =~= s.subrange(0, t.len() as int));
    } else {
        assert(s.subrange(0, s.len() as int) =~= s);
    }
}

/// Stripping leaves a run of `s`: some `s[lo..hi]`.
pub(crate) proof fn lemma_strip_is_run(s: Seq<char>, p: spec_fn(char) -> bool)
    ensures
        ({
            let u = strip_start(s, p);
            let lo = s.len() - u.len();
            &&& 0 <= lo <= lo + strip(s, p).len() <= s.len()
            &&& strip(s, p) == s.subrange(lo, lo + strip(s, p).len())
        }),
{
    lemma_strip_start_suffix(s, p);
    let u = strip_start(s, p);
    lemma_strip_end_prefix(u, p);
    let lo = s.len() - u.len();
    let t = strip(s, p);
    assert(t =~= s.subrange(lo, lo + t.len()));
}

/// A character that is not stripped stays: stripping the ends of `s` leaves
/// something when some `s[i]` does not satisfy `p`.
pub(crate) proof fn lemma_strip_keeps(s: Seq<char>, p: spec_fn(char) -> bool, i: int)
    requires
        0 <= i < s.len(),
        !p(s[i]),
    ensures
        strip(s, p).len() > 0,
{
    lemma_strip_start_keeps(s, p, i);
    lemma_strip_start_suffix(s, p);
    let u = strip_start(s, p);
    let j = i - (s.len() - u.len());
    assert(u[j] == s[i]);
    lemma_strip_end_keeps(u, p, j);
}

proof fn lemma_strip_start_keeps(s: Seq<char>, p: spec_fn(char) -> bool, i: int)
    requires
        0 <= i < s.len(),
        !p(s[i]),
    ensures
        strip_start(s, p).len() >= s.len() - i,
    decreases s.len(),
{
    if s.len() > 0 && p(s[0]) {
        assert(s.drop_first()[i - 1] == s[i]);
        lemma_strip_start_keeps(s.drop_first(), p, i - 1);
    }
}

proof fn lemma_strip_end_keeps(s: Seq<char>, p: spec_fn(char) -> bool, i: int)
    requires
        0 <= i < s.len(),
        !p(s[i]),
    ensures
        strip_end(s, p).len() >= i + 1,
    decreases s.len(),
{
    if s.len() > 0 && p(s.last()) {
        assert(s.drop_last()[i] == s[i]);
        lemma_strip_end_keeps(s.drop_last(), p, i);
    }
}

/// Stripping twice strips no more than stripping once.
pub(crate) proof fn lemma_strip_twice(s: Seq<char>, p: spec_fn(char) -> bool)
    ensures
        strip(strip(s, p), p) == strip(s, p),
{
    lemma_strip_start_suffix(s, p);
    let u = strip_start(s, p);
    lemma_strip_end_prefix(u, p);
    let t = strip_end(u, p);
    if t.len() > 0 {
        assert(t[0] == u[0]);
    }
    assert(strip_start(t, p) == t);
    assert(strip_end(t, p) == t);
}

/// The characters stripped from tag values: double quotes when `quotes`,
/// white space otherwise.
pub open spec fn stripped_by(quotes: bool) -> spec_fn(char) -> bool {
    if quotes {
        |c: char| c == '"'
    } else {
        |c: char| is_white(c)
    }
}

fn strips(c: char, quotes: bool) -> (r: bool)
    ensures
        r == stripped_by(quotes)(c),
{
    if quotes {
        c == '"'
    } else {
        char_is_whitespace(c)
    }
}

/// The bounds `lo..hi` of `cs` once the characters picked by `quotes` are
/// stripped from both ends.
fn strip_bounds(cs: &Vec<char>, quotes: bool) -> (r: (usize, usize))
    ensures
        r.0 <= r.1 <= cs.len(),
        cs@.subrange(r.0 as int, r.1 as int) == strip(cs@, stripped_by(quotes)),
{
    let ghost p = stripped_by(quotes);
    let n = cs.len();
    let mut lo: usize = 0;
    while lo < n && strips(cs[lo], quotes)
        invariant
            lo <= n == cs.len(),
            p == stripped_by(quotes),
            forall|k: int| 0 <= k < lo ==> p(cs@[k]),
        decreases n - lo,
    {
        lo += 1;
    }
    proof {
        lemma_strip_start_skip(cs@, p, lo as int);
    }
    let ghost rest = cs@.subrange(lo as int, n as int);
    assert(strip_start(rest, p) == rest) by {
        if rest.len() > 0 {
            assert(rest[0] == cs@[lo as int]);
        }
    }
    let mut hi: usize = n;
    while hi > lo && strips(cs[hi - 1], quotes)
        invariant
            lo <= hi <= n == cs.len(),
            p == stripped_by(quotes),
            forall|k: int| hi <= k < n ==> p(cs@[k]),
        decreases hi,
    {
        hi -= 1;
    }
    proof {
        let t = rest;
        assert forall|k: int| (hi - lo) <= k < t.len() implies p(t[k]) by {
            assert(t[k] == cs@[lo + k]);
        }
        lemma_strip_end_skip(t, p, hi - lo);
        assert(t.subrange(0, hi - lo) =~= cs@.subrange(lo as int, hi as int));
        let u = cs@.subrange(lo as int, hi as int);
        if u.len() > 0 {
            assert(u.last() == cs@[hi - 1]);
        }
        assert(strip_end(u, p) == u);
    }
    (lo, hi)
}

/// `s` with surrounding white space removed (`str::trim`).
pub fn trim(s: &str) -> (r: String)
    ensures
        r@ == trimmed(s@),
{
    let cs = chars_of(s);
    let (lo, hi) = strip_bounds(&cs, false);
    string_of(&cs, lo, hi)
}

/// A tag value cleaned for display: surrounding double quotes stripped,
/// then surrounding white space (`trim_matches('"').trim()`).
pub open spec fn cleaned(s: Seq<char>) -> Seq<char> {
    trimmed(unquoted(s))
}

/// Clean a tag value for display: strip surrounding quotes, then white space.
pub fn clean(s: &str) -> (r: String)
    ensures
        r@ == cleaned(s@),
{
    let cs = chars_of(s);
    let (lo, hi) = strip_bounds(&cs, true);
    let inner = string_of(&cs, lo, hi);
    trim(inner.as_str())
}

/// Whether `s` begins with `prefix`.
pub fn starts_with(s: &str, prefix: &str) -> (r: bool)
    ensures
        r == (prefix@.len() <= s@.len() && s@.subrange(0, prefix@.len() as int) == prefix@),
{
    let a = chars_of(s);
    let b = chars_of(prefix);
    if b.len() > a.len() {
        return false;
    }
    let mut i: usize = 0;
    while i < b.len()
        invariant
            a@ == s@,
            b@ == prefix@,
            b.len() <= a.len(),
            i <= b.len(),
            forall|k: int| 0 <= k < i ==> a@[k] == b@[k],
        decreases b.len() - i,
    {
        if a[i] != b[i] {
            assert(a@.subrange(0, b@.len() as int)[i as int] != b@[i as int]);
            assert(a@.subrange(0, b@.len() as int) != b@);
            return false;
        }
        i += 1;
    }
    assert(a@.subrange(0, b@.len() as int) =~= b@);
    true
}

/// ASCII upper-case letters folded to lower case; every other character
/// kept (`char::to_ascii_lowercase`).
pub open spec fn ascii_lower(c: char) -> char {
    if 'A' <= c && c <= 'Z' {
        (((c as u8) + 32) as u8) as char
    } else {
        c
    }
}

pub open spec fn ascii_lowered(s: Seq<char>) -> Seq<char> {
    s.map_values(|c: char| ascii_lower(c))
}

/// `s` with ASCII letters folded to lower case (`str::to_ascii_lowercase`).
pub fn to_ascii_lower(s: &str) -> (r: Vec<char>)
    ensures
        r@ == ascii_lowered(s@),
{
    let cs = chars_of(s);
    let mut out: Vec<char> = Vec::new();
    let mut i: usize = 0;
    while i < cs.len()
        invariant
            i <= cs.len(),
            out@ == ascii_lowered(cs@.take(i as int)),
        decreases cs.len() - i,
    {
        let c = cs[i];
        let l = if 'A' <= c && c <= 'Z' {
            char_from_u32_lower(c)
        } else {
            c
        };
        out.push(l);
        proof {
            assert(cs@.take(i + 1) =~= cs@.take(i as int).push(c));
            assert(ascii_lowered(cs@.take(i + 1)) =~= ascii_lowered(cs@.take(i as int)).push(
                ascii_lower(c),
            ));
        }
        i += 1;
    }
    proof {
        assert(cs@.take(cs.len() as int) =~= cs@);
    }
    out
}

fn char_from_u32_lower(c: char) -> (r: char)
    requires
        'A' <= c <= 'Z',
    ensures
        r == ascii_lower(c),
{
    ((c as u8) + 32) as char
}

} // verus!
