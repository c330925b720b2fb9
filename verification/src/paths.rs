//! File names derived from photo paths: the edit sidecar next to a photo,
//! the name an export is saved under, and which extensions are photos.
//!
//! Paths are text, split into components by `std::path`, whose rules
//! differ by platform (`\` separates on Windows only). The contracts say
//! exactly what comes out where every platform agrees: for "plain" paths
//! (see `is_plain_path`), and for paths that end in a name
//! (`ends_in_name`, `has_stable_ext`), backslashed Windows paths included.

use vstd::prelude::*;
use crate::text::{ascii_lowered, chars_of, string_of, to_ascii_lower};

verus! {

/// The index of the last `c` in `s`, or -1.
pub open spec fn last_index_of(s: Seq<char>, c: char) -> int
    decreases s.len(),
{
    if s.len() == 0 {
        -1
    } else if s.last() == c {
        s.len() - 1
    } else {
        last_index_of(s.drop_last(), c)
    }
}

/// Whether `s` holds `a` immediately followed by `b`.
pub open spec fn has_pair(s: Seq<char>, a: char, b: char) -> bool {
    exists|i: int| 0 <= i < s.len() - 1 && #[trigger] s[i] == a && s[i + 1] == b
}

/// The text after the last `/`: the path's final component.
pub open spec fn final_component(p: Seq<char>) -> Seq<char> {
    p.subrange(last_index_of(p, '/') + 1, p.len() as int)
}

/// The text up to and including the last `/` (empty when there is none).
pub open spec fn dir_prefix(p: Seq<char>) -> Seq<char> {
    p.subrange(0, last_index_of(p, '/') + 1)
}

/// A file name that stands on its own as one path component.
pub open spec fn is_plain_name(n: Seq<char>) -> bool {
    &&& n.len() > 0
    &&& !n.contains('/')
    &&& !n.contains('\\')
    &&& !n.contains(':')
    &&& n != "."@
    &&& n != ".."@
}

/// A path that plainly names a file: `/`-separated, no backslash or drive
/// colon, no empty or `.` components in the middle, ending in a file name.
/// Every platform splits such a path the same way.
pub open spec fn is_plain_path(p: Seq<char>) -> bool {
    &&& !p.contains('\\')
    &&& !p.contains(':')
    &&& !has_pair(p, '/', '/')
    &&& !(exists|i: int| 0 <= i < p.len() - 2 && #[trigger] p[i] == '/' && p[i + 1] == '.' && p[i + 2] == '/')
    &&& is_plain_name(final_component(p))
}

/// The extension of a file name: the text after its last `.`, unless there
/// is no `.` or the only one starts the name.
pub open spec fn extension_of(name: Seq<char>) -> Option<Seq<char>> {
    let i = last_index_of(name, '.');
    if i <= 0 {
        Option::None
    } else {
        Some(name.subrange(i + 1, name.len() as int))
    }
}

/// The stem of a file name: the text before its last `.`, or the whole
/// name when there is no `.` or the only one starts the name.
pub open spec fn stem_of(name: Seq<char>) -> Seq<char> {
    let i = last_index_of(name, '.');
    if i <= 0 {
        name
    } else {
        name.subrange(0, i)
    }
}

/// The text of an optional string.
pub open spec fn opt_text(v: Option<String>) -> Option<Seq<char>> {
    match v {
        Some(s) => Some(s@),
        Option::None => Option::None,
    }
}

/// A path separator on some platform: `/` everywhere, `\` on Windows.
pub open spec fn is_sep(c: char) -> bool {
    c == '/' || c == '\\'
}

/// A character that may end the text before a file name: a separator, or
/// the colon of a Windows drive (`C:photo.jpg`).
pub open spec fn ends_prefix(c: char) -> bool {
    is_sep(c) || c == ':'
}

/// `f` sits in `p` at `k` as its file name can: after a separator or drive
/// colon (or at the start), followed only by separators and `.` components.
pub open spec fn name_at(p: Seq<char>, f: Seq<char>, k: int) -> bool {
    &&& 0 <= k
    &&& k + f.len() <= p.len()
    &&& p.subrange(k, k + f.len()) == f
    &&& (k == 0 || ends_prefix(p[k - 1]))
    &&& forall|j: int| k + f.len() <= j < p.len() ==> is_sep(#[trigger] p[j]) || p[j] == '.'
}

/// A path whose text ends in a file name on every platform: it does not end
/// in a separator, a dot or a drive colon, and it does not start with two
/// separators (a Windows UNC or device prefix).
pub open spec fn ends_in_name(p: Seq<char>) -> bool {
    &&& p.len() > 0
    &&& !ends_prefix(p.last())
    &&& p.last() != '.'
    &&& !two_sep_start(p)
}

/// The path starts with two separators: on Windows a UNC, device or
/// verbatim prefix, inside which `/` need not separate.
pub open spec fn two_sep_start(p: Seq<char>) -> bool {
    p.len() >= 2 && is_sep(p[0]) && is_sep(p[1])
}

/// `Path::file_name`: the final component of the path, if it has one. For a
/// plain path that is the text after the last `/`. Unless the path starts
/// with two separators (a Windows verbatim path such as `\\?\C:\a/b` does
/// not split at `/`), the name is a piece of the path's text without `/`,
/// placed as `name_at` says. There is one whenever the path ends in a name.
/// Which piece it is depends on the platform where `\` occurs (it
/// separates on Windows only), and is left unsaid.
#[verifier::external_body]
pub(crate) fn file_name_of(p: &str) -> (r: Option<String>)
    ensures
        is_plain_path(p@) ==> opt_text(r) == Some(final_component(p@)),
        !two_sep_start(p@) ==> (r matches Some(f) ==> f@.len() > 0 && !f@.contains('/')
            && exists|k: int| name_at(p@, f@, k)),
        r is None ==> !ends_in_name(p@),
{
    std::path::Path::new(p).file_name().map(|n| n.to_string_lossy().into_owned())
}

/// The text of `n` after its last separator (`/` or `\`): the last
/// component `n` names on any platform (on Unix `\` does not separate, and
/// there the whole of `n` ends in this text too).
pub open spec fn after_last_sep(n: Seq<char>) -> Seq<char>
    decreases n.len(),
{
    if n.len() == 0 {
        Seq::empty()
    } else if is_sep(n.last()) {
        Seq::empty()
    } else {
        after_last_sep(n.drop_last()).push(n.last())
    }
}

/// `Path::with_file_name`: the path with its file name replaced by `name`
/// (`pop`, when there is a file name, then `push(name)`). `push` either
/// appends `name` after a separator, replaces the path with `name` (an
/// absolute name, or on Windows one with a prefix or root), or, on a
/// Windows verbatim path, appends `name`'s components one by one; so the
/// result ends with `name`'s last component whenever that is a normal one
/// (not empty, `.` or `..`). The separator put before it and the folder
/// before that depend on the platform and are left unsaid.
#[verifier::external_body]
fn path_with_file_name(p: &str, name: &str) -> (r: String)
    ensures
        ({
            let last = after_last_sep(name@);
            last.len() > 0 && last != "."@ && last != ".."@ ==> ends_with(r@, last)
        }),
{
    std::path::Path::new(p).with_file_name(name).to_string_lossy().into_owned()
}

/// Text without separators appended to `x` lengthens what follows its last
/// separator.
proof fn lemma_after_last_sep_extend(x: Seq<char>, s: Seq<char>)
    requires
        forall|i: int| 0 <= i < s.len() ==> !is_sep(#[trigger] s[i]),
    ensures
        after_last_sep(x + s) == after_last_sep(x) + s,
    decreases s.len(),
{
    if s.len() == 0 {
        assert(x + s =~= x);
        assert(after_last_sep(x) + s =~= after_last_sep(x));
    } else {
        let s0 = s.drop_last();
        lemma_after_last_sep_extend(x, s0);
        assert((x + s).drop_last() =~= x + s0);
        assert((x + s).last() == s[s.len() - 1]);
        assert(after_last_sep(x) + s =~= (after_last_sep(x) + s0).push(s.last()));
    }
}

/// When `name` ends in the sidecar suffix, what `path_with_file_name`
/// promises gives a result ending in the suffix.
proof fn lemma_suffixed_name(x: Seq<char>, r: Seq<char>)
    requires
        ({
            let last = after_last_sep(x + sidecar_suffix());
            last.len() > 0 && last != "."@ && last != ".."@ ==> ends_with(r, last)
        }),
    ensures
        ends_with(r, sidecar_suffix()),
{
    reveal_strlit(".edits.json");
    reveal_strlit(".");
    reveal_strlit("..");
    let sfx = sidecar_suffix();
    assert(sfx =~= seq!['.', 'e', 'd', 'i', 't', 's', '.', 'j', 's', 'o', 'n']);
    lemma_after_last_sep_extend(x, sfx);
    let last = after_last_sep(x + sfx);
    assert(last.len() >= 11);
    assert(last != "."@ && last != ".."@);
    assert(r.subrange(r.len() - last.len(), r.len() as int) == last);
    assert(r.subrange(r.len() - sfx.len(), r.len() as int) =~= last.subrange(
        last.len() - sfx.len(),
        last.len() as int,
    ));
    assert(last.subrange(last.len() - sfx.len(), last.len() as int) =~= sfx);
}

/// The `/`-separated pieces of `p`, in order, empty ones included.
pub open spec fn pieces(p: Seq<char>) -> Seq<Seq<char>>
    decreases p.len(),
{
    if p.len() == 0 {
        seq![Seq::empty()]
    } else {
        let rest = pieces(p.drop_last());
        if p.last() == '/' {
            rest.push(Seq::empty())
        } else {
            rest.update(rest.len() - 1, rest.last().push(p.last()))
        }
    }
}

/// The components `std::path` gives a slash path, each as text: the root
/// (`/`) when the path starts with `/`, else a leading `.` when the path
/// starts with one, then every piece but the empty ones and `.`, as the
/// `Path::components` documentation describes.
pub open spec fn slash_components(p: Seq<char>) -> Seq<Seq<char>> {
    let ps = pieces(p);
    let lead = if p.len() > 0 && p[0] == '/' {
        seq![seq!['/']]
    } else if ps[0] == seq!['.'] {
        seq![seq!['.']]
    } else {
        Seq::empty()
    };
    lead + ps.filter(|x: Seq<char>| x.len() > 0 && x != seq!['.'])
}

/// `Path`'s `==`, which compares paths component by component: the same
/// text is the same path; two plain paths are the same path exactly when
/// their texts are equal; two slash paths are the same path exactly when
/// their components are (`a/b`, `a//b`, `a/b/` and `a/./b` are one path).
/// For other paths (backslashes, drive colons) which texts are the same
/// path depends on the platform, and is left unsaid.
#[verifier::external_body]
pub(crate) fn same_path(a: &str, b: &str) -> (r: bool)
    ensures
        a@ == b@ ==> r,
        is_plain_path(a@) && is_plain_path(b@) ==> r == (a@ == b@),
        is_slash_path(a@) && is_slash_path(b@) ==> r == (slash_components(a@) == slash_components(
            b@,
        )),
{
    std::path::Path::new(a) == std::path::Path::new(b)
}

/// Whether `s` ends with `suffix`.
pub open spec fn ends_with(s: Seq<char>, suffix: Seq<char>) -> bool {
    suffix.len() <= s.len() && s.subrange(s.len() - suffix.len(), s.len() as int) == suffix
}

fn text_ends_with(s: &str, suffix: &str) -> (r: bool)
    ensures
        r == ends_with(s@, suffix@),
{
    let cs = chars_of(s);
    let xs = chars_of(suffix);
    if xs.len() > cs.len() {
        return false;
    }
    let n = cs.len();
    let off = n - xs.len();
    let mut i: usize = 0;
    while i < xs.len()
        invariant
            n == cs@.len(),
            cs@ == s@,
            xs@ == suffix@,
            off == cs@.len() - xs@.len(),
            off + xs@.len() == cs@.len(),
            i <= xs@.len(),
            forall|j: int| 0 <= j < i ==> cs@[off + j] == xs@[j],
        decreases xs@.len() - i,
    {
        assert(off + i < n);
        if cs[off + i] != xs[i] {
            return false;
        }
        i += 1;
    }
    assert(s@.subrange(off as int, s@.len() as int) =~= suffix@);
    true
}

/// The last index of `c` in `cs`, or `None`.
fn last_index(cs: &Vec<char>, c: char) -> (r: Option<usize>)
    ensures
        match r {
            Some(i) => i as int == last_index_of(cs@, c),
            Option::None => last_index_of(cs@, c) == -1,
        },
{
    let mut i: usize = cs.len();
    assert(cs@.subrange(0, i as int) =~= cs@);
    while i > 0
        invariant
            i <= cs@.len(),
            last_index_of(cs@, c) == last_index_of(cs@.subrange(0, i as int), c),
        decreases i,
    {
        assert(cs@.subrange(0, i as int).drop_last() =~= cs@.subrange(0, i - 1));
        if cs[i - 1] == c {
            return Some(i - 1);
        }
        i -= 1;
    }
    None
}

proof fn lemma_last_index_whole(s: Seq<char>, c: char)
    ensures
        last_index_of(s, c) == last_index_of(s.subrange(0, s.len() as int), c),
{
    assert(s.subrange(0, s.len() as int) =~= s);
}

/// The extension of a file name, as `Path::extension` documents it: the
/// text after the last `.`, none without a `.` or when the only one starts
/// the name.
pub(crate) fn extension_text(name: &str) -> (r: Option<String>)
    ensures
        opt_text(r) == extension_of(name@),
{
    let cs = chars_of(name);
    proof {
        lemma_last_index_whole(cs@, '.');
        lemma_last_index_found(cs@, '.');
    }
    match last_index(&cs, '.') {
        Some(i) => {
            if i == 0 {
                None
            } else {
                assert(i < cs@.len());
                Some(string_of(&cs, i + 1, cs.len()))
            }
        },
        None => None,
    }
}

/// The stem of a file name, as `Path::file_stem` documents it: the text
/// before the last `.`, or the whole name without a `.` or when the only
/// one starts the name.
pub(crate) fn stem_text(name: &str) -> (r: String)
    ensures
        r@ == stem_of(name@),
{
    let cs = chars_of(name);
    proof {
        lemma_last_index_found(cs@, '.');
    }
    match last_index(&cs, '.') {
        Some(i) => {
            if i == 0 {
                String::from_str(name)
            } else {
                string_of(&cs, 0, i)
            }
        },
        None => String::from_str(name),
    }
}

proof fn lemma_split_at_last_slash(p: Seq<char>)
    ensures
        -1 <= last_index_of(p, '/') < p.len(),
        dir_prefix(p) + final_component(p) == p,
        !final_component(p).contains('/'),
    decreases p.len(),
{
    if p.len() > 0 {
        lemma_split_at_last_slash(p.drop_last());
        if p.last() != '/' {
            let i = last_index_of(p, '/');
            assert(final_component(p) =~= final_component(p.drop_last()).push(p.last()));
        }
    }
    assert(dir_prefix(p) + final_component(p) =~= p);
}

/// The suffix that turns a photo's path into its edit sidecar's path.
pub open spec fn sidecar_suffix() -> Seq<char> {
    ".edits.json"@
}

/// A path that ends in its file name (`name_at` with nothing after it).
proof fn lemma_name_is_suffix(p: Seq<char>, f: Seq<char>, k: int)
    requires
        name_at(p, f, k),
        ends_in_name(p),
    ensures
        k + f.len() == p.len(),
        f == p.subrange(k, p.len() as int),
{
    if k + f.len() < p.len() {
        assert(is_sep(p[p.len() - 1]) || p[p.len() - 1] == '.');
        assert(p.last() == p[p.len() - 1]);
    }
}

/// A path every platform splits at `/` alone: no `\`, no drive colon, and
/// not two separators at the start (a Windows UNC or device prefix).
pub open spec fn is_slash_path(p: Seq<char>) -> bool {
    !p.contains('\\') && !p.contains(':') && !two_sep_start(p)
}

/// The path without its trailing separators and `.` components, which
/// `std::path` normalizes away (`a/b/` and `a/b/.` are the path `a/b`).
pub open spec fn trim_tail(p: Seq<char>) -> Seq<char>
    decreases p.len(),
{
    if p.len() >= 2 && (p.last() == '/' || (p.last() == '.' && p[p.len() - 2] == '/')) {
        trim_tail(p.drop_last())
    } else {
        p
    }
}

/// The file name of a slash path, as `Path::file_name` documents it: its
/// final component, none when that is the root, `.` or `..`.
pub open spec fn slash_name(p: Seq<char>) -> Option<Seq<char>> {
    let c = final_component(trim_tail(p));
    if c.len() == 0 || c == seq!['.'] || c == seq!['.', '.'] {
        Option::None
    } else {
        Some(c)
    }
}

/// Where the text of `cs` ends once trailing separators and `.`
/// components are cut.
fn trim_end(cs: &Vec<char>) -> (e: usize)
    ensures
        e <= cs@.len(),
        cs@.subrange(0, e as int) == trim_tail(cs@),
{
    let mut e = cs.len();
    assert(cs@.subrange(0, e as int) =~= cs@);
    while e >= 2 && (cs[e - 1] == '/' || (cs[e - 1] == '.' && cs[e - 2] == '/'))
        invariant
            e <= cs@.len(),
            trim_tail(cs@) == trim_tail(cs@.subrange(0, e as int)),
        decreases e,
    {
        assert(cs@.subrange(0, e as int).drop_last() =~= cs@.subrange(0, e - 1));
        e -= 1;
    }
    e
}

/// A slash path's trimmed text and file name.
fn slash_parts(p: &str) -> (r: (String, Option<String>))
    ensures
        r.0@ == trim_tail(p@),
        opt_text(r.1) == slash_name(p@),
{
    let cs = chars_of(p);
    let e = trim_end(&cs);
    let trimmed = string_of(&cs, 0, e);
    let t = chars_of(trimmed.as_str());
    proof {
        lemma_last_index_whole(t@, '/');
        lemma_last_index_found(t@, '/');
    }
    let start = match last_index(&t, '/') {
        Some(i) => i + 1,
        None => 0,
    };
    let n = t.len() - start;
    let c = string_of(&t, start, t.len());
    let none = n == 0 || (n == 1 && t[start] == '.') || (n == 2 && t[start] == '.' && t[start + 1]
        == '.');
    proof {
        let f = final_component(t@);
        assert(c@ == f);
        if n == 1 {
            assert(f[0] == t@[start as int]);
            if t[start as int] == '.' {
                assert(f =~= seq!['.']);
            } else {
                assert(f != seq!['.']);
            }
        }
        if n == 2 {
            assert(f[0] == t@[start as int] && f[1] == t@[start + 1]);
            if t[start as int] == '.' && t[start + 1] == '.' {
                assert(f =~= seq!['.', '.']);
            } else {
                assert(f != seq!['.', '.']);
            }
        }
    }
    (trimmed, if none { None } else { Some(c) })
}

/// A plain path is a slash path, already trimmed, whose file name is the
/// text after its last `/`.
pub(crate) proof fn lemma_plain_is_slash(p: Seq<char>)
    requires
        is_plain_path(p),
    ensures
        is_slash_path(p),
        trim_tail(p) == p,
        slash_name(p) == Some(final_component(p)),
{
    reveal_strlit(".");
    reveal_strlit("..");
    lemma_last_index_found(p, '/');
    lemma_split_at_last_slash(p);
    let c = final_component(p);
    let i = last_index_of(p, '/');
    if p.len() >= 2 && p[0] == '/' && p[1] == '/' {
        assert(has_pair(p, '/', '/'));
    }
    assert(c.len() > 0);
    assert(c.last() == p.last());
    if p.len() >= 2 && p.last() == '.' && p[p.len() - 2] == '/' {
        assert(i == p.len() - 2);
        assert(c =~= seq!['.']);
        assert("."@ =~= seq!['.']);
    }
    assert("."@ =~= seq!['.']);
    assert(".."@ =~= seq!['.', '.']);
}

/// A path ending in a name is its own trimmed text.
proof fn lemma_named_untrimmed(p: Seq<char>)
    requires
        ends_in_name(p),
    ensures
        trim_tail(p) == p,
{
}

/// The sidecar holding a photo's edits, next to the photo:
/// `photo.jpg` -> `photo.jpg.edits.json`, in the photo's folder under the
/// photo's whole file name plus `.edits.json`.
///
/// A path every platform splits at `/` (`is_slash_path`) is handled here:
/// with a file name, the sidecar is the path's folder text followed by that
/// name and `.edits.json` (trailing separators and `.` components dropped,
/// as `std::path` drops them); without one (`..`, `/`), `.edits.json` is
/// pushed onto the path with `Path::with_file_name`. Other paths ending in
/// their file name get `.edits.json` appended to their text. Where
/// `Path::with_file_name` would rebuild the folder text (joining with `\`
/// on Windows, dropping a doubled `/`), the result names the same file.
/// Paths of neither kind go through `Path::with_file_name` itself; their
/// sidecar too ends in `.edits.json`, while the text before it depends on
/// the platform.
pub fn sidecar_path(image_path: &str) -> (r: String)
    ensures
        is_plain_path(image_path@) ==> r@ == image_path@ + sidecar_suffix(),
        ends_in_name(image_path@) ==> r@ == image_path@ + sidecar_suffix(),
        is_slash_path(image_path@) && slash_name(image_path@) is Some ==> r@ == dir_prefix(
            trim_tail(image_path@),
        ) + slash_name(image_path@)->0 + sidecar_suffix(),
        ends_with(r@, sidecar_suffix()),
{
    proof {
        reveal_strlit(".edits.json");
        reveal_strlit(".");
        reveal_strlit("..");
        assert(sidecar_suffix() =~= seq!['.', 'e', 'd', 'i', 't', 's', '.', 'j', 's', 'o', 'n']);
        if is_plain_path(image_path@) {
            lemma_plain_is_slash(image_path@);
        }
        if ends_in_name(image_path@) {
            lemma_named_untrimmed(image_path@);
        }
    }
    if is_slash_text(image_path) {
        let (trimmed, name) = slash_parts(image_path);
        proof {
            lemma_split_at_last_slash(trimmed@);
            if ends_in_name(image_path@) {
                let c = final_component(image_path@);
                lemma_last_index_found(image_path@, '/');
                assert(c.len() > 0 && c.last() == image_path@.last());
                if c =~= seq!['.'] || c =~= seq!['.', '.'] {
                    assert(c.last() == '.');
                }
            }
        }
        match name {
            Some(_) => {
                let mut r = trimmed;
                r.append(".edits.json");
                proof {
                    assert(r@.subrange(r@.len() - 11, r@.len() as int) =~= sidecar_suffix());
                }
                return r;
            },
            None => {
                let r = path_with_file_name(image_path, ".edits.json");
                proof {
                    assert(".edits.json"@ =~= Seq::<char>::empty() + sidecar_suffix());
                    lemma_suffixed_name(Seq::<char>::empty(), r@);
                }
                return r;
            },
        }
    }
    let name = file_name_of(image_path);
    let fits = match &name {
        Some(f) => text_ends_with(image_path, f.as_str()),
        None => false,
    };
    proof {
        let p = image_path@;
        if ends_in_name(p) {
            let f = name->0@;
            let k = choose|k: int| name_at(p, f, k);
            lemma_name_is_suffix(p, f, k);
        }
    }
    if fits {
        let mut r = String::from_str(image_path);
        r.append(".edits.json");
        proof {
            assert(r@.subrange(r@.len() - 11, r@.len() as int) =~= sidecar_suffix());
        }
        return r;
    }
    let mut n = match name {
        Some(f) => f,
        None => String::new(),
    };
    let ghost x = n@;
    n.append(".edits.json");
    let r = path_with_file_name(image_path, n.as_str());
    proof {
        assert(n@ =~= x + sidecar_suffix());
        lemma_suffixed_name(x, r@);
    }
    r
}

/// The file name of a slash path as text (empty when it has none).
pub open spec fn slash_file_name(p: Seq<char>) -> Seq<char> {
    match slash_name(p) {
        Some(n) => n,
        Option::None => Seq::empty(),
    }
}

/// `Path::file_name` for the text of a path: read off the text of a path
/// split at `/` alone, asked of `std::path` otherwise.
pub(crate) fn path_file_name(p: &str) -> (r: Option<String>)
    ensures
        is_plain_path(p@) ==> opt_text(r) == Some(final_component(p@)),
        is_slash_path(p@) ==> opt_text(r) == slash_name(p@),
{
    proof {
        if is_plain_path(p@) {
            lemma_plain_is_slash(p@);
        }
    }
    if is_slash_text(p) {
        let (_, name) = slash_parts(p);
        name
    } else {
        file_name_of(p)
    }
}

/// Whether the text is a slash path.
fn is_slash_text(p: &str) -> (r: bool)
    ensures
        r == is_slash_path(p@),
{
    let cs = chars_of(p);
    let mut i: usize = 0;
    while i < cs.len()
        invariant
            cs@ == p@,
            i <= cs@.len(),
            forall|j: int| 0 <= j < i ==> cs@[j] != '\\' && cs@[j] != ':',
        decreases cs@.len() - i,
    {
        if cs[i] == '\\' || cs[i] == ':' {
            assert(p@.contains(cs@[i as int]));
            return false;
        }
        i += 1;
    }
    let two = cs.len() >= 2 && (cs[0] == '/' || cs[0] == '\\') && (cs[1] == '/' || cs[1] == '\\');
    !two
}


/// The standard (non-RAW) photo extensions, lower case.
pub open spec fn std_exts() -> Seq<Seq<char>> {
    seq!["jpg"@, "jpeg"@, "png"@, "tif"@, "tiff"@, "webp"@, "bmp"@]
}

/// The camera RAW extensions, lower case.
pub open spec fn raw_exts() -> Seq<Seq<char>> {
    seq![
        "cr2"@, "cr3"@, "nef"@, "nrw"@, "arw"@, "dng"@, "raf"@, "orf"@, "rw2"@, "pef"@, "srw"@,
        "erf"@, "kdc"@, "dcr"@, "3fr"@, "iiq"@,
    ]
}

pub const STD_EXTS: [&'static str; 7] = ["jpg", "jpeg", "png", "tif", "tiff", "webp", "bmp"];

pub const RAW_EXTS: [&'static str; 16] = [
    "cr2", "cr3", "nef", "nrw", "arw", "dng", "raf", "orf", "rw2", "pef", "srw", "erf", "kdc",
    "dcr", "3fr", "iiq",
];

fn std_ext_list() -> (r: Vec<&'static str>)
    ensures
        r@.map_values(|e: &'static str| e@) == std_exts(),
{
    let r = vec!["jpg", "jpeg", "png", "tif", "tiff", "webp", "bmp"];
    assert(r@.map_values(|e: &'static str| e@) =~= std_exts());
    r
}

fn raw_ext_list() -> (r: Vec<&'static str>)
    ensures
        r@.map_values(|e: &'static str| e@) == raw_exts(),
{
    let r = vec![
        "cr2", "cr3", "nef", "nrw", "arw", "dng", "raf", "orf", "rw2", "pef", "srw", "erf", "kdc",
        "dcr", "3fr", "iiq",
    ];
    assert(r@.map_values(|e: &'static str| e@) =~= raw_exts());
    r
}

/// Whether the path's extension, folded to ASCII lower case, is one of
/// `exts`.
pub open spec fn ext_listed(p: Seq<char>, exts: Seq<Seq<char>>) -> bool {
    match extension_of(final_component(p)) {
        Some(e) => exts.contains(ascii_lowered(e)),
        Option::None => false,
    }
}

pub(crate) fn same_chars(a: &Vec<char>, b: &str) -> (r: bool)
    ensures
        r == (a@ == b@),
{
    let bs = chars_of(b);
    if a.len() != bs.len() {
        return false;
    }
    let mut i: usize = 0;
    while i < a.len()
        invariant
            a.len() == bs.len(),
            bs@ == b@,
            i <= a.len(),
            forall|k: int| 0 <= k < i ==> a@[k] == bs@[k],
        decreases a.len() - i,
    {
        if a[i] != bs[i] {
            return false;
        }
        i += 1;
    }
    assert(a@ =~= bs@);
    true
}

/// The extension every platform reads off `p`'s text: the text after its
/// last `.` (none without a `.`).
pub open spec fn stable_ext(p: Seq<char>) -> Option<Seq<char>> {
    let d = last_index_of(p, '.');
    if d < 0 {
        Option::None
    } else {
        Some(p.subrange(d + 1, p.len() as int))
    }
}

/// `p`'s extension does not depend on how the platform splits the path:
/// the path ends in a name, and its last `.` (if any) sits inside the last
/// piece that any platform could take as the file name, not at its start.
pub open spec fn has_stable_ext(p: Seq<char>) -> bool {
    let d = last_index_of(p, '.');
    &&& ends_in_name(p)
    &&& (d < 0 || (d > 0 && !ends_prefix(p[d - 1]) && forall|j: int|
        d < j < p.len() ==> !ends_prefix(#[trigger] p[j])))
}

/// The extension of a path as every platform reads it: `stable_ext` when
/// `has_stable_ext` holds.
pub open spec fn stable_listed(p: Seq<char>, exts: Seq<Seq<char>>) -> bool {
    match stable_ext(p) {
        Some(e) => exts.contains(ascii_lowered(e)),
        Option::None => false,
    }
}

proof fn lemma_last_index_suffix(p: Seq<char>, c: char, k: int)
    requires
        0 <= k <= p.len(),
    ensures
        last_index_of(p.subrange(k, p.len() as int), c) == (if last_index_of(p, c) >= k {
            last_index_of(p, c) - k
        } else {
            -1
        }),
    decreases p.len(),
{
    lemma_last_index_found(p, c);
    if p.len() > k {
        let q = p.drop_last();
        lemma_last_index_suffix(q, c, k);
        assert(p.subrange(k, p.len() as int).drop_last() =~= q.subrange(k, q.len() as int));
        assert(p.subrange(k, p.len() as int).last() == p.last());
    } else {
        assert(p.subrange(k, p.len() as int).len() == 0);
    }
}

/// The file name of a path whose extension is stable has that extension.
proof fn lemma_stable_ext(p: Seq<char>, f: Seq<char>, k: int)
    requires
        has_stable_ext(p),
        name_at(p, f, k),
    ensures
        extension_of(f) == stable_ext(p),
{
    lemma_name_is_suffix(p, f, k);
    lemma_last_index_found(p, '.');
    lemma_last_index_suffix(p, '.', k);
    let d = last_index_of(p, '.');
    if d >= 0 {
        if k > d {
            if k - 1 > d {
                assert(!ends_prefix(p[k - 1]));
            }
        }
        assert(k != d);
        assert(f.subrange(d - k + 1, f.len() as int) =~= p.subrange(d + 1, p.len() as int));
    }
}

/// `Path::extension` for the text of a path: the extension, as
/// `Path::extension` documents it, of the name `Path::file_name` gives.
pub(crate) fn path_extension(p: &str) -> (r: Option<String>)
    ensures
        is_plain_path(p@) ==> opt_text(r) == extension_of(final_component(p@)),
        has_stable_ext(p@) ==> opt_text(r) == stable_ext(p@),
{
    match file_name_of(p) {
        Some(f) => {
            proof {
                if has_stable_ext(p@) {
                    let k = choose|k: int| name_at(p@, f@, k);
                    lemma_stable_ext(p@, f@, k);
                }
            }
            extension_text(f.as_str())
        },
        None => None,
    }
}

/// `Path::file_stem` for the text of a path: the stem, as `Path::file_stem`
/// documents it, of the name `Path::file_name` gives.
pub(crate) fn path_file_stem(p: &str) -> (r: Option<String>)
    ensures
        is_plain_path(p@) ==> opt_text(r) == Some(stem_of(final_component(p@))),
        r is None ==> !ends_in_name(p@),
{
    match file_name_of(p) {
        Some(f) => Some(stem_text(f.as_str())),
        None => None,
    }
}

/// Whether a file name's extension, folded to ASCII lower case, is one of
/// `exts` (`false` for no name).
pub open spec fn name_listed(n: Option<Seq<char>>, exts: Seq<Seq<char>>) -> bool {
    match n {
        Some(c) => match extension_of(c) {
            Some(e) => exts.contains(ascii_lowered(e)),
            Option::None => false,
        },
        Option::None => false,
    }
}

/// Whether the extension `e`, folded to ASCII lower case, is listed.
fn listed_ext(e: &str, exts: &Vec<&'static str>) -> (r: bool)
    ensures
        r == exts@.map_values(|x: &'static str| x@).contains(ascii_lowered(e@)),
{
    let ghost listed = exts@.map_values(|x: &'static str| x@);
    let lower = to_ascii_lower(e);
    let mut i: usize = 0;
    while i < exts.len()
        invariant
            i <= exts.len(),
            listed == exts@.map_values(|x: &'static str| x@),
            lower@ == ascii_lowered(e@),
            forall|k: int| 0 <= k < i ==> listed[k] != lower@,
        decreases exts.len() - i,
    {
        if same_chars(&lower, exts[i]) {
            assert(listed[i as int] == lower@);
            assert(listed.contains(lower@));
            return true;
        }
        i += 1;
    }
    assert(!listed.contains(lower@));
    false
}

/// The extension of a slash path's file name.
pub open spec fn slash_ext(p: Seq<char>) -> Option<Seq<char>> {
    match slash_name(p) {
        Some(c) => extension_of(c),
        Option::None => Option::None,
    }
}

/// The extension of a photo's path: for a path split at `/` alone, read
/// off its file name as `std::path` finds it; otherwise `Path::extension`.
pub fn photo_extension(path: &str) -> (r: Option<String>)
    ensures
        is_plain_path(path@) ==> opt_text(r) == extension_of(final_component(path@)),
        is_slash_path(path@) ==> opt_text(r) == slash_ext(path@),
        has_stable_ext(path@) && !is_slash_path(path@) ==> opt_text(r) == stable_ext(path@),
{
    proof {
        if is_plain_path(path@) {
            lemma_plain_is_slash(path@);
        }
    }
    if is_slash_text(path) {
        let (_, name) = slash_parts(path);
        match name {
            Some(n) => extension_text(n.as_str()),
            None => None,
        }
    } else {
        path_extension(path)
    }
}

fn ext_in(path: &str, exts: &Vec<&'static str>) -> (r: bool)
    ensures
        is_plain_path(path@) ==> r == ext_listed(path@, exts@.map_values(|e: &'static str| e@)),
        is_slash_path(path@) ==> r == name_listed(
            slash_name(path@),
            exts@.map_values(|e: &'static str| e@),
        ),
        has_stable_ext(path@) && !is_slash_path(path@) ==> r == stable_listed(
            path@,
            exts@.map_values(|e: &'static str| e@),
        ),
{
    match photo_extension(path) {
        Some(e) => listed_ext(e.as_str(), exts),
        None => false,
    }
}

/// Whether the file is a camera RAW, by its extension (any case). Stated
/// for every path split at `/` alone (`a.NEF`, `dir/a.nef/`), and for every
/// other path whose extension all platforms read alike (`has_stable_ext`,
/// as in `C:\photos\a.NEF`).
pub fn is_raw(path: &str) -> (r: bool)
    ensures
        is_plain_path(path@) ==> r == ext_listed(path@, raw_exts()),
        is_slash_path(path@) ==> r == name_listed(slash_name(path@), raw_exts()),
        has_stable_ext(path@) && !is_slash_path(path@) ==> r == stable_listed(path@, raw_exts()),
{
    ext_in(path, &raw_ext_list())
}

/// Whether the file is a photo this editor opens, by its extension (any
/// case): a standard image format or a camera RAW. Stated as `is_raw` is.
pub fn is_supported(path: &str) -> (r: bool)
    ensures
        is_plain_path(path@) ==> r == (ext_listed(path@, std_exts()) || ext_listed(
            path@,
            raw_exts(),
        )),
        is_slash_path(path@) ==> r == (name_listed(slash_name(path@), std_exts()) || name_listed(
            slash_name(path@),
            raw_exts(),
        )),
        has_stable_ext(path@) && !is_slash_path(path@) ==> r == (stable_listed(path@, std_exts())
            || stable_listed(path@, raw_exts())),
{
    ext_in(path, &std_ext_list()) || ext_in(path, &raw_ext_list())
}

/// The stem of a slash path's file name (empty without a name).
pub open spec fn slash_stem(p: Seq<char>) -> Seq<char> {
    match slash_name(p) {
        Some(c) => stem_of(c),
        Option::None => Seq::empty(),
    }
}

/// The file name an edited copy of a photo is exported under:
/// `{stem}_edited.{ext}` (`photo.CR3` -> `photo_edited.jpg`). Stated for
/// paths split at `/` alone; with backslashes the stem depends on the
/// platform (`\` separates on Windows only).
pub fn edited_file_name(image_path: &str, ext: &str) -> (r: String)
    ensures
        is_plain_path(image_path@) ==> r@ == stem_of(final_component(image_path@)) + "_edited."@
            + ext@,
        is_slash_path(image_path@) ==> r@ == slash_stem(image_path@) + "_edited."@ + ext@,
{
    proof {
        if is_plain_path(image_path@) {
            lemma_plain_is_slash(image_path@);
        }
    }
    let mut name = if is_slash_text(image_path) {
        let (_, n) = slash_parts(image_path);
        match n {
            Some(c) => stem_text(c.as_str()),
            None => String::new(),
        }
    } else {
        match path_file_stem(image_path) {
            Some(s) => s,
            None => String::new(),
        }
    };
    name.append("_edited.");
    name.append(ext);
    name
}

proof fn lemma_last_index_found(s: Seq<char>, c: char)
    ensures
        -1 <= last_index_of(s, c) < s.len(),
        last_index_of(s, c) >= 0 ==> s[last_index_of(s, c)] == c,
        forall|j: int| last_index_of(s, c) < j < s.len() ==> s[j] != c,
    decreases s.len(),
{
    if s.len() > 0 && s.last() != c {
        lemma_last_index_found(s.drop_last(), c);
        assert forall|j: int| last_index_of(s, c) < j < s.len() implies s[j] != c by {
            if j < s.len() - 1 {
                assert(s[j] == s.drop_last()[j]);
            }
        }
    }
}

/// An exported copy never takes the photo's own file name, so exporting
/// into the photo's folder leaves the photo itself untouched.
pub proof fn lemma_export_name_differs(image_path: Seq<char>, ext: Seq<char>)
    ensures
        stem_of(final_component(image_path)) + "_edited."@ + ext != final_component(image_path),
{
    let name = final_component(image_path);
    let out = stem_of(name) + "_edited."@ + ext;
    reveal_strlit("_edited.");
    lemma_last_index_found(name, '.');
    let i = last_index_of(name, '.');
    if i <= 0 {
        assert(out.len() > name.len());
    } else {
        assert(out[i] == '_');
        assert(name[i] == '.');
    }
}

/// A photo's sidecar never is the photo itself. `sidecar_path` gives
/// `image_path + sidecar_suffix()` for every path that ends in its file
/// name (`ends_in_name`, which covers Windows paths such as `C:\x\a.jpg`)
/// and every plain path, so for those this is the sidecar it writes.
pub proof fn lemma_sidecar_differs(image_path: Seq<char>)
    ensures
        image_path + sidecar_suffix() != image_path,
{
    reveal_strlit(".edits.json");
    assert((image_path + sidecar_suffix()).len() > image_path.len());
}

/// Two photos never share a sidecar: different photo paths give different
/// sidecar paths. As for `lemma_sidecar_differs`, this is the sidecar
/// `sidecar_path` gives every path ending in its file name.
pub proof fn lemma_sidecars_distinct(p: Seq<char>, q: Seq<char>)
    ensures
        p + sidecar_suffix() == q + sidecar_suffix() ==> p == q,
{
    if p + sidecar_suffix() == q + sidecar_suffix() {
        assert((p + sidecar_suffix()).len() == (q + sidecar_suffix()).len());
        assert(p.len() == q.len());
        assert(p =~= (p + sidecar_suffix()).subrange(0, p.len() as int));
        assert(q =~= (q + sidecar_suffix()).subrange(0, q.len() as int));
    }
}

/// A path always has a first piece, and its last piece is the text after
/// its last `/`.
proof fn lemma_pieces_last(p: Seq<char>)
    ensures
        pieces(p).len() >= 1,
        pieces(p).last() == final_component(p),
    decreases p.len(),
{
    if p.len() > 0 {
        lemma_pieces_last(p.drop_last());
        lemma_split_at_last_slash(p.drop_last());
        if p.last() != '/' {
            assert(last_index_of(p, '/') == last_index_of(p.drop_last(), '/'));
            assert(final_component(p) =~= final_component(p.drop_last()).push(p.last()));
        } else {
            assert(final_component(p) =~= Seq::<char>::empty());
        }
    } else {
        assert(final_component(p) =~= Seq::<char>::empty());
    }
}

/// Text without `/` appended to a path lengthens its last piece only.
proof fn lemma_pieces_extend(t: Seq<char>, s: Seq<char>)
    requires
        !s.contains('/'),
    ensures
        pieces(t + s) == pieces(t).update(pieces(t).len() - 1, pieces(t).last() + s),
    decreases s.len(),
{
    lemma_pieces_last(t);
    if s.len() == 0 {
        assert(t + s =~= t);
        assert(pieces(t).last() + s =~= pieces(t).last());
        assert(pieces(t).update(pieces(t).len() - 1, pieces(t).last()) =~= pieces(t));
    } else {
        let s0 = s.drop_last();
        assert(!s0.contains('/')) by {
            if s0.contains('/') {
                let k = choose|k: int| 0 <= k < s0.len() && s0[k] == '/';
                assert(s[k] == '/');
            }
        }
        lemma_pieces_extend(t, s0);
        assert((t + s).drop_last() =~= t + s0);
        assert((t + s).last() == s.last());
        assert(s.last() != '/') by {
            assert(s[s.len() - 1] == s.last());
        }
        assert(pieces(t).last() + s =~= (pieces(t).last() + s0).push(s.last()));
        assert(pieces(t + s) =~= pieces(t).update(pieces(t).len() - 1, pieces(t).last() + s));
    }
}

/// Cutting one trailing separator or `.` component leaves the same
/// components.
proof fn lemma_trim_step_components(p: Seq<char>)
    requires
        p.len() >= 2,
        p.last() == '/' || (p.last() == '.' && p[p.len() - 2] == '/'),
    ensures
        slash_components(p.drop_last()) == slash_components(p),
{
    broadcast use Seq::lemma_filter_push;

    let q = p.drop_last();
    lemma_pieces_last(q);
    if p.last() == '/' {
        assert(pieces(p) == pieces(q).push(Seq::<char>::empty()));
        assert(pieces(p)[0] == pieces(q)[0]);
    } else {
        let r = q.drop_last();
        assert(q.last() == '/');
        lemma_pieces_last(r);
        assert(pieces(q) == pieces(r).push(Seq::<char>::empty()));
        assert(Seq::<char>::empty().push('.') =~= seq!['.']);
        assert(pieces(p) =~= pieces(r).push(seq!['.']));
        assert(pieces(p)[0] == pieces(r)[0]);
        assert(pieces(q)[0] == pieces(r)[0]);
    }
}

/// Trailing separators and `.` components are not components: a path and
/// its trimmed text are the same path.
pub proof fn lemma_trim_tail_components(p: Seq<char>)
    ensures
        slash_components(trim_tail(p)) == slash_components(p),
    decreases p.len(),
{
    if p.len() >= 2 && (p.last() == '/' || (p.last() == '.' && p[p.len() - 2] == '/')) {
        lemma_trim_tail_components(p.drop_last());
        lemma_trim_step_components(p);
    }
}

/// The sidecar of a photo split at `/` alone that has a file name is never
/// the photo itself: it is a slash path too, and neither its text nor its
/// components (what `Path`'s `==` compares) are the photo's, since its last
/// component is the photo's file name with the suffix appended.
pub proof fn lemma_slash_sidecar_differs(p: Seq<char>)
    requires
        is_slash_path(p),
        slash_name(p) is Some,
    ensures
        ({
            let r = dir_prefix(trim_tail(p)) + slash_name(p)->0 + sidecar_suffix();
            &&& r != p
            &&& is_slash_path(r)
            &&& slash_components(r) != slash_components(p)
        }),
{
    broadcast use Seq::lemma_filter_push;

    reveal_strlit(".edits.json");
    let t = trim_tail(p);
    let sfx = sidecar_suffix();
    assert(sfx =~= seq!['.', 'e', 'd', 'i', 't', 's', '.', 'j', 's', 'o', 'n']);
    lemma_split_at_last_slash(t);
    lemma_trim_tail_prefix(p);
    let name = slash_name(p)->0;
    let r = dir_prefix(t) + name + sfx;
    assert(r =~= t + sfx);
    if r == p {
        assert(p.last() == 'n');
        assert(trim_tail(p) == p);
        assert(r.len() > p.len());
    }
    // `r` is a slash path: its text is a prefix of `p` and the suffix.
    assert(!r.contains('\\') && !r.contains(':')) by {
        if r.contains('\\') || r.contains(':') {
            let k = choose|k: int| 0 <= k < r.len() && (r[k] == '\\' || r[k] == ':');
            if k < t.len() {
                assert(p[k] == t[k]);
            }
        }
    }
    assert(!two_sep_start(r)) by {
        if t.len() >= 2 {
            assert(r[0] == p[0] && r[1] == p[1]);
        }
    }
    // Its pieces are those of `t` with the last one lengthened.
    assert(!sfx.contains('/'));
    lemma_pieces_extend(t, sfx);
    lemma_pieces_last(t);
    let ps = pieces(t);
    let d = ps.drop_last();
    assert(ps =~= d.push(name));
    assert(pieces(r) =~= d.push(name + sfx));
    assert(name.len() > 0 && name != seq!['.']);
    assert((name + sfx).len() > 1);
    assert(name + sfx != seq!['.']);
    assert(pieces(r)[0] == ps[0] || (ps.len() == 1 && ps[0] == name && pieces(r)[0] == name
        + sfx));
    let cr = slash_components(r);
    let ct = slash_components(t);
    assert(cr.len() == ct.len());
    assert(cr.last() == name + sfx);
    assert(ct.last() == name);
    assert(cr != ct) by {
        if cr == ct {
            assert((name + sfx).len() == name.len());
        }
    }
    lemma_trim_tail_components(p);
}

/// Two photos split at `/` alone share a sidecar only when they are the
/// same path (`Path`'s `==`: the same components); their texts then differ
/// at most by trailing separators and `.` components. A sidecar never
/// belongs to two photos.
pub proof fn lemma_slash_sidecars_distinct(p: Seq<char>, q: Seq<char>)
    requires
        is_slash_path(p),
        is_slash_path(q),
        slash_name(p) is Some,
        slash_name(q) is Some,
    ensures
        dir_prefix(trim_tail(p)) + slash_name(p)->0 + sidecar_suffix() == dir_prefix(
            trim_tail(q),
        ) + slash_name(q)->0 + sidecar_suffix() ==> trim_tail(p) == trim_tail(q)
            && slash_components(p) == slash_components(q),
{
    lemma_split_at_last_slash(trim_tail(p));
    lemma_split_at_last_slash(trim_tail(q));
    assert(dir_prefix(trim_tail(p)) + slash_name(p)->0 + sidecar_suffix() =~= trim_tail(p)
        + sidecar_suffix());
    assert(dir_prefix(trim_tail(q)) + slash_name(q)->0 + sidecar_suffix() =~= trim_tail(q)
        + sidecar_suffix());
    lemma_sidecars_distinct(trim_tail(p), trim_tail(q));
    lemma_trim_tail_components(p);
    lemma_trim_tail_components(q);
}

/// The trimmed text is a prefix of the path.
proof fn lemma_trim_tail_prefix(p: Seq<char>)
    ensures
        trim_tail(p).len() <= p.len(),
        trim_tail(p) == p.subrange(0, trim_tail(p).len() as int),
    decreases p.len(),
{
    if p.len() >= 2 && (p.last() == '/' || (p.last() == '.' && p[p.len() - 2] == '/')) {
        lemma_trim_tail_prefix(p.drop_last());
        assert(p.drop_last().subrange(0, trim_tail(p).len() as int) =~= p.subrange(
            0,
            trim_tail(p).len() as int,
        ));
    } else {
        assert(p.subrange(0, p.len() as int) =~= p);
    }
}

} // verus!
