//! Preset ("look") names: what is kept of a user-typed name when it becomes
//! the preset's file name.

use vstd::prelude::*;
use crate::text::{
    char_is_alphanumeric, chars_of, is_alnum, lemma_strip_is_run, lemma_strip_keeps, lemma_strip_start_skip,
    lemma_strip_twice, push_char,
    stripped_by, trim, trimmed, is_white,
};
use crate::paths::{
    extension_of, extension_text, is_slash_path, path_file_name, same_chars, slash_name, stem_of,
    stem_text,
};
use crate::listing::{lowercase, sort_names, sorted_by_keys, texts};

verus! {

/// A character of a preset name as it may appear in a file name: letters,
/// digits, spaces, `-` and `_` are kept, anything else becomes `_`.
pub open spec fn file_safe(c: char) -> char {
    if is_alnum(c) || c == ' ' || c == '-' || c == '_' {
        c
    } else {
        '_'
    }
}

/// A preset name made safe for use as a file name: every character made
/// file-safe, then surrounding white space trimmed.
pub open spec fn sanitized(name: Seq<char>) -> Seq<char> {
    trimmed(name.map_values(|c: char| file_safe(c)))
}

/// Only letters, digits, spaces, `-` and `_` are left in a sanitized name.
pub proof fn lemma_sanitized_is_file_safe(name: Seq<char>)
    ensures
        forall|i: int|
            0 <= i < sanitized(name).len() ==> {
                let c = #[trigger] sanitized(name)[i];
                is_alnum(c) || c == ' ' || c == '-' || c == '_'
            },
{
    let m = name.map_values(|c: char| file_safe(c));
    lemma_strip_is_run(m, stripped_by(false));
    let lo = m.len() - crate::text::strip_start(m, stripped_by(false)).len();
    assert forall|i: int| 0 <= i < sanitized(name).len() implies {
        let c = #[trigger] sanitized(name)[i];
        is_alnum(c) || c == ' ' || c == '-' || c == '_'
    } by {
        assert(sanitized(name)[i] == m[lo + i]);
    }
}

/// A name sanitizes to the empty name, which saving refuses, exactly when
/// it is nothing but spaces: any other character leaves a letter, digit,
/// `-` or `_` behind.
pub proof fn lemma_sanitized_empty_iff_blank(name: Seq<char>)
    ensures
        sanitized(name).len() == 0 <==> forall|i: int| 0 <= i < name.len() ==> #[trigger] name[i]
            == ' ',
{
    let m = name.map_values(|c: char| file_safe(c));
    if forall|i: int| 0 <= i < name.len() ==> #[trigger] name[i] == ' ' {
        assert forall|k: int| 0 <= k < m.len() implies stripped_by(false)(m[k]) by {
            assert(m[k] == file_safe(name[k]));
            assert(is_white(' '));
        }
        lemma_strip_start_skip(m, stripped_by(false), m.len() as int);
        assert(m.subrange(m.len() as int, m.len() as int) =~= Seq::<char>::empty());
    } else {
        let i = choose|i: int| 0 <= i < name.len() && name[i] != ' ';
        let c = name[i];
        assert(m[i] == file_safe(c));
        assert(!is_white(file_safe(c)));
        lemma_strip_keeps(m, stripped_by(false), i);
    }
}

/// Sanitizing a sanitized name changes nothing, so the name a preset is
/// listed under (its file's stem) finds the same file again.
pub proof fn lemma_sanitize_twice(name: Seq<char>)
    ensures
        sanitized(sanitized(name)) == sanitized(name),
{
    let y = sanitized(name);
    lemma_sanitized_is_file_safe(name);
    let my = y.map_values(|c: char| file_safe(c));
    assert(my =~= y) by {
        assert forall|i: int| 0 <= i < y.len() implies #[trigger] my[i] == y[i] by {
            let c = y[i];
            assert(is_alnum(c) || c == ' ' || c == '-' || c == '_');
        }
    }
    lemma_strip_twice(name.map_values(|c: char| file_safe(c)), stripped_by(false));
}

/// Make a user-typed preset name safe to use as a file name.
pub fn sanitize(name: &str) -> (r: String)
    ensures
        r@ == sanitized(name@),
{
    let cs = chars_of(name);
    let mut mapped = String::new();
    let mut i: usize = 0;
    while i < cs.len()
        invariant
            i <= cs.len(),
            cs@ == name@,
            mapped@ == cs@.take(i as int).map_values(|c: char| file_safe(c)),
        decreases cs.len() - i,
    {
        let c = cs[i];
        let keep = char_is_alphanumeric(c) || c == ' ' || c == '-' || c == '_';
        push_char(&mut mapped, if keep { c } else { '_' });
        proof {
            assert(cs@.take(i + 1) =~= cs@.take(i as int).push(c));
            assert(cs@.take(i + 1).map_values(|c: char| file_safe(c)) =~= cs@.take(
                i as int,
            ).map_values(|c: char| file_safe(c)).push(file_safe(c)));
        }
        i += 1;
    }
    proof {
        assert(cs@.take(cs.len() as int) =~= cs@);
    }
    trim(mapped.as_str())
}

/// The file a preset named `name` is stored in: its sanitized name with a
/// `.json` extension.
pub fn preset_file_name(name: &str) -> (r: String)
    ensures
        r@ == sanitized(name@) + ".json"@,
{
    let mut file = sanitize(name);
    file.append(".json");
    file
}

/// The preset names among the entries of the presets folder: the stem of
/// each entry whose file name has exactly the extension `json`, in folder
/// order (entries split at `/` alone, whose file name is `slash_name`).
pub open spec fn json_stems(entries: Seq<Seq<char>>) -> Seq<Seq<char>>
    decreases entries.len(),
{
    if entries.len() == 0 {
        Seq::empty()
    } else {
        let rest = json_stems(entries.drop_last());
        match slash_name(entries.last()) {
            Some(name) => if extension_of(name) == Some("json"@) {
                rest.push(stem_of(name))
            } else {
                rest
            },
            Option::None => rest,
        }
    }
}

/// The presets available, from the paths of the presets folder's entries:
/// the stems of the `.json` files, sorted ignoring case (names equal but
/// for case keep the folder's order). Stated for paths split at `/` alone;
/// with `\` or a drive colon the file name depends on the platform.
pub fn preset_names(entries: &Vec<String>) -> (r: Vec<String>)
    ensures
        (forall|i: int| 0 <= i < entries@.len() ==> is_slash_path(#[trigger] entries@[i]@))
            ==> sorted_by_keys(
            texts(r@),
            json_stems(texts(entries@)),
            json_stems(texts(entries@)).map_values(|n: Seq<char>| lowercase(n)),
        ),
{
    let ghost slashy = forall|i: int| 0 <= i < entries@.len() ==> is_slash_path(#[trigger] entries@[i]@);
    let mut names: Vec<String> = Vec::new();
    let mut i: usize = 0;
    while i < entries.len()
        invariant
            i <= entries@.len(),
            slashy == (forall|k: int| 0 <= k < entries@.len() ==> is_slash_path(#[trigger] entries@[k]@)),
            slashy ==> texts(names@) == json_stems(texts(entries@.take(i as int))),
        decreases entries@.len() - i,
    {
        proof {
            assert(texts(entries@.take(i + 1)).drop_last() =~= texts(entries@.take(i as int)));
            assert(texts(entries@.take(i + 1)).last() == entries@[i as int]@);
        }
        match path_file_name(entries[i].as_str()) {
            Some(name) => {
                let is_json = match extension_text(name.as_str()) {
                    Some(e) => {
                        let cs = chars_of(e.as_str());
                        same_chars(&cs, "json")
                    },
                    None => false,
                };
                if is_json {
                    names.push(stem_text(name.as_str()));
                }
            },
            None => {},
        }
        proof {
            if slashy {
                assert(is_slash_path(entries@[i as int]@));
                assert(texts(names@) =~= json_stems(texts(entries@.take(i + 1))));
            }
        }
        i += 1;
    }
    proof {
        assert(entries@.take(entries@.len() as int) =~= entries@);
    }
    sort_names(&names)
}

} // verus!
