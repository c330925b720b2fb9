//! Recently opened folders, most recent first, as shown on the welcome
//! screen.

use vstd::prelude::*;
use crate::paths::{is_plain_path, is_slash_path, same_path, slash_components};

verus! {

/// How many recent folders are remembered.
pub const MAX_RECENT: usize = 8;

/// The text of each folder path in a list.
pub open spec fn texts(list: Seq<String>) -> Seq<Seq<char>> {
    list.map_values(|p: String| p@)
}

/// Every folder but `dir`.
pub open spec fn other_than(dir: Seq<char>) -> spec_fn(Seq<char>) -> bool {
    |p: Seq<char>| p != dir
}

/// The list after `dir` is opened: `dir` moves to the front, any other
/// occurrence of it is dropped, everything else keeps its order, and only
/// the first `MAX_RECENT` entries stay.
pub open spec fn remembered(list: Seq<Seq<char>>, dir: Seq<char>) -> Seq<Seq<char>> {
    let all = seq![dir] + list.filter(other_than(dir));
    if all.len() > MAX_RECENT {
        all.take(MAX_RECENT as int)
    } else {
        all
    }
}

/// The entries of `list` whose `keep` flag is set, in order.
pub open spec fn kept(list: Seq<Seq<char>>, keep: Seq<bool>) -> Seq<Seq<char>>
    decreases list.len(),
{
    if list.len() == 0 {
        Seq::empty()
    } else {
        let rest = kept(list.drop_last(), keep.take(list.len() - 1));
        if keep[list.len() - 1] {
            rest.push(list.last())
        } else {
            rest
        }
    }
}

/// The list after `dir` is opened, where `keep` says which older entries
/// are other folders than `dir`: `dir` first, then those entries in order,
/// only the first `MAX_RECENT` kept.
pub open spec fn remembered_by(list: Seq<Seq<char>>, dir: Seq<char>, keep: Seq<bool>) -> Seq<
    Seq<char>,
> {
    let all = seq![dir] + kept(list, keep);
    if all.len() > MAX_RECENT {
        all.take(MAX_RECENT as int)
    } else {
        all
    }
}

/// Keeping exactly the entries other than `dir` is filtering them out.
proof fn lemma_kept_is_filter(list: Seq<Seq<char>>, dir: Seq<char>, keep: Seq<bool>)
    requires
        keep.len() == list.len(),
        forall|i: int| 0 <= i < list.len() ==> keep[i] == (list[i] != dir),
    ensures
        kept(list, keep) == list.filter(other_than(dir)),
    decreases list.len(),
{
    reveal(Seq::filter);
    if list.len() > 0 {
        let n = list.len() - 1;
        lemma_kept_is_filter(list.drop_last(), dir, keep.take(n));
    }
}

/// Whether every entry of the list, and `dir`, is a plain path.
pub open spec fn all_plain(list: Seq<String>, dir: Seq<char>) -> bool {
    is_plain_path(dir) && forall|i: int| 0 <= i < list.len() ==> is_plain_path(#[trigger] list[i]@)
}

/// Move `dir` to the front of the recent-folder list, dropping its older
/// entries (any entry that is the same path, compared as `Path`s compare:
/// for paths split at `/` alone, the same components, so `a/b/` and `a/b`
/// are one folder) and anything past the `MAX_RECENT` most recent. For
/// plain paths the same path is the same text, and the result is
/// `remembered`.
pub fn remember(list: &mut Vec<String>, dir: String)
    ensures
        exists|keep: Seq<bool>|
            {
                &&& keep.len() == old(list)@.len()
                &&& forall|i: int|
                    0 <= i < keep.len() && old(list)@[i]@ == dir@ ==> !(#[trigger] keep[i])
                &&& forall|i: int|
                    0 <= i < keep.len() && is_plain_path(old(list)@[i]@) && is_plain_path(dir@)
                        ==> #[trigger] keep[i] == (old(list)@[i]@ != dir@)
                &&& forall|i: int|
                    0 <= i < keep.len() && is_slash_path(old(list)@[i]@) && is_slash_path(dir@)
                        ==> #[trigger] keep[i] == (slash_components(old(list)@[i]@)
                        != slash_components(dir@))
                &&& texts(final(list)@) == remembered_by(texts(old(list)@), dir@, keep)
            },
        all_plain(old(list)@, dir@) ==> texts(final(list)@) == remembered(texts(old(list)@), dir@),
{
    let ghost old_texts = texts(list@);
    let ghost mut keep: Seq<bool> = Seq::empty();
    let mut out: Vec<String> = Vec::new();
    out.push(dir.clone());
    let mut i: usize = 0;
    while i < list.len()
        invariant
            i <= list.len(),
            list@ == old(list)@,
            old_texts == texts(list@),
            keep.len() == i,
            forall|j: int| 0 <= j < i && list@[j]@ == dir@ ==> !(#[trigger] keep[j]),
            forall|j: int|
                0 <= j < i && is_plain_path(list@[j]@) && is_plain_path(dir@) ==> #[trigger] keep[j]
                    == (list@[j]@ != dir@),
            forall|j: int|
                0 <= j < i && is_slash_path(list@[j]@) && is_slash_path(dir@) ==> #[trigger] keep[j]
                    == (slash_components(list@[j]@) != slash_components(dir@)),
            texts(out@) == seq![dir@] + kept(old_texts.take(i as int), keep),
        decreases list.len() - i,
    {
        let same = same_path(list[i].as_str(), dir.as_str());
        let ghost before = out@;
        if !same {
            out.push(list[i].clone());
        }
        proof {
            let next = keep.push(!same);
            assert(old_texts.take(i + 1).drop_last() =~= old_texts.take(i as int));
            assert(old_texts.take(i + 1).last() == list@[i as int]@);
            assert(next.take(i as int) =~= keep);
            if !same {
                assert(texts(out@) =~= texts(before).push(list@[i as int]@));
            }
            keep = next;
        }
        i += 1;
    }
    proof {
        assert(old_texts.take(list.len() as int) =~= old_texts);
        if all_plain(list@, dir@) {
            assert forall|j: int| 0 <= j < old_texts.len() implies keep[j] == (old_texts[j]
                != dir@) by {
                assert(is_plain_path(list@[j]@));
                assert(old_texts[j] == list@[j]@);
            }
            lemma_kept_is_filter(old_texts, dir@, keep);
        }
    }
    let ghost full = texts(out@);
    if out.len() > MAX_RECENT {
        out.truncate(MAX_RECENT);
        proof {
            assert(texts(out@) =~= full.take(MAX_RECENT as int));
        }
    }
    *list = out;
    proof {
        assert(texts(list@) == remembered_by(old_texts, dir@, keep));
        assert(keep.len() == old(list)@.len());
    }
}

/// The list `serde_json::from_str::<Vec<String>>` reads from `text`: the
/// strings of a JSON array of strings; nothing for any other text.
pub uninterp spec fn json_text_list(text: Seq<char>) -> Option<Seq<Seq<char>>>;

/// The text `serde_json::to_string_pretty` writes for a list of strings: a
/// pretty-printed JSON array of them.
pub uninterp spec fn json_pretty_text_list(list: Seq<Seq<char>>) -> Seq<char>;

/// The texts of a parsed list, if there is one.
pub open spec fn opt_texts(v: Option<Vec<String>>) -> Option<Seq<Seq<char>>> {
    match v {
        Some(l) => Some(texts(l@)),
        Option::None => Option::None,
    }
}

/// `serde_json::from_str::<Vec<String>>`: the list of strings the JSON text
/// holds, or nothing when it is not a JSON array of strings (the error is
/// dropped). The result is a function of the text alone.
#[verifier::external_body]
fn parse_text_list(text: &str) -> (r: Option<Vec<String>>)
    ensures
        opt_texts(r) == json_text_list(text@),
{
    serde_json::from_str::<Vec<String>>(text).ok()
}

/// `serde_json::to_string_pretty` on a list of strings, which its
/// documentation says fails only for a `Serialize` impl that fails or a map
/// with non-string keys, so never here. The text is a function of the list,
/// and reading it back with `serde_json::from_str` gives the same list
/// (strings are written with their special characters escaped and read
/// back unescaped).
#[verifier::external_body]
fn pretty_text_list(list: &Vec<String>) -> (r: String)
    ensures
        r@ == json_pretty_text_list(texts(list@)),
        json_text_list(r@) == Some(texts(list@)),
{
    serde_json::to_string_pretty(list).unwrap_or_default()
}

/// The recent-folder list stored in `text` (the contents of `recent.json`):
/// the folders of a JSON array of strings, in order; an empty list for any
/// other text.
pub fn recent_from_json(text: &str) -> (r: Vec<String>)
    ensures
        match json_text_list(text@) {
            Some(l) => texts(r@) == l,
            Option::None => r@.len() == 0,
        },
{
    match parse_text_list(text) {
        Some(list) => list,
        None => Vec::new(),
    }
}

/// The text the recent-folder list is stored as: a pretty-printed JSON
/// array of the folders. Reading it back with `recent_from_json` gives the
/// same list.
pub fn recent_to_json(list: &Vec<String>) -> (r: String)
    ensures
        r@ == json_pretty_text_list(texts(list@)),
        json_text_list(r@) == Some(texts(list@)),
{
    pretty_text_list(list)
}


/// The folder just opened is first, and appears nowhere else.
pub proof fn lemma_remembered_front(list: Seq<Seq<char>>, dir: Seq<char>)
    ensures
        remembered(list, dir).len() > 0,
        remembered(list, dir)[0] == dir,
        forall|i: int| 1 <= i < remembered(list, dir).len() ==> remembered(list, dir)[i] != dir,
        remembered(list, dir).len() <= MAX_RECENT,
{
    let rest = list.filter(other_than(dir));
    broadcast use Seq::lemma_filter_pred;
    let all = seq![dir] + rest;
    assert forall|i: int| 1 <= i < all.len() implies all[i] != dir by {
        assert(all[i] == rest[i - 1]);
    }
}

/// Opening the folder that is already most recent again changes nothing.
pub proof fn lemma_remember_twice(list: Seq<Seq<char>>, dir: Seq<char>)
    ensures
        remembered(remembered(list, dir), dir) == remembered(list, dir),
{
    let keep = other_than(dir);
    let once = remembered(list, dir);
    lemma_remembered_front(list, dir);
    let tail = once.drop_first();
    assert(once =~= seq![dir] + tail);
    lemma_filter_drops_nothing(tail, dir);
    assert(once.filter(keep) == tail) by {
        Seq::filter_distributes_over_add(seq![dir], tail, keep);
        reveal_with_fuel(Seq::filter, 2);
        assert(seq![dir].filter(keep) =~= Seq::<Seq<char>>::empty());
    }
    assert(seq![dir] + once.filter(keep) =~= once);
}

proof fn lemma_filter_drops_nothing(s: Seq<Seq<char>>, dir: Seq<char>)
    requires
        forall|i: int| 0 <= i < s.len() ==> s[i] != dir,
    ensures
        s.filter(other_than(dir)) == s,
    decreases s.len(),
{
    reveal(Seq::filter);
    if s.len() > 0 {
        lemma_filter_drops_nothing(s.drop_last(), dir);
        assert(s.drop_last().push(s.last()) =~= s);
    }
}

} // verus!
