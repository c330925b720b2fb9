//! Ordering file lists for display: photos of a folder and preset names are
//! listed by name, ignoring case, in a stable order.

use vstd::prelude::*;
use crate::paths::{
    final_component, is_plain_path, is_slash_path, path_file_name, same_path,
    slash_components, slash_file_name,
};
use crate::text::chars_of;

verus! {

/// What `str::to_lowercase` gives for `s` (full Unicode lower-casing).
pub uninterp spec fn lowercase(s: Seq<char>) -> Seq<char>;

/// `str::to_lowercase`, whose result depends on the text alone.
#[verifier::external_body]
fn to_lowercase(s: &str) -> (r: String)
    ensures
        r@ == lowercase(s@),
{
    s.to_lowercase()
}

/// `a` sorts strictly before `b`: character by character by code point,
/// a proper prefix first (the order of `String`, whose byte order is the
/// code point order).
pub open spec fn text_lt(a: Seq<char>, b: Seq<char>) -> bool
    decreases a.len(),
{
    if a.len() == 0 {
        b.len() > 0
    } else if b.len() == 0 {
        false
    } else if a[0] != b[0] {
        a[0] < b[0]
    } else {
        text_lt(a.drop_first(), b.drop_first())
    }
}

proof fn lemma_text_lt_irreflexive(a: Seq<char>)
    ensures
        !text_lt(a, a),
    decreases a.len(),
{
    if a.len() > 0 {
        lemma_text_lt_irreflexive(a.drop_first());
    }
}

proof fn lemma_text_lt_total(a: Seq<char>, b: Seq<char>)
    ensures
        a == b || text_lt(a, b) || text_lt(b, a),
    decreases a.len(),
{
    if a.len() > 0 && b.len() > 0 {
        if a[0] == b[0] {
            lemma_text_lt_total(a.drop_first(), b.drop_first());
            if a.drop_first() == b.drop_first() {
                assert(a =~= seq![a[0]] + a.drop_first());
                assert(b =~= seq![b[0]] + b.drop_first());
            }
        }
    } else if a.len() == 0 && b.len() == 0 {
        assert(a =~= b);
    }
}

proof fn lemma_text_lt_asymmetric(a: Seq<char>, b: Seq<char>)
    ensures
        !(text_lt(a, b) && text_lt(b, a)),
    decreases a.len(),
{
    if a.len() > 0 && b.len() > 0 && a[0] == b[0] {
        lemma_text_lt_asymmetric(a.drop_first(), b.drop_first());
    }
}

proof fn lemma_text_lt_transitive(a: Seq<char>, b: Seq<char>, c: Seq<char>)
    requires
        text_lt(a, b),
        text_lt(b, c),
    ensures
        text_lt(a, c),
    decreases a.len(),
{
    if a.len() > 0 && b.len() > 0 && c.len() > 0 {
        if a[0] == b[0] && b[0] == c[0] {
            lemma_text_lt_transitive(a.drop_first(), b.drop_first(), c.drop_first());
        }
    }
}

/// Whether `a` sorts strictly before `b`.
fn text_less(a: &Vec<char>, b: &Vec<char>) -> (r: bool)
    ensures
        r == text_lt(a@, b@),
{
    let mut i: usize = 0;
    assert(a@.skip(0) =~= a@ && b@.skip(0) =~= b@);
    while i < a.len() && i < b.len() && a[i] == b[i]
        invariant
            i <= a.len(),
            i <= b.len(),
            text_lt(a@, b@) == text_lt(a@.skip(i as int), b@.skip(i as int)),
        decreases a.len() - i,
    {
        proof {
            assert(a@.skip(i as int).drop_first() =~= a@.skip(i + 1));
            assert(b@.skip(i as int).drop_first() =~= b@.skip(i + 1));
        }
        i += 1;
    }
    let ghost sa = a@.skip(i as int);
    let ghost sb = b@.skip(i as int);
    if i == a.len() {
        i < b.len()
    } else if i == b.len() {
        false
    } else {
        assert(sa[0] == a@[i as int] && sb[0] == b@[i as int]);
        a[i] < b[i]
    }
}

/// `order` lists each index below `n` exactly once.
pub open spec fn is_permutation(order: Seq<int>, n: int) -> bool {
    &&& order.len() == n
    &&& forall|j: int| 0 <= j < n ==> 0 <= #[trigger] order[j] < n
    &&& forall|j: int, k: int| 0 <= j < k < n ==> order[j] != order[k]
}

/// `order` visits the keys in ascending order, equal keys in their original
/// order.
pub open spec fn stably_ordered(order: Seq<int>, keys: Seq<Seq<char>>) -> bool {
    forall|j: int, k: int|
        0 <= j < k < order.len() ==> text_lt(keys[order[j]], keys[order[k]]) || (keys[order[j]]
            == keys[order[k]] && order[j] < order[k])
}

/// The positions of `keys` in stable ascending order of their keys.
pub fn stable_order(keys: &Vec<Vec<char>>) -> (order: Vec<usize>)
    ensures
        is_permutation(order@.map_values(|x: usize| x as int), keys@.len() as int),
        stably_ordered(
            order@.map_values(|x: usize| x as int),
            keys@.map_values(|k: Vec<char>| k@),
        ),
{
    let ghost ks = keys@.map_values(|k: Vec<char>| k@);
    let mut order: Vec<usize> = Vec::new();
    let mut i: usize = 0;
    while i < keys.len()
        invariant
            i <= keys.len(),
            ks == keys@.map_values(|k: Vec<char>| k@),
            order@.len() == i,
            forall|j: int| 0 <= j < i ==> #[trigger] order@[j] < i,
            forall|j: int, k: int| 0 <= j < k < i ==> order@[j] != order@[k],
            stably_ordered(order@.map_values(|x: usize| x as int), ks),
        decreases keys.len() - i,
    {
        let mut p: usize = 0;
        while p < order.len() && !text_less(&keys[i], &keys[order[p]])
            invariant
                i < keys.len(),
                ks == keys@.map_values(|k: Vec<char>| k@),
                order@.len() == i,
                forall|j: int| 0 <= j < i ==> #[trigger] order@[j] < i,
                p <= order@.len(),
                forall|j: int| 0 <= j < p ==> !text_lt(ks[i as int], ks[order@[j] as int]),
            decreases order@.len() - p,
        {
            p += 1;
        }
        let ghost before = order@;
        let ghost bi = before.map_values(|x: usize| x as int);
        order.insert(p, i);
        proof {
            let after = order@.map_values(|x: usize| x as int);
            assert(after =~= bi.insert(p as int, i as int));
            assert forall|j: int| 0 <= j < i + 1 implies #[trigger] order@[j] < i + 1 by {
                if j < p {
                    assert(order@[j] == before[j]);
                } else if j > p {
                    assert(order@[j] == before[j - 1]);
                }
            }
            assert forall|j: int, k: int| 0 <= j < k < i + 1 implies order@[j] != order@[k] by {
                if j < p && k < p {
                    assert(order@[j] == before[j] && order@[k] == before[k]);
                } else if j < p && k == p {
                    assert(order@[j] == before[j]);
                } else if j < p && k > p {
                    assert(order@[j] == before[j] && order@[k] == before[k - 1]);
                } else if j == p {
                    assert(order@[k] == before[k - 1]);
                } else {
                    assert(order@[j] == before[j - 1] && order@[k] == before[k - 1]);
                }
            }
            assert forall|j: int, k: int| 0 <= j < k < order@.len() implies text_lt(
                ks[after[j]],
                ks[after[k]],
            ) || (ks[after[j]] == ks[after[k]] && after[j] < after[k]) by {
                if j < p && k < p {
                    assert(after[j] == bi[j] && after[k] == bi[k]);
                } else if j < p && k == p {
                    assert(after[j] == bi[j]);
                    assert(after[k] == i);
                    assert(!text_lt(ks[i as int], ks[bi[j]]));
                    lemma_text_lt_total(ks[i as int], ks[bi[j]]);
                    assert(bi[j] < i);
                } else if j < p && k > p {
                    assert(after[j] == bi[j] && after[k] == bi[k - 1]);
                } else if j == p {
                    assert(after[j] == i);
                    assert(after[k] == bi[k - 1]);
                    assert(p < before.len());
                    assert(text_lt(ks[i as int], ks[bi[p as int]]));
                    if k - 1 > p {
                        assert(text_lt(ks[bi[p as int]], ks[bi[k - 1]]) || ks[bi[p as int]] == ks[bi[k - 1]]);
                        if text_lt(ks[bi[p as int]], ks[bi[k - 1]]) {
                            lemma_text_lt_transitive(ks[i as int], ks[bi[p as int]], ks[bi[k - 1]]);
                        }
                    }
                } else {
                    assert(after[j] == bi[j - 1] && after[k] == bi[k - 1]);
                }
            }
        }
        i += 1;
    }
    order
}

/// `out` lists `inp` in stable ascending order of `keys` (one key per
/// entry of `inp`).
pub open spec fn sorted_by_keys(out: Seq<Seq<char>>, inp: Seq<Seq<char>>, keys: Seq<Seq<char>>) -> bool {
    exists|order: Seq<int>|
        {
            &&& is_permutation(order, inp.len() as int)
            &&& stably_ordered(order, keys)
            &&& out.len() == inp.len()
            &&& forall|j: int| 0 <= j < out.len() ==> #[trigger] out[j] == inp[order[j]]
        }
}

/// The text of each string.
pub open spec fn texts(v: Seq<String>) -> Seq<Seq<char>> {
    v.map_values(|s: String| s@)
}

/// `items` in the stable ascending order of `keys`.
fn arrange(items: &Vec<String>, keys: &Vec<Vec<char>>) -> (r: Vec<String>)
    requires
        items@.len() == keys@.len(),
    ensures
        sorted_by_keys(texts(r@), texts(items@), keys@.map_values(|k: Vec<char>| k@)),
{
    let order = stable_order(keys);
    let ghost ord = order@.map_values(|x: usize| x as int);
    let mut out: Vec<String> = Vec::new();
    let mut j: usize = 0;
    while j < order.len()
        invariant
            j <= order@.len(),
            order@.len() == items@.len(),
            ord == order@.map_values(|x: usize| x as int),
            is_permutation(ord, items@.len() as int),
            out@.len() == j,
            forall|t: int| 0 <= t < j ==> #[trigger] out@[t]@ == items@[ord[t]]@,
        decreases order@.len() - j,
    {
        assert(ord[j as int] == order@[j as int]);
        let s = items[order[j]].clone();
        out.push(s);
        j += 1;
    }
    proof {
        let o = texts(out@);
        let inp = texts(items@);
        assert forall|t: int| 0 <= t < o.len() implies #[trigger] o[t] == inp[ord[t]] by {
            assert(o[t] == out@[t]@);
        }
        assert(sorted_by_keys(o, inp, keys@.map_values(|k: Vec<char>| k@)));
    }
    out
}

/// Preset names sorted by name, ignoring case; names equal but for case
/// keep their order.
pub fn sort_names(names: &Vec<String>) -> (r: Vec<String>)
    ensures
        sorted_by_keys(texts(r@), texts(names@), texts(names@).map_values(|n: Seq<char>| lowercase(n))),
{
    let mut keys: Vec<Vec<char>> = Vec::new();
    let mut i: usize = 0;
    while i < names.len()
        invariant
            i <= names@.len(),
            keys@.len() == i,
            forall|t: int| 0 <= t < i ==> #[trigger] keys@[t]@ == lowercase(names@[t]@),
        decreases names@.len() - i,
    {
        let low = to_lowercase(names[i].as_str());
        keys.push(chars_of(low.as_str()));
        i += 1;
    }
    assert(keys@.map_values(|k: Vec<char>| k@) =~= texts(names@).map_values(|n: Seq<char>| lowercase(n)));
    arrange(names, &keys)
}

/// Photo paths sorted by file name, ignoring case; equal names keep their
/// order. The key of a path split at `/` alone is its lower-cased file
/// name (empty when it has none); for a plain path that is its final
/// component.
pub fn sort_by_file_name(paths: &Vec<String>) -> (r: Vec<String>)
    ensures
        exists|keys: Seq<Seq<char>>|
            {
                &&& keys.len() == paths@.len()
                &&& forall|t: int|
                    0 <= t < keys.len() && is_plain_path(paths@[t]@) ==> #[trigger] keys[t]
                        == lowercase(final_component(paths@[t]@))
                &&& forall|t: int|
                    0 <= t < keys.len() && is_slash_path(paths@[t]@) ==> #[trigger] keys[t]
                        == lowercase(slash_file_name(paths@[t]@))
                &&& sorted_by_keys(texts(r@), texts(paths@), keys)
            },
{
    let mut keys: Vec<Vec<char>> = Vec::new();
    let mut i: usize = 0;
    while i < paths.len()
        invariant
            i <= paths@.len(),
            keys@.len() == i,
            forall|t: int|
                0 <= t < i && is_plain_path(paths@[t]@) ==> #[trigger] keys@[t]@ == lowercase(
                    final_component(paths@[t]@),
                ),
            forall|t: int|
                0 <= t < i && is_slash_path(paths@[t]@) ==> #[trigger] keys@[t]@ == lowercase(
                    slash_file_name(paths@[t]@),
                ),
        decreases paths@.len() - i,
    {
        let name = match path_file_name(paths[i].as_str()) {
            Some(n) => n,
            None => String::new(),
        };
        let low = to_lowercase(name.as_str());
        keys.push(chars_of(low.as_str()));
        i += 1;
    }
    let r = arrange(paths, &keys);
    assert(keys@.map_values(|k: Vec<char>| k@).len() == paths@.len());
    r
}

/// Where a folder's photo list should start: at the first photo that is
/// the same path as the one that was opened (paths compare as `Path`s do),
/// else at the first. A photo with exactly the opened path's text always
/// counts as the same path; for plain paths nothing else does; for paths
/// split at `/` alone, exactly the photos with the same components do.
pub fn focus_index(files: &Vec<String>, focus: &Option<String>) -> (r: usize)
    ensures
        files@.len() == 0 ==> r == 0,
        files@.len() > 0 ==> r < files@.len(),
        match *focus {
            Some(f) => {
                &&& forall|j: int| 0 <= j < files@.len() && files@[j]@ == f@ ==> r <= j
                &&& (is_plain_path(f@) && forall|j: int|
                    0 <= j < files@.len() ==> is_plain_path(#[trigger] files@[j]@)) ==> {
                    &&& (exists|j: int| 0 <= j < files@.len() && files@[j]@ == f@) ==> {
                        &&& files@[r as int]@ == f@
                        &&& forall|j: int| 0 <= j < r ==> files@[j]@ != f@
                    }
                    &&& !(exists|j: int| 0 <= j < files@.len() && files@[j]@ == f@) ==> r == 0
                }
                &&& (is_slash_path(f@) && forall|j: int|
                    0 <= j < files@.len() ==> is_slash_path(#[trigger] files@[j]@)) ==> {
                    &&& (exists|j: int|
                        0 <= j < files@.len() && slash_components(files@[j]@) == slash_components(
                            f@,
                        )) ==> {
                        &&& slash_components(files@[r as int]@) == slash_components(f@)
                        &&& forall|j: int|
                            0 <= j < r ==> slash_components(files@[j]@) != slash_components(f@)
                    }
                    &&& !(exists|j: int|
                        0 <= j < files@.len() && slash_components(files@[j]@) == slash_components(
                            f@,
                        )) ==> r == 0
                }
            },
            Option::None => r == 0,
        },
{
    match focus {
        Some(f) => {
            let ghost plain = is_plain_path(f@) && forall|j: int|
                0 <= j < files@.len() ==> is_plain_path(#[trigger] files@[j]@);
            let ghost slashy = is_slash_path(f@) && forall|j: int|
                0 <= j < files@.len() ==> is_slash_path(#[trigger] files@[j]@);
            let mut i: usize = 0;
            while i < files.len()
                invariant
                    *focus == Some(*f),
                    i <= files@.len(),
                    plain == (is_plain_path(f@) && forall|j: int|
                        0 <= j < files@.len() ==> is_plain_path(#[trigger] files@[j]@)),
                    slashy == (is_slash_path(f@) && forall|j: int|
                        0 <= j < files@.len() ==> is_slash_path(#[trigger] files@[j]@)),
                    forall|j: int| 0 <= j < i ==> files@[j]@ != f@,
                    slashy ==> forall|j: int|
                        0 <= j < i ==> slash_components(files@[j]@) != slash_components(f@),
                decreases files@.len() - i,
            {
                if same_path(files[i].as_str(), f.as_str()) {
                    proof {
                        if plain {
                            assert(is_plain_path(files@[i as int]@));
                        }
                        if slashy {
                            assert(is_slash_path(files@[i as int]@));
                        }
                    }
                    return i;
                }
                proof {
                    if slashy {
                        assert(is_slash_path(files@[i as int]@));
                    }
                }
                i += 1;
            }
            0
        },
        None => 0,
    }
}

} // verus!
