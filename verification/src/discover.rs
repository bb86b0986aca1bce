//! Finding what to sweep where the caller names nothing: the input files of
//! a directory, and the revisions among the tags of a repository.

use vstd::prelude::*;
use vstd::relations::injective_on;
use vstd::set_lib::{lemma_int_range, lemma_map_size, lemma_subset_equality, set_int_range};
use crate::number::{parse_unsigned, read_unsigned};
use crate::text::{
    chars_of, ends_with, has_prefix, has_suffix, index_of, pieces, slice_of, split, split_at_each,
    starts_with, string_of, texts,
};

verus! {

/// The ending of the name of an input file.
pub const FILE_ENDING: &'static str = ".hvmc";

/// The beginning of a tag that names a revision to compare.
pub const TAG_PREFIX: &'static str = "compare-";

/// Whether a file name has the extension of an input file: it ends with
/// `.hvmc`, and something stands before that.
pub open spec fn is_input_name(name: Seq<char>) -> bool {
    ends_with(name, FILE_ENDING@) && name.len() > FILE_ENDING@.len()
}

/// Whether a file of this name is an input file.
pub fn has_input_extension(name: &str) -> (yes: bool)
    ensures
        yes == is_input_name(name@),
{
    let chars = chars_of(name);
    let ending = chars_of(FILE_ENDING);
    has_suffix(&chars, &ending) && chars.len() > ending.len()
}

/// Whether a tag names a revision to compare.
pub open spec fn is_candidate(tag: Seq<char>) -> bool {
    starts_with(tag, TAG_PREFIX@)
}

/// The tags of a listing, one on each line, that name a revision to compare.
pub open spec fn candidates(listing: Seq<char>) -> Seq<Seq<char>> {
    split(listing, '\n').filter(|tag: Seq<char>| is_candidate(tag))
}

/// The number by which a tag is ordered: what stands between the prefix and
/// the next hyphen, read as an unsigned number. A tag without that hyphen, or
/// without a number before it, has none.
pub open spec fn order_key(tag: Seq<char>) -> Option<nat> {
    if is_candidate(tag) && index_of(tag.skip(TAG_PREFIX@.len() as int), '-') < tag.len()
        - TAG_PREFIX@.len() {
        parse_unsigned(
            tag.skip(TAG_PREFIX@.len() as int).take(
                index_of(tag.skip(TAG_PREFIX@.len() as int), '-') as int,
            ),
            usize::MAX as nat,
        )
    } else {
        None
    }
}

/// Whether the item at `j` comes before the item at `i` when the items are
/// ordered by their keys, items of one key keeping their order.
pub open spec fn comes_before(keys: Seq<nat>, j: int, i: int) -> bool {
    keys[j] < keys[i] || (keys[j] == keys[i] && j < i)
}

/// How many of the first `n` items come before the item at `i`.
pub open spec fn place(keys: Seq<nat>, i: int, n: int) -> nat
    decreases n,
{
    if n <= 0 {
        0
    } else {
        place(keys, i, n - 1) + if comes_before(keys, n - 1, i) {
            1nat
        } else {
            0nat
        }
    }
}

/// The keys of a list of tags that each have one.
pub open spec fn keys_of(tags: Seq<Seq<char>>) -> Seq<nat> {
    Seq::new(tags.len(), |i: int| order_key(tags[i]).unwrap())
}

/// Whether `out` holds the items of `tags` ordered by their keys: each item
/// stands at the place of the number of items that come before it.
pub open spec fn ordered(tags: Seq<Seq<char>>, out: Seq<Seq<char>>) -> bool {
    &&& out.len() == tags.len()
    &&& forall|i: int|
        0 <= i < tags.len() ==> out[place(keys_of(tags), i, tags.len() as int) as int] == #[trigger] tags[i]
}

/// Fewer items come before an item than there are items.
pub proof fn lemma_place_bound(keys: Seq<nat>, i: int, n: int)
    requires
        0 <= i < keys.len(),
        0 <= n <= keys.len(),
    ensures
        place(keys, i, n) <= n,
        i < n ==> place(keys, i, n) < n,
    decreases n,
{
    if n > 0 {
        lemma_place_bound(keys, i, n - 1);
    }
}

/// An item that comes before another stands at a lesser place.
pub proof fn lemma_place_monotone(keys: Seq<nat>, a: int, b: int, n: int)
    requires
        0 <= a < keys.len(),
        0 <= b < keys.len(),
        0 <= n <= keys.len(),
        comes_before(keys, a, b),
    ensures
        place(keys, a, n) + (if a < n { 1nat } else { 0nat }) <= place(keys, b, n),
    decreases n,
{
    if n > 0 {
        lemma_place_monotone(keys, a, b, n - 1);
    }
}

/// Of two items, the one at the lesser place has the lesser key, or the
/// same key and comes first among the items: the places are those of a
/// stable sort.
pub proof fn lemma_places_are_sorted(keys: Seq<nat>, a: int, b: int)
    requires
        0 <= a < keys.len(),
        0 <= b < keys.len(),
        place(keys, a, keys.len() as int) < place(keys, b, keys.len() as int),
    ensures
        keys[a] < keys[b] || (keys[a] == keys[b] && a < b),
{
    if a != b && !comes_before(keys, a, b) {
        lemma_place_monotone(keys, b, a, keys.len() as int);
    }
}

/// Two items stand at two places.
pub proof fn lemma_place_distinct(keys: Seq<nat>, a: int, b: int)
    requires
        0 <= a < keys.len(),
        0 <= b < keys.len(),
        a != b,
    ensures
        place(keys, a, keys.len() as int) != place(keys, b, keys.len() as int),
{
    if comes_before(keys, a, b) {
        lemma_place_monotone(keys, a, b, keys.len() as int);
    } else {
        lemma_place_monotone(keys, b, a, keys.len() as int);
    }
}

/// Every place below the number of items is the place of an item: the
/// places are a rearrangement.
pub proof fn lemma_place_is_onto(keys: Seq<nat>, p: int)
    requires
        0 <= p < keys.len(),
    ensures
        exists|i: int| 0 <= i < keys.len() && place(keys, i, keys.len() as int) == p,
{
    let n = keys.len() as int;
    let items = set_int_range(0, n);
    let f = |i: int| place(keys, i, n) as int;
    let places = items.map(f);
    lemma_int_range(0, n);
    assert(injective_on(f, items)) by {
        assert forall|a: int, b: int|
            items.contains(a) && items.contains(b) && #[trigger] f(a) == #[trigger] f(b) implies a == b by {
            if a != b {
                lemma_place_distinct(keys, a, b);
            }
        }
    }
    lemma_map_size(items, places, f);
    assert(places.subset_of(items)) by {
        assert forall|q: int| places.contains(q) implies items.contains(q) by {
            let i = choose|i: int| items.contains(i) && q == f(i);
            lemma_place_bound(keys, i, n);
        }
    }
    lemma_subset_equality(places, items);
    assert(items.contains(p));
    assert(places.contains(p));
    let i = choose|i: int| items.contains(i) && p == f(i);
    assert(0 <= i < keys.len() && place(keys, i, keys.len() as int) == p);
}

/// The ordered list is sorted and holds the tags, each once: of two of its
/// items, the earlier is a tag of a lesser number than the later, or of the
/// same number and earlier in the listing.
pub proof fn lemma_ordered_is_sorted(tags: Seq<Seq<char>>, out: Seq<Seq<char>>, p: int, q: int)
    requires
        ordered(tags, out),
        0 <= p < q < out.len(),
    ensures
        exists|i: int, j: int|
            {
                &&& 0 <= i < tags.len()
                &&& 0 <= j < tags.len()
                &&& out[p] == tags[i]
                &&& out[q] == tags[j]
                &&& #[trigger] comes_before(keys_of(tags), i, j)
            },
{
    let keys = keys_of(tags);
    lemma_place_is_onto(keys, p);
    lemma_place_is_onto(keys, q);
    let i = choose|i: int| 0 <= i < keys.len() && place(keys, i, keys.len() as int) == p;
    let j = choose|j: int| 0 <= j < keys.len() && place(keys, j, keys.len() as int) == q;
    lemma_places_are_sorted(keys, i, j);
    assert(keys.len() == tags.len());
    assert(out[p] == tags[i]);
    assert(out[q] == tags[j]);
    assert(comes_before(keys_of(tags), i, j));
}

/// There is one ordered list of given tags, and no other.
pub proof fn lemma_ordered_is_unique(tags: Seq<Seq<char>>, a: Seq<Seq<char>>, b: Seq<Seq<char>>)
    requires
        ordered(tags, a),
        ordered(tags, b),
    ensures
        a == b,
{
    let keys = keys_of(tags);
    assert forall|p: int| 0 <= p < a.len() implies a[p] == b[p] by {
        lemma_place_is_onto(keys, p);
        let i = choose|i: int| 0 <= i < keys.len() && place(keys, i, keys.len() as int) == p;
        assert(a[p] == tags[i]);
        assert(b[p] == tags[i]);
    }
    assert(a =~= b);
}

/// The number by which a tag is ordered.
fn key_of(tag: &Vec<char>) -> (key: Option<u64>)
    ensures
        match key {
            Some(k) => order_key(tag@) == Some(k as nat),
            None => order_key(tag@) is None,
        },
{
    let prefix = chars_of(TAG_PREFIX);
    if !has_prefix(tag, &prefix) {
        return None;
    }
    let rest = slice_of(tag, prefix.len(), tag.len());
    assert(rest@ == tag@.skip(TAG_PREFIX@.len() as int));
    let dash = crate::number::position_of(&rest, '-');
    if dash >= rest.len() {
        return None;
    }
    let number = slice_of(&rest, 0, dash);
    assert(number@ == rest@.take(dash as int));
    read_unsigned(&number, usize::MAX as u64)
}

/// The place of item `i` among items of the given keys.
fn place_of(keys: &Vec<u64>, i: usize) -> (at: usize)
    requires
        i < keys.len(),
    ensures
        at == place(keys@.map_values(|k: u64| k as nat), i as int, keys@.len() as int),
        at < keys.len(),
{
    let ghost all = keys@.map_values(|k: u64| k as nat);
    let mut at: usize = 0;
    let mut j: usize = 0;
    while j < keys.len()
        invariant
            j <= keys.len(),
            i < keys.len(),
            all == keys@.map_values(|k: u64| k as nat),
            at == place(all, i as int, j as int),
            at <= j,
        decreases keys.len() - j,
    {
        if keys[j] < keys[i] || (keys[j] == keys[i] && j < i) {
            at += 1;
        }
        j += 1;
    }
    proof {
        lemma_place_bound(all, i as int, keys.len() as int);
    }
    at
}

/// The revisions to compare among the tags of a repository: the tags of
/// `listing`, one on each line, that begin with `compare-`, ordered by the
/// number that follows the prefix. Tags of one number keep their order.
///
/// There is no answer where one of those tags has no such number.
pub fn discover_revisions(listing: &str) -> (res: Option<Vec<String>>)
    ensures
        match res {
            Some(revs) => {
                &&& forall|i: int|
                    0 <= i < candidates(listing@).len() ==> (#[trigger] order_key(
                        candidates(listing@)[i],
                    )) is Some
                &&& ordered(candidates(listing@), texts(revs@))
            },
            None => exists|i: int|
                0 <= i < candidates(listing@).len() && (#[trigger] order_key(candidates(listing@)[i]))
                    is None,
        },
{
    let chars = chars_of(listing);
    let all = split_at_each(&chars, '\n');
    let prefix = chars_of(TAG_PREFIX);
    let ghost found = candidates(listing@);
    let mut tags: Vec<Vec<char>> = Vec::new();
    let mut keys: Vec<u64> = Vec::new();
    let mut i: usize = 0;
    assert(pieces(all@).take(0).filter(|tag: Seq<char>| is_candidate(tag)) == Seq::<Seq<char>>::empty());
    while i < all.len()
        invariant
            i <= all.len(),
            prefix@ == TAG_PREFIX@,
            pieces(all@) == split(listing@, '\n'),
            found == candidates(listing@),
            pieces(tags@) == pieces(all@).take(i as int).filter(|tag: Seq<char>| is_candidate(tag)),
            keys@.len() == tags@.len(),
            forall|k: int| 0 <= k < tags@.len() ==> order_key(#[trigger] pieces(tags@)[k]) == Some(keys@[k] as nat),
        decreases all.len() - i,
    {
        let ghost before = pieces(tags@);
        proof {
            assert(pieces(all@).take(i + 1).drop_last() == pieces(all@).take(i as int));
            assert(pieces(all@).take(i + 1).last() == all@[i as int]@);
            reveal(Seq::filter);
        }
        if has_prefix(&all[i], &prefix) {
            match key_of(&all[i]) {
                None => {
                    proof {
                        let longer = pieces(all@).take(i + 1).filter(|tag: Seq<char>| is_candidate(tag));
                        assert(longer == before.push(all@[i as int]@));
                        assert(pieces(all@) == pieces(all@).take(i + 1) + pieces(all@).skip(i + 1));
                        Seq::filter_distributes_over_add(
                            pieces(all@).take(i + 1),
                            pieces(all@).skip(i + 1),
                            |tag: Seq<char>| is_candidate(tag),
                        );
                        assert(found == longer + pieces(all@).skip(i + 1).filter(
                            |tag: Seq<char>| is_candidate(tag),
                        ));
                        assert(found[before.len() as int] == all@[i as int]@);
                        assert(order_key(found[before.len() as int]) is None);
                    }
                    return None;
                },
                Some(key) => {
                    tags.push(slice_of(&all[i], 0, all[i].len()));
                    keys.push(key);
                    assert(all@[i as int]@.subrange(0, all@[i as int]@.len() as int) == all@[i as int]@);
                    assert(pieces(tags@) == before.push(all@[i as int]@));
                },
            }
        }
        i += 1;
    }
    assert(pieces(all@).take(all.len() as int) == pieces(all@));
    assert(pieces(tags@) == found);
    let ghost wanted = keys_of(found);
    assert(keys@.map_values(|k: u64| k as nat) == wanted);
    let n = tags.len();
    let mut revs: Vec<String> = Vec::new();
    let mut j: usize = 0;
    while j < n
        invariant
            j <= n,
            revs@.len() == j,
        decreases n - j,
    {
        revs.push(String::new());
        j += 1;
    }
    let mut i: usize = 0;
    while i < n
        invariant
            i <= n,
            n == tags@.len(),
            n == keys@.len(),
            revs@.len() == n,
            pieces(tags@) == found,
            wanted == keys_of(found),
            keys@.map_values(|k: u64| k as nat) == wanted,
            forall|k: int| 0 <= k < i ==> texts(revs@)[place(wanted, k, n as int) as int] == #[trigger] found[k],
        decreases n - i,
    {
        let at = place_of(&keys, i);
        let ghost before = texts(revs@);
        let rev = string_of(&tags[i]);
        assert(rev@ == found[i as int]);
        revs.set(at, rev);
        assert(texts(revs@) == before.update(at as int, found[i as int]));
        assert forall|k: int| 0 <= k < i + 1 implies texts(revs@)[place(wanted, k, n as int) as int]
            == #[trigger] found[k] by {
            if k < i {
                lemma_place_distinct(wanted, k, i as int);
                lemma_place_bound(wanted, k, n as int);
            }
        }
        i += 1;
    }
    Some(revs)
}

} // verus!
