//! Stable ordering of programmes by their start instant.
//!
//! The sort itself is itertools'; what it guarantees is stated here over
//! plain items, and carried over to programmes by the lemmas below.

use vstd::prelude::*;
use itertools::Itertools;

verus! {

/// The instant an item is ordered by: seconds, then nanoseconds.
pub open spec fn key_of(item: (i64, u32, usize)) -> (i64, u32) {
    (item.0, item.1)
}

/// Whether key `a` is at or before key `b`: by seconds, then by nanoseconds.
pub open spec fn key_le(a: (i64, u32), b: (i64, u32)) -> bool {
    a.0 < b.0 || (a.0 == b.0 && a.1 <= b.1)
}

/// The items of `s` with key `k`, in the order they have in `s`.
pub open spec fn with_key(s: Seq<(i64, u32, usize)>, k: (i64, u32)) -> Seq<(i64, u32, usize)> {
    s.filter(|item: (i64, u32, usize)| key_of(item) == k)
}

/// Calls itertools' `sorted_by_key` with the first two components as the
/// key. As its documentation says, the result is in ascending order of
/// the key and the sort is stable: the items of any one key are the same
/// as before and in the same order.
#[verifier::external_body]
pub(crate) fn sorted_by_instant(items: Vec<(i64, u32, usize)>) -> (r: Vec<(i64, u32, usize)>)
    ensures
        forall|i: int, j: int|
            0 <= i < j < r.len() ==> key_le(#[trigger] key_of(r[i]), #[trigger] key_of(r[j])),
        forall|k: (i64, u32)| #[trigger] with_key(r@, k) == with_key(items@, k),
{
    items.into_iter().sorted_by_key(|item| (item.0, item.1)).collect()
}

/// Filtering after mapping equals mapping after filtering, where the two
/// predicates agree on every element.
pub proof fn lemma_filter_map_commute<A, B>(
    s: Seq<A>,
    f: spec_fn(A) -> B,
    on_a: spec_fn(A) -> bool,
    on_b: spec_fn(B) -> bool,
)
    requires
        forall|i: int| 0 <= i < s.len() ==> on_a(#[trigger] s[i]) == on_b(f(s[i])),
    ensures
        s.map_values(f).filter(on_b) == s.filter(on_a).map_values(f),
    decreases s.len(),
{
    reveal(Seq::filter);
    if s.len() != 0 {
        let front = s.drop_last();
        lemma_filter_map_commute(front, f, on_a, on_b);
        assert(s.map_values(f).drop_last() =~= front.map_values(f));
        assert(on_a(s.last()) == on_b(f(s.last())));
    }
}

/// Every item of a sorted list is an item of the list that was sorted.
pub proof fn lemma_sorted_item_known(
    before: Seq<(i64, u32, usize)>,
    after: Seq<(i64, u32, usize)>,
    i: int,
)
    requires
        forall|k: (i64, u32)| #[trigger] with_key(after, k) == with_key(before, k),
        0 <= i < after.len(),
    ensures
        before.contains(after[i]),
{
    let k = key_of(after[i]);
    let pred = |item: (i64, u32, usize)| key_of(item) == k;
    after.lemma_filter_contains(pred, i);
    assert(with_key(after, k).contains(after[i]));
    before.lemma_filter_contains_rev(pred, after[i]);
}

} // verus!
