//! Sorted order of integers.
use vstd::prelude::*;
#[allow(unused_imports)]
use vstd::relations::*;
#[allow(unused_imports)]
use vstd::seq_lib::*;

verus! {

/// Integer order.
pub open spec fn at_most() -> spec_fn(i32, i32) -> bool {
    |a: i32, b: i32| a <= b
}

/// The keys in ascending order.
pub open spec fn ascending(keys: Seq<i32>) -> Seq<i32> {
    keys.sort_by(at_most())
}

/// Calls `sort_unstable` of a slice of std.
///
/// Trusted: afterwards the slice holds the same keys as before, each as often, in
/// ascending order.
#[verifier::external_body]
fn sort_unstable(keys: &mut Vec<i32>)
    ensures
        final(keys)@.to_multiset() == old(keys)@.to_multiset(),
        forall|i: int, j: int|
            0 <= i <= j < final(keys)@.len() ==> final(keys)@[i] <= final(keys)@[j],
{
    keys.sort_unstable();
}

/// Puts the keys in ascending order.
pub fn sort_keys(keys: &mut Vec<i32>)
    ensures
        final(keys)@ == ascending(old(keys)@),
        final(keys)@.len() == old(keys)@.len(),
{
    let ghost before = keys@;
    sort_unstable(keys);
    proof {
        lemma_ascending_is_the_sorted_order(before, keys@);
    }
}

/// A permutation of the keys in ascending order is `ascending`.
pub(crate) proof fn lemma_ascending_is_the_sorted_order(keys: Seq<i32>, sorted: Seq<i32>)
    requires
        sorted.to_multiset() == keys.to_multiset(),
        forall|i: int, j: int| 0 <= i <= j < sorted.len() ==> sorted[i] <= sorted[j],
    ensures
        sorted == ascending(keys),
        sorted.len() == keys.len(),
{
    keys.lemma_sort_by_ensures(at_most());
    lemma_sorted_unique(sorted, ascending(keys), at_most());
    broadcast use group_to_multiset_ensures;

    assert(sorted.to_multiset().len() == sorted.len());
    assert(keys.to_multiset().len() == keys.len());
}

/// `ascending` holds the same keys, in ascending order.
pub proof fn law_ascending(keys: Seq<i32>)
    ensures
        ascending(keys).len() == keys.len(),
        ascending(keys).to_multiset() == keys.to_multiset(),
        forall|i: int, j: int|
            0 <= i <= j < keys.len() ==> ascending(keys)[i] <= ascending(keys)[j],
{
    keys.lemma_sort_by_ensures(at_most());
    broadcast use group_to_multiset_ensures;

    assert(ascending(keys).to_multiset().len() == ascending(keys).len());
    assert(keys.to_multiset().len() == keys.len());
    assert forall|i: int, j: int| 0 <= i <= j < keys.len() implies ascending(keys)[i]
        <= ascending(keys)[j] by {
        if i < j {
            assert(at_most()(ascending(keys)[i], ascending(keys)[j]));
        }
    }
}

} // verus!
