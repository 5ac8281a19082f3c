//! Work handed to the thread pool.
use rayon::iter::{IntoParallelRefIterator, IntoParallelRefMutIterator, ParallelIterator};
use vstd::prelude::*;

verus! {

/// `out` is what `f` may give for each item in turn, one after the other.
pub open spec fn is_flat_map<T, U, F: Fn(&T) -> Vec<U>>(items: Seq<T>, f: F, out: Seq<U>) -> bool {
    exists|parts: Seq<Vec<U>>| #[trigger] is_flat_map_of(items, f, out, parts)
}

/// `out` is `parts` one after the other, and each part is what `f` may give for
/// the item at its place.
pub open spec fn is_flat_map_of<T, U, F: Fn(&T) -> Vec<U>>(
    items: Seq<T>,
    f: F,
    out: Seq<U>,
    parts: Seq<Vec<U>>,
) -> bool {
    &&& parts.len() == items.len()
    &&& forall|i: int|
        0 <= i < items.len() ==> call_ensures(f, (&items[i],), #[trigger] parts[i])
    &&& out == parts.map_values(|p: Vec<U>| p@).flatten()
}

/// Runs `par_iter().flat_map(f).collect()` of rayon's `ParallelIterator` on a
/// slice.
///
/// Trusted: `f` is called once on each item, and the vectors that it returns are
/// joined in the order of the items, whatever the order in which the threads
/// finish.
#[verifier::external_body]
pub(crate) fn par_flat_map<T: Sync, U: Send, F: Fn(&T) -> Vec<U> + Send + Sync>(
    items: &[T],
    f: F,
) -> (out: Vec<U>)
    requires
        forall|i: int| 0 <= i < items@.len() ==> call_requires(f, (&#[trigger] items@[i],)),
    ensures
        is_flat_map(items@, f, out@),
{
    items.par_iter().flat_map(f).collect()
}

/// Runs `par_iter_mut().for_each(f)` of rayon's `ParallelIterator` on a slice.
///
/// Trusted: `f` is called once on each item, in place, and nothing else changes.
#[verifier::external_body]
pub(crate) fn par_for_each_mut<T: Send, F: Fn(&mut T) + Send + Sync>(items: &mut [T], f: F)
    requires
        forall|x: &mut T| #[trigger] call_requires(f, (x,)),
    ensures
        final(items)@.len() == old(items)@.len(),
        forall|i: int|
            0 <= i < old(items)@.len() ==> exists|x: &mut T|
                *x == old(items)@[i] && *final(x) == #[trigger] final(items)@[i]
                    && #[trigger] call_ensures(f, (x,), ()),
{
    items.par_iter_mut().for_each(f);
}

} // verus!
