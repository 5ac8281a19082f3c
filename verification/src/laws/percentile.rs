//! The percentile of the determinant distribution.
use vstd::prelude::*;
#[allow(unused_imports)]
use vstd::seq_lib::*;

use crate::arithmetic::Arithmetic;
#[allow(unused_imports)]
use crate::arithmetic::Semantics;
use crate::stages::FlowStages;
#[allow(unused_imports)]
use crate::stages::StageSemantics;

verus! {

/// The percentile is the median: it has `len / 2` places before it.
pub proof fn law_percentile_is_the_median(len: int)
    requires
        len > 0,
    ensures
        crate::gain::percentile_index(len) == len / 2,
        0 <= crate::gain::percentile_index(len) < len,
{
}

/// The median splits the distribution: sorted by their keys, the values before it
/// are at most it, and it is at most the values after it.
pub proof fn law_median_splits_the_distribution(keys: Seq<i32>, i: int)
    requires
        0 <= i < keys.len(),
    ensures
        ({
            let sorted = crate::order::ascending(keys);
            let median = crate::gain::percentile_index(keys.len() as int);
            &&& i <= median ==> sorted[i] <= sorted[median]
            &&& i >= median ==> sorted[median] <= sorted[i]
        }),
{
    crate::order::law_ascending(keys);
    law_percentile_is_the_median(keys.len() as int);
}

/// The percentile determinant is one of the determinants, where a number can be
/// had back from its order key.
pub proof fn law_percentile_determinant_was_measured<A: Arithmetic>(
    m: Semantics<A>,
    dets: Seq<A::Narrow>,
)
    requires
        dets.len() > 0,
        forall|i: int|
            0 <= i < dets.len() ==> (m.from_order_key)((m.order_key)(#[trigger] dets[i]))
                == dets[i],
    ensures
        dets.contains(crate::gain::percentile_determinant(m, dets)),
{
    broadcast use group_to_multiset_ensures;

    let keys = dets.map_values(m.order_key);
    let sorted = crate::order::ascending(keys);
    let place = crate::gain::percentile_index(dets.len() as int);
    crate::order::law_ascending(keys);
    law_percentile_is_the_median(dets.len() as int);
    assert(sorted.contains(sorted[place]));
    assert(sorted.to_multiset().count(sorted[place]) > 0);
    assert(keys.contains(sorted[place]));
    let i = choose|i: int| 0 <= i < keys.len() && keys[i] == sorted[place];
    assert(dets[i] == crate::gain::percentile_determinant(m, dets));
}

/// The order in which the determinants come does not matter.
pub proof fn law_gain_ignores_the_order_of_determinants<F: FlowStages>(
    s: StageSemantics<F>,
    these: Seq<F::Narrow>,
    those: Seq<F::Narrow>,
)
    requires
        these.to_multiset() == those.to_multiset(),
    ensures
        these.len() == those.len(),
        these.len() > 0 ==> crate::gain::percentile_determinant(s.arithmetic, these)
            == crate::gain::percentile_determinant(s.arithmetic, those),
        forall|gain: F::Narrow| #[trigger]
            crate::gain::may_be_gain_of_all(s, these, gain)
                == crate::gain::may_be_gain_of_all(s, those, gain),
        crate::gain::gain_of_determinants(s, these) == crate::gain::gain_of_determinants(s, those),
{
    broadcast use group_to_multiset_ensures;

    let f = s.arithmetic.order_key;
    lemma_map_keeps_permutations(these, those, f);
    assert(these.to_multiset().len() == these.len());
    assert(those.to_multiset().len() == those.len());
    let (a, b) = (these.map_values(f), those.map_values(f));
    crate::order::law_ascending(b);
    crate::order::lemma_ascending_is_the_sorted_order(a, crate::order::ascending(b));
}

/// Mapping two permutations of one another gives two permutations.
proof fn lemma_map_keeps_permutations<T, U>(a: Seq<T>, b: Seq<T>, f: spec_fn(T) -> U)
    requires
        a.to_multiset() == b.to_multiset(),
    ensures
        a.map_values(f).to_multiset() == b.map_values(f).to_multiset(),
    decreases a.len(),
{
    broadcast use group_to_multiset_ensures;

    assert(a.to_multiset().len() == a.len());
    assert(b.to_multiset().len() == b.len());
    if a.len() == 0 {
        assert(a.map_values(f) =~= b.map_values(f));
    } else {
        let x = a.last();
        assert(a.contains(x));
        assert(a.to_multiset().count(x) > 0);
        assert(b.contains(x));
        let i = choose|i: int| 0 <= i < b.len() && b[i] == x;
        let (a1, b1) = (a.drop_last(), b.remove(i));
        assert(a =~= a1.push(x));
        assert(a1.to_multiset() =~= b1.to_multiset());
        lemma_map_keeps_permutations(a1, b1, f);
        assert(a.map_values(f) =~= a1.map_values(f).push(f(x)));
        assert(b1.map_values(f) =~= b.map_values(f).remove(i));
        assert(b.map_values(f)[i] == f(x));
        assert(a.map_values(f).to_multiset() =~= b.map_values(f).to_multiset());
    }
}

/// How many of `keys` are at most `v`.
spec fn count_at_most(keys: Seq<i32>, v: i32) -> nat
    decreases keys.len(),
{
    if keys.len() == 0 {
        0
    } else {
        count_at_most(keys.drop_last(), v) + if keys.last() <= v {
            1nat
        } else {
            0nat
        }
    }
}

/// Taking one key away takes its own count away.
proof fn lemma_count_without(keys: Seq<i32>, i: int, v: i32)
    requires
        0 <= i < keys.len(),
    ensures
        count_at_most(keys, v) == count_at_most(keys.remove(i), v) + if keys[i] <= v {
            1nat
        } else {
            0nat
        },
    decreases keys.len(),
{
    if i == keys.len() - 1 {
        assert(keys.remove(i) =~= keys.drop_last());
    } else {
        lemma_count_without(keys.drop_last(), i, v);
        assert(keys.remove(i).drop_last() =~= keys.drop_last().remove(i));
    }
}

/// Permutations have the same counts.
proof fn lemma_count_of_permutation(a: Seq<i32>, b: Seq<i32>, v: i32)
    requires
        a.to_multiset() == b.to_multiset(),
    ensures
        count_at_most(a, v) == count_at_most(b, v),
    decreases a.len(),
{
    broadcast use group_to_multiset_ensures;

    assert(a.to_multiset().len() == a.len());
    assert(b.to_multiset().len() == b.len());
    if a.len() > 0 {
        let x = a.last();
        assert(a.contains(x));
        assert(a.to_multiset().count(x) > 0);
        assert(b.contains(x));
        let i = choose|i: int| 0 <= i < b.len() && b[i] == x;
        let (a1, b1) = (a.drop_last(), b.remove(i));
        assert(a =~= a1.push(x));
        assert(a1.to_multiset() =~= b1.to_multiset());
        lemma_count_of_permutation(a1, b1, v);
        lemma_count_without(b, i, v);
    }
}

/// Smaller keys, one by one, are at most `v` at least as often.
proof fn lemma_count_of_smaller(weak: Seq<i32>, strong: Seq<i32>, v: i32)
    requires
        weak.len() == strong.len(),
        forall|i: int| 0 <= i < weak.len() ==> #[trigger] weak[i] <= strong[i],
    ensures
        count_at_most(strong, v) <= count_at_most(weak, v),
    decreases weak.len(),
{
    if weak.len() > 0 {
        lemma_count_of_smaller(weak.drop_last(), strong.drop_last(), v);
        assert(weak[weak.len() - 1] <= strong[weak.len() - 1]);
    }
}

/// In ascending order a place counts the keys before it.
proof fn lemma_count_of_sorted(sorted: Seq<i32>, k: int, v: i32)
    requires
        forall|i: int, j: int| 0 <= i <= j < sorted.len() ==> sorted[i] <= sorted[j],
        0 <= k < sorted.len(),
    ensures
        sorted[k] <= v ==> count_at_most(sorted, v) >= k + 1,
        sorted[k] > v ==> count_at_most(sorted, v) <= k,
    decreases sorted.len(),
{
    let rest = sorted.drop_last();
    assert(forall|i: int| 0 <= i < rest.len() ==> rest[i] == sorted[i]);
    if k < rest.len() {
        lemma_count_of_sorted(rest, k, v);
        assert(sorted[k] <= sorted[sorted.len() - 1]);
    } else if rest.len() > 0 {
        lemma_count_of_sorted(rest, k - 1, v);
        assert(sorted[k - 1] <= sorted[k]);
        lemma_count_bound(rest, v);
    }
}

/// A count is no larger than the number of keys.
proof fn lemma_count_bound(keys: Seq<i32>, v: i32)
    ensures
        count_at_most(keys, v) <= keys.len(),
    decreases keys.len(),
{
    if keys.len() > 0 {
        lemma_count_bound(keys.drop_last(), v);
    }
}

/// Ordered distributions have ordered percentiles: where no key of `weak` is
/// above the key of `strong` at the same place, nor is any key after both are
/// sorted.
pub proof fn law_sorting_keeps_the_order_of_distributions(
    weak: Seq<i32>,
    strong: Seq<i32>,
    k: int,
)
    requires
        weak.len() == strong.len(),
        forall|i: int| 0 <= i < weak.len() ==> #[trigger] weak[i] <= strong[i],
        0 <= k < weak.len(),
    ensures
        crate::order::ascending(weak)[k] <= crate::order::ascending(strong)[k],
{
    let (a, b) = (crate::order::ascending(weak), crate::order::ascending(strong));
    let v = b[k];
    crate::order::law_ascending(weak);
    crate::order::law_ascending(strong);
    lemma_count_of_permutation(a, weak, v);
    lemma_count_of_permutation(b, strong, v);
    lemma_count_of_smaller(weak, strong, v);
    lemma_count_of_sorted(b, k, v);
    lemma_count_of_sorted(a, k, v);
}

// ---------------------------------------------------------------------------
// The median
// ---------------------------------------------------------------------------

/// `key` is the median of the order keys of `dets`: it is one of them, at most half
/// of them are below it, and fewer than the other half are above it.
pub open spec fn is_median_key<A: Arithmetic>(
    m: Semantics<A>,
    dets: Seq<A::Narrow>,
    key: i32,
) -> bool {
    &&& exists|i: int| 0 <= i < dets.len() && #[trigger] (m.order_key)(dets[i]) == key
    &&& dets.filter(|d: A::Narrow| (m.order_key)(d) < key).len() <= dets.len() / 2
    &&& dets.filter(|d: A::Narrow| (m.order_key)(d) > key).len() <= dets.len() - 1 - dets.len() / 2
}

/// How many keys are below or above another.
proof fn lemma_filter_counts<A: Arithmetic>(m: Semantics<A>, dets: Seq<A::Narrow>, key: i32)
    ensures
        ({
            let keys = dets.map_values(m.order_key);
            let below = dets.filter(|d: A::Narrow| (m.order_key)(d) < key).len();
            let above = dets.filter(|d: A::Narrow| (m.order_key)(d) > key).len();
            &&& above + count_at_most(keys, key) == dets.len()
            &&& key > i32::MIN ==> below == count_at_most(keys, (key - 1) as i32)
            &&& key == i32::MIN ==> below == 0
        }),
    decreases dets.len(),
{
    reveal(Seq::filter);
    if dets.len() > 0 {
        let rest = dets.drop_last();
        lemma_filter_counts(m, rest, key);
        assert(dets.map_values(m.order_key).drop_last() =~= rest.map_values(m.order_key));
        assert(dets.map_values(m.order_key).last() == (m.order_key)(dets.last()));
    }
}

/// The determinant that the gain is sized against is the median: its key is one of
/// the keys, no more than `len / 2` determinants have a smaller one, and no more than
/// `len - 1 - len / 2` have a larger one. No other key is so.
pub proof fn law_percentile_determinant_is_the_median<A: Arithmetic>(
    m: Semantics<A>,
    dets: Seq<A::Narrow>,
)
    requires
        dets.len() > 0,
    ensures
        exists|key: i32| #[trigger]
            is_median_key(m, dets, key) && crate::gain::percentile_determinant(m, dets) == (
            m.from_order_key)(key),
        forall|key: i32| #[trigger]
            is_median_key(m, dets, key) ==> crate::gain::percentile_determinant(m, dets) == (
            m.from_order_key)(key),
{
    broadcast use group_to_multiset_ensures;

    let keys = dets.map_values(m.order_key);
    let sorted = crate::order::ascending(keys);
    let p = crate::gain::percentile_index(dets.len() as int);
    crate::order::law_ascending(keys);
    law_percentile_is_the_median(dets.len() as int);
    let median = sorted[p];
    assert(sorted.contains(median));
    assert(sorted.to_multiset().count(median) > 0);
    assert(keys.contains(median));
    let i = choose|i: int| 0 <= i < keys.len() && keys[i] == median;
    assert((m.order_key)(dets[i]) == median);
    lemma_filter_counts(m, dets, median);
    lemma_count_of_permutation(sorted, keys, median);
    lemma_count_of_sorted(sorted, p, median);
    if median > i32::MIN {
        let v = (median - 1) as i32;
        lemma_count_of_permutation(sorted, keys, v);
        lemma_count_of_sorted(sorted, p, v);
    }
    assert(is_median_key(m, dets, median));
    assert forall|key: i32| #[trigger] is_median_key(m, dets, key) implies key == median by {
        lemma_filter_counts(m, dets, key);
        lemma_count_of_permutation(sorted, keys, key);
        lemma_count_of_sorted(sorted, p, key);
        if key > i32::MIN {
            let v = (key - 1) as i32;
            lemma_count_of_permutation(sorted, keys, v);
            lemma_count_of_sorted(sorted, p, v);
        }
    }
}

/// A determinant with at most `len / 2` smaller and at most `len - 1 - len / 2`
/// larger ones beside it is what the gain is sized against.
pub proof fn law_gain_is_sized_against_the_median<A: Arithmetic>(
    m: Semantics<A>,
    dets: Seq<A::Narrow>,
    i: int,
)
    requires
        0 <= i < dets.len(),
        dets.filter(|d: A::Narrow| (m.order_key)(d) < (m.order_key)(dets[i])).len() <= dets.len()
            / 2,
        dets.filter(|d: A::Narrow| (m.order_key)(d) > (m.order_key)(dets[i])).len() <= dets.len()
            - 1 - dets.len() / 2,
    ensures
        crate::gain::percentile_determinant(m, dets) == (m.from_order_key)((m.order_key)(dets[i])),
{
    let key = (m.order_key)(dets[i]);
    assert(dets.filter(|d: A::Narrow| (m.order_key)(d) < (m.order_key)(dets[i])) == dets.filter(
        |d: A::Narrow| (m.order_key)(d) < key,
    ));
    assert(dets.filter(|d: A::Narrow| (m.order_key)(d) > (m.order_key)(dets[i])) == dets.filter(
        |d: A::Narrow| (m.order_key)(d) > key,
    ));
    assert(is_median_key(m, dets, key));
    law_percentile_determinant_is_the_median(m, dets);
}

/// Filters that agree on the places of two sequences leave equally much.
proof fn lemma_filters_agree<T>(
    a: Seq<T>,
    b: Seq<T>,
    p: spec_fn(T) -> bool,
)
    requires
        a.len() == b.len(),
        forall|i: int|
            #![trigger a[i]]
            #![trigger b[i]]
            0 <= i < a.len() ==> p(a[i]) == p(b[i]),
    ensures
        a.filter(p).len() == b.filter(p).len(),
    decreases a.len(),
{
    reveal(Seq::filter);
    if a.len() > 0 {
        let (c, d) = (a.drop_last(), b.drop_last());
        assert forall|i: int|
            #![trigger c[i]]
            #![trigger d[i]]
            0 <= i < c.len() implies p(c[i]) == p(d[i]) by {
            assert(p(a[i]) == p(b[i]));
        }
        lemma_filters_agree(c, d, p);
        assert(p(a[a.len() - 1]) == p(b[a.len() - 1]));
    }
}

/// How far the others lie from the median does not matter: where each determinant is
/// replaced by one on the same side of the median, the gain is sized against the same
/// determinant.
pub proof fn law_outliers_do_not_move_the_median<A: Arithmetic>(
    m: Semantics<A>,
    these: Seq<A::Narrow>,
    those: Seq<A::Narrow>,
    key: i32,
)
    requires
        these.len() > 0,
        these.len() == those.len(),
        is_median_key(m, these, key),
        forall|i: int|
            #![trigger these[i]]
            #![trigger those[i]]
            0 <= i < these.len() ==> {
                &&& (m.order_key)(these[i]) < key <==> (m.order_key)(those[i]) < key
                &&& (m.order_key)(these[i]) > key <==> (m.order_key)(those[i]) > key
            },
    ensures
        crate::gain::percentile_determinant(m, these) == (m.from_order_key)(key),
        crate::gain::percentile_determinant(m, those) == (m.from_order_key)(key),
{
    let below = |d: A::Narrow| (m.order_key)(d) < key;
    let above = |d: A::Narrow| (m.order_key)(d) > key;
    lemma_filters_agree(these, those, below);
    lemma_filters_agree(these, those, above);
    let i = choose|i: int| 0 <= i < these.len() && #[trigger] (m.order_key)(these[i]) == key;
    assert(these[i] == these[i]);
    assert((m.order_key)(those[i]) == key);
    assert(is_median_key(m, those, key));
    law_percentile_determinant_is_the_median(m, these);
    law_percentile_determinant_is_the_median(m, those);
}

} // verus!
