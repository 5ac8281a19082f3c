//! From the percentile determinant to the gain.
use vstd::prelude::*;

use crate::arithmetic::Arithmetic;
#[allow(unused_imports)]
use crate::arithmetic::Semantics;
#[allow(unused_imports)]
use crate::image::ImageModel;
use crate::stages::FlowStages;
#[allow(unused_imports)]
use crate::stages::StageSemantics;

verus! {

/// `less` is a strict order, and one is below the greatest gain.
pub open spec fn is_ordered<A: Arithmetic>(m: Semantics<A>) -> bool {
    &&& forall|a: A::Narrow| !(#[trigger] (m.less)(a, a))
    &&& forall|a: A::Narrow, b: A::Narrow, c: A::Narrow|
        #![trigger (m.less)(a, b), (m.less)(b, c)]
        (m.less)(a, b) && (m.less)(b, c) ==> (m.less)(a, c)
    &&& (m.less)((m.from_int)(1), (m.from_int)(crate::gain::MAX_GAIN))
}

/// The gain is never below one and never above `MAX_GAIN`, whatever the
/// determinant and whatever the root.
pub proof fn law_gain_stays_within_bounds<F: FlowStages>(
    s: StageSemantics<F>,
    det: F::Narrow,
    root: F::Wide,
)
    requires
        is_ordered(s.arithmetic),
    ensures
        ({
            let m = s.arithmetic;
            let gain = crate::gain::gain_with_root(s, det, root);
            &&& !(m.less)(gain, (m.from_int)(1))
            &&& !(m.less)((m.from_int)(crate::gain::MAX_GAIN), gain)
        }),
{
    let m = s.arithmetic;
    let (one, most) = ((m.from_int)(1), (m.from_int)(crate::gain::MAX_GAIN));
    if (m.less)(most, one) {
        assert((m.less)(one, one));
    }
}

/// A hundred times what the solve adds to a determinant before it divides: where the
/// median determinant is to be placed.
pub open spec fn margin<F: FlowStages>(s: StageSemantics<F>) -> F::Wide {
    let m = s.arithmetic;
    (m.wide_product)((m.wide_from_int)(100), (m.widen)(s.regularization))
}

/// `gain` is `x` where that is between one and eight, and the nearer of the two where
/// it is not.
pub open spec fn is_bounded<A: Arithmetic>(
    m: Semantics<A>,
    x: A::Narrow,
    gain: A::Narrow,
) -> bool {
    let (one, eight) = ((m.from_int)(1), (m.from_int)(8));
    &&& (m.less)(x, one) ==> gain == one
    &&& !(m.less)(x, one) && (m.less)(eight, x) ==> gain == eight
    &&& !(m.less)(x, one) && !(m.less)(eight, x) ==> gain == x
}

/// `gain` is a gain for the determinant `det`: one exactly where the determinant is at
/// least a hundred times the regularizer of the solve, and otherwise, between one and
/// eight, a fourth root of the factor that it falls short by.
pub open spec fn is_gain_for<F: FlowStages>(
    s: StageSemantics<F>,
    det: F::Narrow,
    gain: F::Narrow,
) -> bool {
    let m = s.arithmetic;
    let ratio = (m.wide_quotient)(margin(s), (m.widen)(det));
    let quarter = (m.wide_quotient)((m.wide_from_int)(1), (m.wide_from_int)(4));
    if (m.wide_at_most)(margin(s), (m.widen)(det)) {
        gain == (m.from_int)(1)
    } else {
        exists|root: F::Wide| #[trigger]
            call_ensures(F::wide_power, (ratio, quarter), root) && is_bounded(
                m,
                (m.narrow)(root),
                gain,
            )
    }
}

/// The gain of one determinant is one where the determinant is at least a hundred
/// times the regularizer of the solve, and otherwise, between one and eight, the
/// fourth root of the factor that it falls short by.
pub proof fn law_gain_of_determinant<F: FlowStages>(
    s: StageSemantics<F>,
    det: F::Narrow,
    gain: F::Narrow,
)
    ensures
        crate::gain::may_be_gain(s, det, gain) <==> is_gain_for(s, det, gain),
        ({
            let m = s.arithmetic;
            let ratio = (m.wide_quotient)(margin(s), (m.widen)(det));
            let quarter = (m.wide_quotient)((m.wide_from_int)(1), (m.wide_from_int)(4));
            if (m.wide_at_most)(margin(s), (m.widen)(det)) {
                crate::gain::gain_of_determinant(s, det) == (m.from_int)(1)
            } else {
                is_bounded(
                    m,
                    (m.narrow)((m.wide_power)(ratio, quarter)),
                    crate::gain::gain_of_determinant(s, det),
                )
            }
        }),
{
    let m = s.arithmetic;
    let ratio = (m.wide_quotient)(margin(s), (m.widen)(det));
    let quarter = (m.wide_quotient)((m.wide_from_int)(1), (m.wide_from_int)(4));
    assert forall|root: F::Wide| #[trigger]
        call_ensures(F::wide_power, (ratio, quarter), root) && is_bounded(
            m,
            (m.narrow)(root),
            gain,
        ) && !(m.wide_at_most)(margin(s), (m.widen)(det)) implies crate::gain::may_be_gain(
        s,
        det,
        gain,
    ) by {
        assert(ratio == crate::gain::shortfall(s, det) && quarter == crate::gain::quarter(m));
        assert(call_ensures(
            F::wide_power,
            (crate::gain::shortfall(s, det), crate::gain::quarter(m)),
            root,
        ) && gain == crate::gain::gain_with_root(s, det, root));
    }
}

/// The target is a hundred times the regularizer of the stages: a determinant that
/// reaches it gets a gain of one, and one that does not gets the root, where that is
/// neither below one nor above eight.
pub proof fn law_target_is_set_by_the_regularizer<F: FlowStages>(
    s: StageSemantics<F>,
    det: F::Narrow,
)
    ensures
        ({
            let m = s.arithmetic;
            let target = (m.wide_product)((m.wide_from_int)(100), (m.widen)(s.regularization));
            (m.wide_at_most)(target, (m.widen)(det)) ==> crate::gain::gain_of_determinant(s, det)
                == (m.from_int)(1)
        }),
        ({
            let m = s.arithmetic;
            let target = (m.wide_product)((m.wide_from_int)(100), (m.widen)(s.regularization));
            let root = (m.wide_power)(
                (m.wide_quotient)(target, (m.widen)(det)),
                (m.wide_quotient)((m.wide_from_int)(1), (m.wide_from_int)(4)),
            );
            !(m.wide_at_most)(target, (m.widen)(det)) && !(m.less)(
                (m.narrow)(root),
                (m.from_int)(1),
            ) && !(m.less)((m.from_int)(8), (m.narrow)(root))
                ==> crate::gain::gain_of_determinant(s, det) == (m.narrow)(root)
        }),
        ({
            let m = s.arithmetic;
            let target = (m.wide_product)((m.wide_from_int)(100), (m.widen)(s.regularization));
            let root = (m.wide_power)(
                (m.wide_quotient)(target, (m.widen)(det)),
                (m.wide_quotient)((m.wide_from_int)(1), (m.wide_from_int)(4)),
            );
            !(m.wide_at_most)(target, (m.widen)(det)) && (m.less)((m.narrow)(root), (m.from_int)(1))
                ==> crate::gain::gain_of_determinant(s, det) == (m.from_int)(1)
        }),
        ({
            let m = s.arithmetic;
            let target = (m.wide_product)((m.wide_from_int)(100), (m.widen)(s.regularization));
            let root = (m.wide_power)(
                (m.wide_quotient)(target, (m.widen)(det)),
                (m.wide_quotient)((m.wide_from_int)(1), (m.wide_from_int)(4)),
            );
            !(m.wide_at_most)(target, (m.widen)(det)) && !(m.less)(
                (m.narrow)(root),
                (m.from_int)(1),
            ) && (m.less)((m.from_int)(8), (m.narrow)(root))
                ==> crate::gain::gain_of_determinant(s, det) == (m.from_int)(8)
        }),
{
    law_gain_of_determinant(s, det, crate::gain::gain_of_determinant(s, det));
}

/// Only the shortfall counts: two determinants before two regularizers that fall short
/// by the same factor get the same gain.
pub proof fn law_equal_shortfalls_get_equal_gains<F: FlowStages>(
    s: StageSemantics<F>,
    t: StageSemantics<F>,
    these: F::Narrow,
    those: F::Narrow,
)
    requires
        s.arithmetic == t.arithmetic,
        ({
            let m = s.arithmetic;
            let hundred = (m.wide_from_int)(100);
            let a = (m.wide_product)(hundred, (m.widen)(s.regularization));
            let b = (m.wide_product)(hundred, (m.widen)(t.regularization));
            &&& !(m.wide_at_most)(a, (m.widen)(these))
            &&& !(m.wide_at_most)(b, (m.widen)(those))
            &&& (m.wide_quotient)(a, (m.widen)(these)) == (m.wide_quotient)(b, (m.widen)(those))
        }),
    ensures
        crate::gain::gain_of_determinant(s, these) == crate::gain::gain_of_determinant(t, those),
{
}

/// `gain` is a gain for the distribution `dets`: for its median, and one where there
/// is nothing to measure.
pub open spec fn is_gain_of<F: FlowStages>(
    s: StageSemantics<F>,
    dets: Seq<F::Narrow>,
    gain: F::Narrow,
) -> bool {
    if dets.len() == 0 {
        gain == (s.arithmetic.from_int)(1)
    } else {
        exists|key: i32| #[trigger]
            crate::laws::percentile::is_median_key(s.arithmetic, dets, key) && is_gain_for(
                s,
                (s.arithmetic.from_order_key)(key),
                gain,
            )
    }
}

/// The gain of a distribution is the gain of its median, and one where there is
/// nothing to measure.
pub proof fn law_gain_of_distribution<F: FlowStages>(
    s: StageSemantics<F>,
    dets: Seq<F::Narrow>,
    gain: F::Narrow,
    key: i32,
)
    ensures
        crate::gain::may_be_gain_of_all(s, dets, gain) <==> is_gain_of(s, dets, gain),
        dets.len() == 0 ==> {
            &&& crate::gain::may_be_gain_of_all(s, dets, gain) <==> gain == (s.arithmetic.from_int)(
                1,
            )
            &&& crate::gain::gain_of_determinants(s, dets) == (s.arithmetic.from_int)(1)
        },
        dets.len() > 0 && crate::laws::percentile::is_median_key(s.arithmetic, dets, key) ==> {
            let det = (s.arithmetic.from_order_key)(key);
            &&& crate::gain::may_be_gain_of_all(s, dets, gain) <==> crate::gain::may_be_gain(
                s,
                det,
                gain,
            )
            &&& crate::gain::gain_of_determinants(s, dets) == crate::gain::gain_of_determinant(
                s,
                det,
            )
        },
{
    if dets.len() > 0 {
        crate::laws::percentile::law_percentile_determinant_is_the_median(s.arithmetic, dets);
        let median = choose|key: i32| #[trigger]
            crate::laws::percentile::is_median_key(s.arithmetic, dets, key)
                && crate::gain::percentile_determinant(s.arithmetic, dets) == (
            s.arithmetic.from_order_key)(key);
        law_gain_of_determinant(s, (s.arithmetic.from_order_key)(median), gain);
    }
}

/// Of two comparable numbers one is below the other, or they are the same.
pub open spec fn are_comparable<A: Arithmetic>(
    m: Semantics<A>,
    a: A::Narrow,
    b: A::Narrow,
) -> bool {
    (m.less)(a, b) || a == b || (m.less)(b, a)
}

/// `gain` is one or above it, and `MAX_GAIN` or below it.
pub open spec fn is_within_bounds<A: Arithmetic>(m: Semantics<A>, gain: A::Narrow) -> bool {
    let (one, most) = ((m.from_int)(1), (m.from_int)(crate::gain::MAX_GAIN));
    &&& gain == one || (m.less)(one, gain)
    &&& gain == most || (m.less)(gain, most)
}

/// Where the root is comparable with the bounds, as the root of a positive number
/// is, the gain is one or above it, and `MAX_GAIN` or below it.
pub proof fn law_gain_is_a_number_within_bounds<F: FlowStages>(
    s: StageSemantics<F>,
    det: F::Narrow,
    root: F::Wide,
)
    requires
        is_ordered(s.arithmetic),
        !crate::gain::is_clear(s, det) ==> ({
            let m = s.arithmetic;
            &&& are_comparable(m, (m.narrow)(root), (m.from_int)(1))
            &&& are_comparable(m, (m.narrow)(root), (m.from_int)(crate::gain::MAX_GAIN))
        }),
    ensures
        is_within_bounds(s.arithmetic, crate::gain::gain_with_root(s, det, root)),
{
}

/// Whatever gain may come out for a distribution is within the bounds, where
/// whatever root may come out is comparable with them.
pub proof fn law_every_gain_is_within_bounds<F: FlowStages>(
    s: StageSemantics<F>,
    dets: Seq<F::Narrow>,
    gain: F::Narrow,
)
    requires
        is_ordered(s.arithmetic),
        crate::gain::may_be_gain_of_all(s, dets, gain),
        forall|root: F::Wide| #[trigger]
            call_ensures(
                F::wide_power,
                (
                    crate::gain::shortfall(
                        s,
                        crate::gain::percentile_determinant(s.arithmetic, dets),
                    ),
                    crate::gain::quarter(s.arithmetic),
                ),
                root,
            ) ==> ({
                let m = s.arithmetic;
                &&& are_comparable(m, (m.narrow)(root), (m.from_int)(1))
                &&& are_comparable(m, (m.narrow)(root), (m.from_int)(crate::gain::MAX_GAIN))
            }),
    ensures
        is_within_bounds(s.arithmetic, gain),
{
    if dets.len() > 0 {
        let det = crate::gain::percentile_determinant(s.arithmetic, dets);
        if !crate::gain::is_clear(s, det) {
            let ratio = crate::gain::shortfall(s, det);
            let power = crate::gain::quarter(s.arithmetic);
            let root = choose|root: F::Wide| #[trigger]
                call_ensures(F::wide_power, (ratio, power), root) && gain
                    == crate::gain::gain_with_root(s, det, root);
            law_gain_is_a_number_within_bounds(s, det, root);
        }
    }
}

/// Material whose median determinant is at least a hundred times the regularizer gets
/// a gain of one, and a gain of one leaves every frame as it is.
pub proof fn law_material_above_the_threshold_is_untouched<F: FlowStages>(
    s: StageSemantics<F>,
    dets: Seq<F::Narrow>,
    gain: F::Narrow,
    key: i32,
    frames: Seq<ImageModel<F::Narrow>>,
)
    requires
        dets.len() > 0,
        crate::laws::percentile::is_median_key(s.arithmetic, dets, key),
        (s.arithmetic.wide_at_most)(
            margin(s),
            (s.arithmetic.widen)((s.arithmetic.from_order_key)(key)),
        ),
        crate::gain::may_be_gain_of_all(s, dets, gain),
        ({
            let m = s.arithmetic;
            let one = (m.from_int)(1);
            (m.less)((m.magnitude)((m.difference)(one, one)), m.epsilon)
        }),
    ensures
        gain == (s.arithmetic.from_int)(1),
        crate::gain::gained(s.arithmetic, frames, gain) == frames,
{
    law_gain_of_distribution(s, dets, gain, key);
    law_gain_of_determinant(s, (s.arithmetic.from_order_key)(key), gain);
}

/// The fourth power of a wide number.
pub open spec fn fourth_power<A: Arithmetic>(m: Semantics<A>, a: A::Wide) -> A::Wide {
    (m.wide_product)((m.wide_product)(a, a), (m.wide_product)(a, a))
}

/// The gain is the closed form: where neither bound applies, its fourth power times
/// the median determinant is a hundred times the regularizer of the solve.
///
/// The root, its rounding to a narrow number, and the quotient are exact where
/// they occur.
pub proof fn law_gain_brings_the_determinant_to_the_target<F: FlowStages>(
    s: StageSemantics<F>,
    dets: Seq<F::Narrow>,
    key: i32,
)
    requires
        dets.len() > 0,
        crate::laws::percentile::is_median_key(s.arithmetic, dets, key),
        ({
            let m = s.arithmetic;
            let det = (m.widen)((m.from_order_key)(key));
            let ratio = (m.wide_quotient)(margin(s), det);
            let quarter = (m.wide_quotient)((m.wide_from_int)(1), (m.wide_from_int)(4));
            let root = (m.wide_power)(ratio, quarter);
            &&& !(m.wide_at_most)(margin(s), det)
            &&& !(m.less)((m.narrow)(root), (m.from_int)(1))
            &&& !(m.less)((m.from_int)(8), (m.narrow)(root))
            &&& fourth_power(m, root) == ratio
            &&& (m.widen)((m.narrow)(root)) == root
            &&& (m.wide_product)(ratio, det) == margin(s)
        }),
    ensures
        ({
            let m = s.arithmetic;
            let det = (m.widen)((m.from_order_key)(key));
            let gain = (m.widen)(crate::gain::gain_of_determinants(s, dets));
            (m.wide_product)(fourth_power(m, gain), det) == margin(s)
        }),
{
    let gain = crate::gain::gain_of_determinants(s, dets);
    law_gain_of_distribution(s, dets, gain, key);
    law_gain_of_determinant(s, (s.arithmetic.from_order_key)(key), gain);
}

/// The operations that size the gain keep the order of numbers, or turn it round
/// where they divide, on the narrow numbers `ok` and the wide numbers `wide_ok`.
pub open spec fn is_monotone<F: FlowStages>(
    s: StageSemantics<F>,
    ok: spec_fn(F::Narrow) -> bool,
    wide_ok: spec_fn(F::Wide) -> bool,
) -> bool {
    let m = s.arithmetic;
    let target = crate::gain::target_determinant(s);
    let power = crate::gain::quarter(m);
    &&& ok((m.from_int)(1)) && ok((m.from_int)(crate::gain::MAX_GAIN))
    &&& forall|a: F::Narrow, b: F::Narrow|
        #![trigger ok(a), ok(b)]
        ok(a) && ok(b) ==> are_comparable(m, a, b)
    &&& forall|a: F::Narrow| #[trigger] ok(a) ==> wide_ok((m.widen)(a))
    &&& forall|a: F::Narrow, b: F::Narrow|
        #![trigger (m.widen)(a), (m.widen)(b)]
        ok(a) && ok(b) && !(m.less)(b, a) ==> (m.wide_at_most)((m.widen)(a), (m.widen)(b))
    &&& forall|a: F::Wide, b: F::Wide, c: F::Wide|
        #![trigger (m.wide_at_most)(a, b), (m.wide_at_most)(b, c)]
        (m.wide_at_most)(a, b) && (m.wide_at_most)(b, c) ==> (m.wide_at_most)(a, c)
    &&& forall|a: F::Wide| wide_ok(a) ==> wide_ok(#[trigger] (m.wide_quotient)(target, a))
    &&& forall|a: F::Wide, b: F::Wide|
        #![trigger (m.wide_quotient)(target, a), (m.wide_quotient)(target, b)]
        wide_ok(a) && wide_ok(b) && (m.wide_at_most)(a, b) ==> (m.wide_at_most)(
            (m.wide_quotient)(target, b),
            (m.wide_quotient)(target, a),
        )
    &&& forall|a: F::Wide| wide_ok(a) ==> wide_ok(#[trigger] (m.wide_power)(a, power))
    &&& forall|a: F::Wide, b: F::Wide|
        #![trigger (m.wide_power)(a, power), (m.wide_power)(b, power)]
        wide_ok(a) && wide_ok(b) && (m.wide_at_most)(a, b) ==> (m.wide_at_most)(
            (m.wide_power)(a, power),
            (m.wide_power)(b, power),
        )
    &&& forall|a: F::Wide| wide_ok(a) ==> ok(#[trigger] (m.narrow)(a))
    &&& forall|a: F::Wide, b: F::Wide|
        #![trigger (m.narrow)(a), (m.narrow)(b)]
        wide_ok(a) && wide_ok(b) && (m.wide_at_most)(a, b) ==> !(m.less)(
            (m.narrow)(b),
            (m.narrow)(a),
        )
}

/// Weaker structure gets no less gain, for one determinant each.
pub proof fn law_weaker_structure_gets_no_less_gain<F: FlowStages>(
    s: StageSemantics<F>,
    ok: spec_fn(F::Narrow) -> bool,
    wide_ok: spec_fn(F::Wide) -> bool,
    weak: F::Narrow,
    strong: F::Narrow,
)
    requires
        is_ordered(s.arithmetic),
        is_monotone(s, ok, wide_ok),
        ok(weak),
        ok(strong),
        !(s.arithmetic.less)(strong, weak),
    ensures
        ({
            let more = crate::gain::gain_of_determinant(s, weak);
            let less = crate::gain::gain_of_determinant(s, strong);
            more == less || (s.arithmetic.less)(less, more)
        }),
{
    let m = s.arithmetic;
    let power = crate::gain::quarter(m);
    let (one, most) = ((m.from_int)(1), (m.from_int)(crate::gain::MAX_GAIN));
    let (a, b) = ((m.widen)(weak), (m.widen)(strong));
    let (c, d) = (crate::gain::shortfall(s, weak), crate::gain::shortfall(s, strong));
    let (e, f) = ((m.wide_power)(c, power), (m.wide_power)(d, power));
    let (u, v) = ((m.narrow)(e), (m.narrow)(f));
    assert((m.wide_at_most)(a, b));
    assert((m.wide_at_most)(d, c));
    assert((m.wide_at_most)(f, e));
    assert(!(m.less)(u, v));
    assert(ok(u) && ok(v) && ok(one) && ok(most));
    if (m.less)(most, one) {
        assert((m.less)(one, one));
    }
    // A pair that came out the other way round would put `u` below `v`.
    if (m.less)(u, one) && (m.less)(most, v) {
        assert((m.less)(u, most));
        assert((m.less)(u, v));
    }
}

/// Weaker structure gets no less gain: where no determinant of `weak` has a key
/// above that of the determinant of `strong` at the same place, `weak` gets the
/// same gain as `strong` or more.
pub proof fn law_weaker_distribution_gets_no_less_gain<F: FlowStages>(
    s: StageSemantics<F>,
    ok: spec_fn(F::Narrow) -> bool,
    wide_ok: spec_fn(F::Wide) -> bool,
    weak: Seq<F::Narrow>,
    strong: Seq<F::Narrow>,
)
    requires
        is_ordered(s.arithmetic),
        is_monotone(s, ok, wide_ok),
        weak.len() == strong.len(),
        forall|i: int|
            #![trigger weak[i]]
            #![trigger strong[i]]
            0 <= i < weak.len() ==> {
                let m = s.arithmetic;
                &&& ok(weak[i]) && (m.from_order_key)((m.order_key)(weak[i])) == weak[i]
                &&& ok(strong[i]) && (m.from_order_key)((m.order_key)(strong[i])) == strong[i]
                &&& (m.order_key)(weak[i]) <= (m.order_key)(strong[i])
            },
        forall|j: i32, k: i32|
            #![trigger (s.arithmetic.from_order_key)(j), (s.arithmetic.from_order_key)(k)]
            j <= k && ok((s.arithmetic.from_order_key)(j)) && ok(
                (s.arithmetic.from_order_key)(k),
            ) ==> !(s.arithmetic.less)(
                (s.arithmetic.from_order_key)(k),
                (s.arithmetic.from_order_key)(j),
            ),
    ensures
        ({
            let more = crate::gain::gain_of_determinants(s, weak);
            let less = crate::gain::gain_of_determinants(s, strong);
            more == less || (s.arithmetic.less)(less, more)
        }),
{
    if weak.len() > 0 {
        let m = s.arithmetic;
        let (a, b) = (weak.map_values(m.order_key), strong.map_values(m.order_key));
        let place = crate::gain::percentile_index(weak.len() as int);
        crate::laws::percentile::law_percentile_is_the_median(weak.len() as int);
        assert forall|i: int| 0 <= i < a.len() implies #[trigger] a[i] <= b[i] by {
            assert((m.order_key)(weak[i]) <= (m.order_key)(strong[i]));
        }
        crate::laws::percentile::law_sorting_keeps_the_order_of_distributions(a, b, place);
        crate::laws::percentile::law_percentile_determinant_was_measured(m, weak);
        crate::laws::percentile::law_percentile_determinant_was_measured(m, strong);
        law_weaker_structure_gets_no_less_gain(
            s,
            ok,
            wide_ok,
            crate::gain::percentile_determinant(m, weak),
            crate::gain::percentile_determinant(m, strong),
        );
    }
}

} // verus!
