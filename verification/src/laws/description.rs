//! What it takes to describe an arithmetic and its stages: that each result is the
//! one that is said, and nothing else.
use vstd::prelude::*;

use crate::arithmetic::Arithmetic;
#[allow(unused_imports)]
use crate::arithmetic::Semantics;
use crate::image::{GrayImage, PolyExpansion};
use crate::stages::FlowStages;
#[allow(unused_imports)]
use crate::stages::StageSemantics;

verus! {

/// Functions that give the results of the narrow operations describe them.
pub proof fn law_narrow_operations_are_described<A: Arithmetic>(m: Semantics<A>)
    requires
        forall|n: u32, r: A::Narrow| #[trigger]
            call_ensures(A::from_int, (n,), r) ==> r == (m.from_int)(n),
        forall|r: A::Narrow| #[trigger] call_ensures(A::epsilon, (), r) ==> r == m.epsilon,
        forall|a: A::Narrow, b: A::Narrow, r: A::Narrow| #[trigger]
            call_ensures(A::difference, (a, b), r) ==> r == (m.difference)(a, b),
        forall|a: A::Narrow, b: A::Narrow, r: A::Narrow| #[trigger]
            call_ensures(A::product, (a, b), r) ==> r == (m.product)(a, b),
        forall|a: A::Narrow, b: A::Narrow, r: A::Narrow| #[trigger]
            call_ensures(A::quotient, (a, b), r) ==> r == (m.quotient)(a, b),
        forall|a: A::Narrow, b: A::Narrow, c: A::Narrow, r: A::Narrow| #[trigger]
            call_ensures(A::mul_add, (a, b, c), r) ==> r == (m.mul_add)(a, b, c),
        forall|a: A::Narrow, r: A::Narrow| #[trigger]
            call_ensures(A::negated, (a,), r) ==> r == (m.negated)(a),
        forall|a: A::Narrow, r: A::Narrow| #[trigger]
            call_ensures(A::magnitude, (a,), r) ==> r == (m.magnitude)(a),
        forall|a: A::Narrow, b: A::Narrow, r: bool| #[trigger]
            call_ensures(A::less, (a, b), r) ==> r == (m.less)(a, b),
    ensures
        m.describes_narrow(),
{
}

/// Functions that give the order keys and the numbers that have them describe
/// those.
pub proof fn law_order_keys_are_described<A: Arithmetic>(m: Semantics<A>)
    requires
        forall|a: A::Narrow, r: i32| #[trigger]
            call_ensures(A::order_key, (a,), r) ==> r == (m.order_key)(a),
        forall|k: i32, r: A::Narrow| #[trigger]
            call_ensures(A::from_order_key, (k,), r) ==> r == (m.from_order_key)(k),
    ensures
        m.describes_order(),
{
}

/// Functions that give the results of the wide operations describe them.
pub proof fn law_wide_operations_are_described<A: Arithmetic>(m: Semantics<A>)
    requires
        forall|a: A::Narrow, r: A::Wide| #[trigger]
            call_ensures(A::widen, (a,), r) ==> r == (m.widen)(a),
        forall|a: A::Wide, r: A::Narrow| #[trigger]
            call_ensures(A::narrow, (a,), r) ==> r == (m.narrow)(a),
        forall|n: u32, r: A::Wide| #[trigger]
            call_ensures(A::wide_from_int, (n,), r) ==> r == (m.wide_from_int)(n),
        forall|a: A::Wide, b: A::Wide, r: A::Wide| #[trigger]
            call_ensures(A::wide_product, (a, b), r) ==> r == (m.wide_product)(a, b),
        forall|a: A::Wide, b: A::Wide, r: A::Wide| #[trigger]
            call_ensures(A::wide_quotient, (a, b), r) ==> r == (m.wide_quotient)(a, b),
        forall|a: A::Wide, b: A::Wide, r: bool| #[trigger]
            call_ensures(A::wide_at_most, (a, b), r) ==> r == (m.wide_at_most)(a, b),
    ensures
        m.describes_wide(),
{
}

/// A function that gives the powers describes them.
pub proof fn law_powers_are_described<A: Arithmetic>(m: Semantics<A>)
    requires
        forall|a: A::Wide, b: A::Wide, r: A::Wide| #[trigger]
            call_ensures(A::wide_power, (a, b), r) ==> r == (m.wide_power)(a, b),
    ensures
        m.describes_power(),
        m.describes_narrow() && m.describes_order() && m.describes_wide()
            ==> m.describes_all_but_power() && m.describes(),
{
}

/// Functions that give the results of the stages describe them.
pub proof fn law_stages_are_described<F: FlowStages>(s: StageSemantics<F>)
    requires
        forall|g: &GrayImage<F::Narrow>, k: u32, p: F::Param, r: GrayImage<F::Narrow>| #[trigger]
            call_ensures(F::build_level_image, (g, k, p), r) ==> r@ == (s.level_image)(g@, k, p),
        forall|l: &GrayImage<F::Narrow>, n: u32, p: F::Param, r: PolyExpansion<F::Narrow>|
            #[trigger]
            call_ensures(F::poly_expansion, (l, n, p), r) ==> crate::image::coefficients(r.data@)
                == (s.expansion)(l@, n, p),
        forall|w: u32, r: Vec<F::Narrow>| #[trigger]
            call_ensures(F::build_gaussian_1d, (w,), r) ==> r@ == (s.gaussian)(w),
        forall|r: F::Narrow| #[trigger]
            call_ensures(F::flow_regularization, (), r) ==> r == s.regularization,
    ensures
        s.describes_stages(),
        s.arithmetic.describes_narrow() ==> s.describes_measurement(),
        s.arithmetic.describes_all_but_power() ==> s.describes_sizing()
            && s.describes_all_but_power(),
        s.arithmetic.describes() ==> s.describes(),
{
}

} // verus!
