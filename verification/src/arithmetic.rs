//! The number types that the measurement computes in.
use vstd::prelude::*;

verus! {

/// A pair of number types, one for pixels and one of higher precision for the
/// final gain, with the operations that the measurement uses.
///
/// Nothing is demanded of an operation and nothing is taken for granted of its
/// result, not even that the same operands give it twice. Contracts speak of
/// results through [`Semantics`], and ask for a description of those operations
/// alone that the result goes through.
pub trait Arithmetic {
    /// The type of a gray level, of a filter tap, of a determinant and of a gain.
    type Narrow: Copy + Send + Sync;

    /// The type that the gain is computed in.
    type Wide: Copy;

    /// The number `n`.
    fn from_int(n: u32) -> Self::Narrow;

    /// The distance from one to the next larger number.
    fn epsilon() -> Self::Narrow;

    /// `a - b`.
    fn difference(a: Self::Narrow, b: Self::Narrow) -> Self::Narrow;

    /// `a * b`.
    fn product(a: Self::Narrow, b: Self::Narrow) -> Self::Narrow;

    /// `a / b`.
    fn quotient(a: Self::Narrow, b: Self::Narrow) -> Self::Narrow;

    /// `a * b + c`, rounded once.
    fn mul_add(a: Self::Narrow, b: Self::Narrow, c: Self::Narrow) -> Self::Narrow;

    /// `-a`.
    fn negated(a: Self::Narrow) -> Self::Narrow;

    /// The absolute value of `a`.
    fn magnitude(a: Self::Narrow) -> Self::Narrow;

    /// `a < b`.
    fn less(a: Self::Narrow, b: Self::Narrow) -> bool;

    /// An integer that places `a` in the total order of the narrow numbers.
    fn order_key(a: Self::Narrow) -> i32;

    /// The narrow number that has the order key `key`.
    fn from_order_key(key: i32) -> Self::Narrow;

    /// `a`, as a wide number.
    fn widen(a: Self::Narrow) -> Self::Wide;

    /// `a`, rounded to a narrow number.
    fn narrow(a: Self::Wide) -> Self::Narrow;

    /// The wide number `n`.
    fn wide_from_int(n: u32) -> Self::Wide;

    /// `a * b`, wide.
    fn wide_product(a: Self::Wide, b: Self::Wide) -> Self::Wide;

    /// `a / b`, wide.
    fn wide_quotient(a: Self::Wide, b: Self::Wide) -> Self::Wide;

    /// `a` to the power of `b`.
    fn wide_power(a: Self::Wide, b: Self::Wide) -> Self::Wide;

    /// `a <= b`, wide.
    fn wide_at_most(a: Self::Wide, b: Self::Wide) -> bool;
}

/// What the operations of an [`Arithmetic`] compute, as mathematical functions.
#[verifier::reject_recursive_types(A)]
pub struct Semantics<A: Arithmetic> {
    pub from_int: spec_fn(u32) -> A::Narrow,
    pub epsilon: A::Narrow,
    pub difference: spec_fn(A::Narrow, A::Narrow) -> A::Narrow,
    pub product: spec_fn(A::Narrow, A::Narrow) -> A::Narrow,
    pub quotient: spec_fn(A::Narrow, A::Narrow) -> A::Narrow,
    pub mul_add: spec_fn(A::Narrow, A::Narrow, A::Narrow) -> A::Narrow,
    pub negated: spec_fn(A::Narrow) -> A::Narrow,
    pub magnitude: spec_fn(A::Narrow) -> A::Narrow,
    pub less: spec_fn(A::Narrow, A::Narrow) -> bool,
    pub order_key: spec_fn(A::Narrow) -> i32,
    pub from_order_key: spec_fn(i32) -> A::Narrow,
    pub widen: spec_fn(A::Narrow) -> A::Wide,
    pub narrow: spec_fn(A::Wide) -> A::Narrow,
    pub wide_from_int: spec_fn(u32) -> A::Wide,
    pub wide_product: spec_fn(A::Wide, A::Wide) -> A::Wide,
    pub wide_quotient: spec_fn(A::Wide, A::Wide) -> A::Wide,
    pub wide_power: spec_fn(A::Wide, A::Wide) -> A::Wide,
    pub wide_at_most: spec_fn(A::Wide, A::Wide) -> bool,
}

impl<A: Arithmetic> Semantics<A> {
    /// Every result that an operation of `A` can give is the one that `self`
    /// says.
    pub open spec fn describes(self) -> bool {
        &&& self.describes_all_but_power()
        &&& self.describes_power()
    }

    /// The same of every operation but `wide_power`, whose precision a number type
    /// may leave open.
    pub open spec fn describes_all_but_power(self) -> bool {
        &&& self.describes_narrow()
        &&& self.describes_order()
        &&& self.describes_wide()
    }

    /// The narrow operations.
    pub open spec fn describes_narrow(self) -> bool {
        &&& forall|n: u32, r: A::Narrow| #[trigger]
            call_ensures(A::from_int, (n,), r) ==> r == (self.from_int)(n)
        &&& forall|r: A::Narrow| #[trigger] call_ensures(A::epsilon, (), r) ==> r == self.epsilon
        &&& forall|a: A::Narrow, b: A::Narrow, r: A::Narrow| #[trigger]
            call_ensures(A::difference, (a, b), r) ==> r == (self.difference)(a, b)
        &&& forall|a: A::Narrow, b: A::Narrow, r: A::Narrow| #[trigger]
            call_ensures(A::product, (a, b), r) ==> r == (self.product)(a, b)
        &&& forall|a: A::Narrow, b: A::Narrow, r: A::Narrow| #[trigger]
            call_ensures(A::quotient, (a, b), r) ==> r == (self.quotient)(a, b)
        &&& forall|a: A::Narrow, b: A::Narrow, c: A::Narrow, r: A::Narrow| #[trigger]
            call_ensures(A::mul_add, (a, b, c), r) ==> r == (self.mul_add)(a, b, c)
        &&& forall|a: A::Narrow, r: A::Narrow| #[trigger]
            call_ensures(A::negated, (a,), r) ==> r == (self.negated)(a)
        &&& forall|a: A::Narrow, r: A::Narrow| #[trigger]
            call_ensures(A::magnitude, (a,), r) ==> r == (self.magnitude)(a)
        &&& forall|a: A::Narrow, b: A::Narrow, r: bool| #[trigger]
            call_ensures(A::less, (a, b), r) ==> r == (self.less)(a, b)
    }

    /// The order keys.
    pub open spec fn describes_order(self) -> bool {
        &&& forall|a: A::Narrow, r: i32| #[trigger]
            call_ensures(A::order_key, (a,), r) ==> r == (self.order_key)(a)
        &&& forall|k: i32, r: A::Narrow| #[trigger]
            call_ensures(A::from_order_key, (k,), r) ==> r == (self.from_order_key)(k)
    }

    /// The wide operations but the power, and the way from one type to the other.
    pub open spec fn describes_wide(self) -> bool {
        &&& forall|a: A::Narrow, r: A::Wide| #[trigger]
            call_ensures(A::widen, (a,), r) ==> r == (self.widen)(a)
        &&& forall|a: A::Wide, r: A::Narrow| #[trigger]
            call_ensures(A::narrow, (a,), r) ==> r == (self.narrow)(a)
        &&& forall|n: u32, r: A::Wide| #[trigger]
            call_ensures(A::wide_from_int, (n,), r) ==> r == (self.wide_from_int)(n)
        &&& forall|a: A::Wide, b: A::Wide, r: A::Wide| #[trigger]
            call_ensures(A::wide_product, (a, b), r) ==> r == (self.wide_product)(a, b)
        &&& forall|a: A::Wide, b: A::Wide, r: A::Wide| #[trigger]
            call_ensures(A::wide_quotient, (a, b), r) ==> r == (self.wide_quotient)(a, b)
        &&& forall|a: A::Wide, b: A::Wide, r: bool| #[trigger]
            call_ensures(A::wide_at_most, (a, b), r) ==> r == (self.wide_at_most)(a, b)
    }

    /// The power.
    pub open spec fn describes_power(self) -> bool {
        forall|a: A::Wide, b: A::Wide, r: A::Wide| #[trigger]
            call_ensures(A::wide_power, (a, b), r) ==> r == (self.wide_power)(a, b)
    }
}

} // verus!
