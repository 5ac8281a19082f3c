//! What holds in binary floating point: of operations whose results are the exact
//! ones, rounded.
#[allow(unused_imports)]
use vstd::arithmetic::div_mod::*;
use vstd::prelude::*;

use crate::arithmetic::Arithmetic;
#[allow(unused_imports)]
use crate::arithmetic::Semantics;
#[allow(unused_imports)]
use crate::laws::rounding::Format;

verus! {

// ---------------------------------------------------------------------------
// Binary floating point
// ---------------------------------------------------------------------------

/// A number as it is read: its sign, which zeros have too, and its size in units.
/// An infinity has the size of the first power of two that is out of range.
pub struct Reading {
    pub negative: bool,
    pub size: nat,
}

impl Reading {
    /// The number, in units.
    pub open spec fn signed(self) -> int {
        if self.negative {
            -self.size
        } else {
            self.size as int
        }
    }
}

/// How the values of a type are read as binary numbers, where they are numbers.
#[verifier::reject_recursive_types(T)]
pub struct Binary<T> {
    pub format: Format,
    pub number: spec_fn(T) -> bool,
    pub read: spec_fn(T) -> Reading,
}

impl<T> Binary<T> {
    /// Whether a value is a number and not an infinity.
    pub open spec fn is_finite(self, v: T) -> bool {
        (self.number)(v) && (self.read)(v).size < self.format.top
    }

    /// The size of a value.
    pub open spec fn size(self, v: T) -> nat {
        (self.read)(v).size
    }

    /// A value with its sign.
    pub open spec fn signed(self, v: T) -> int {
        (self.read)(v).signed()
    }

    /// Whether a product has the sign of a negative number.
    pub open spec fn is_negative_product(self, a: T, b: T) -> bool {
        (self.read)(a).negative != (self.read)(b).negative
    }

    /// The exact `a * b + c`, in fractions of a unit.
    pub open spec fn exact_sum(self, a: T, b: T, c: T) -> int {
        self.signed(a) * self.signed(b) + self.signed(c) * self.format.unit
    }
}

/// The size that `t` has when it is rounded to a format.
pub open spec fn size_of(f: Format, t: nat) -> nat {
    let size = crate::laws::rounding::rounded(f, t) / f.unit;
    if size < f.top {
        size
    } else {
        f.top
    }
}

/// The magnitude of an integer.
pub open spec fn absolute(t: int) -> nat {
    if t < 0 {
        (-t) as nat
    } else {
        t as nat
    }
}

/// The exact result `t`, rounded to a format. A zero is negative where
/// `negative_zero` says so.
pub open spec fn reading_of(f: Format, t: int, negative_zero: bool) -> Reading {
    Reading {
        negative: if t == 0 {
            negative_zero
        } else {
            t < 0
        },
        size: size_of(f, absolute(t)),
    }
}

/// The narrow operations are those of binary floating point: each result is the
/// exact one, rounded to nearest.
pub open spec fn is_binary<A: Arithmetic>(m: Semantics<A>, b: Binary<A::Narrow>) -> bool {
    let f = b.format;
    &&& crate::laws::rounding::is_format(f)
    &&& forall|x: A::Narrow, y: A::Narrow|
        (b.number)(x) && (b.number)(y) && #[trigger] (b.read)(x) == #[trigger] (b.read)(y) ==> x
            == y
    &&& forall|x: A::Narrow|
        b.is_finite(x) ==> crate::laws::rounding::rounded(f, #[trigger] b.size(x) * f.unit)
            == b.size(x) * f.unit
    &&& forall|n: u32|
        n < f.digits && n * f.unit < f.top ==> (b.number)(#[trigger] (m.from_int)(n)) && (b.read)(
            (m.from_int)(n),
        ) == (Reading { negative: false, size: n as nat * f.unit })
    &&& b.is_finite(m.epsilon) && !(b.read)(m.epsilon).negative && b.size(m.epsilon) * f.digits == 2
        * f.unit
    &&& forall|x: A::Narrow, y: A::Narrow|
        b.is_finite(x) && b.is_finite(y) ==> (b.number)(#[trigger] (m.product)(x, y)) && (b.read)(
            (m.product)(x, y),
        ) == reading_of(f, b.signed(x) * b.signed(y), b.is_negative_product(x, y))
    &&& forall|x: A::Narrow, y: A::Narrow, z: A::Narrow|
        b.is_finite(x) && b.is_finite(y) && b.is_finite(z) ==> (b.number)(
            #[trigger] (m.mul_add)(x, y, z),
        ) && (b.read)((m.mul_add)(x, y, z)) == reading_of(
            f,
            b.exact_sum(x, y, z),
            b.is_negative_product(x, y) && (b.read)(z).negative,
        )
    &&& forall|x: A::Narrow, y: A::Narrow|
        b.is_finite(x) && b.is_finite(y) ==> (b.number)(#[trigger] (m.difference)(x, y)) && (
        b.read)((m.difference)(x, y)) == reading_of(
            f,
            (b.signed(x) - b.signed(y)) * f.unit,
            (b.read)(x).negative && !(b.read)(y).negative,
        )
    &&& forall|x: A::Narrow|
        (b.number)(x) ==> (b.number)(#[trigger] (m.negated)(x)) && (b.read)((m.negated)(x)) == (
        Reading { negative: !(b.read)(x).negative, size: b.size(x) })
    &&& forall|x: A::Narrow|
        (b.number)(x) ==> (b.number)(#[trigger] (m.magnitude)(x)) && (b.read)((m.magnitude)(x))
            == (Reading { negative: false, size: b.size(x) })
    &&& forall|x: A::Narrow, y: A::Narrow|
        (b.number)(x) && (b.number)(y) ==> #[trigger] (m.less)(x, y) == (b.signed(x) < b.signed(
            y,
        ))
}

/// A whole number of units in range is its own size.
pub(crate) proof fn lemma_size_of_number<A: Arithmetic>(
    m: Semantics<A>,
    b: Binary<A::Narrow>,
    v: A::Narrow,
)
    requires
        is_binary(m, b),
        b.is_finite(v),
    ensures
        size_of(b.format, b.size(v) * b.format.unit) == b.size(v),
        crate::laws::rounding::is_above_underflow(b.format, b.size(v) * b.format.unit),
{
    let (s, u) = (b.size(v) as int, b.format.unit as int);
    lemma_div_by_multiple(s, u);
    lemma_mod_multiples_basic(s, u);
}

// ---------------------------------------------------------------------------
// Order
// ---------------------------------------------------------------------------

/// `x` is at most `y`.
pub open spec fn at_most<T>(b: Binary<T>) -> spec_fn(T, T) -> bool {
    |x: T, y: T| b.signed(x) <= b.signed(y)
}

/// The numbers that are finite.
pub open spec fn finite<T>(b: Binary<T>) -> spec_fn(T) -> bool {
    |v: T| b.is_finite(v)
}

/// Zero is rounded to zero.
proof fn lemma_size_of_zero(f: Format)
    requires
        crate::laws::rounding::is_format(f),
    ensures
        size_of(f, 0) == 0,
{
    let (d, u) = (f.digits, f.unit);
    assert(0 < d * u) by (nonlinear_arith)
        requires
            d > 0,
            u > 0,
    ;
    assert(0nat / u == 0 && 0nat % u == 0) by {
        lemma_div_basics(u as int);
        lemma_small_mod(0, u);
    }
    assert(0 * u == 0);
}

/// Larger exact sizes have no smaller sizes.
pub(crate) proof fn lemma_sizes_keep_order(f: Format, t: nat, u: nat)
    requires
        crate::laws::rounding::is_format(f),
        t <= u,
    ensures
        size_of(f, t) <= size_of(f, u),
{
    crate::laws::rounding::lemma_rounding_keeps_order(f, t, u);
    lemma_div_is_ordered(
        crate::laws::rounding::rounded(f, t) as int,
        crate::laws::rounding::rounded(f, u) as int,
        f.unit as int,
    );
}

/// Larger exact results have no smaller readings.
proof fn lemma_readings_keep_order(f: Format, t: int, u: int, p: bool, q: bool)
    requires
        crate::laws::rounding::is_format(f),
        t <= u,
    ensures
        reading_of(f, t, p).signed() <= reading_of(f, u, q).signed(),
{
    lemma_size_of_zero(f);
    if t >= 0 {
        lemma_sizes_keep_order(f, absolute(t), absolute(u));
    } else if u <= 0 {
        lemma_sizes_keep_order(f, absolute(u), absolute(t));
    }
}

/// A non-negative tap keeps the order of finite numbers.
proof fn lemma_taps_keep_order<A: Arithmetic>(m: Semantics<A>, b: Binary<A::Narrow>)
    requires
        is_binary(m, b),
        b.format.top > 0,
    ensures
        crate::laws::smoothing::taps_keep_order(m, at_most(b), finite(b)),
        b.is_finite((m.from_int)(0)),
{
    let (le, inside) = (at_most(b), finite(b));
    let zero = (m.from_int)(0);
    let f = b.format;
    assert(0 * f.unit == 0);
    assert(b.signed(zero) == 0);
    assert forall|k: A::Narrow, x: A::Narrow, y: A::Narrow, s: A::Narrow, t: A::Narrow|
        #![trigger (m.mul_add)(x, k, s), (m.mul_add)(y, k, t)]
        inside(k) && inside(x) && inside(y) && inside(s) && inside(t) && le(zero, k) && le(x, y)
            && le(s, t) implies le((m.mul_add)(x, k, s), (m.mul_add)(y, k, t)) by {
        let (c, p, q, u) = (b.signed(k), b.signed(x), b.signed(y), f.unit as int);
        assert(p * c <= q * c) by (nonlinear_arith)
            requires
                p <= q,
                0 <= c,
        ;
        let (i, j) = (b.signed(s), b.signed(t));
        assert(i * u <= j * u) by (nonlinear_arith)
            requires
                i <= j,
                0 <= u,
        ;
        lemma_readings_keep_order(
            f,
            b.exact_sum(x, k, s),
            b.exact_sum(y, k, t),
            b.is_negative_product(x, k) && (b.read)(s).negative,
            b.is_negative_product(y, k) && (b.read)(t).negative,
        );
    }
}

/// In binary floating point, smoothing with non-negative taps keeps the order of
/// two images, where all samples and all sums on the way are finite.
pub proof fn law_binary_smoothing_keeps_order<A: Arithmetic>(
    m: Semantics<A>,
    b: Binary<A::Narrow>,
    low: Seq<A::Narrow>,
    high: Seq<A::Narrow>,
    w: int,
    h: int,
    kernel: Seq<A::Narrow>,
    i: int,
)
    requires
        is_binary(m, b),
        w >= 0,
        h >= 0,
        low.len() == w * h,
        high.len() == w * h,
        crate::laws::smoothing::sums_inside(m, finite(b), low, w, h, kernel),
        crate::laws::smoothing::sums_inside(m, finite(b), high, w, h, kernel),
        forall|j: int| 0 <= j < kernel.len() ==> 0 <= b.signed(#[trigger] kernel[j]),
        forall|k: int|
            #![trigger low[k]]
            #![trigger high[k]]
            0 <= k < w * h ==> b.signed(low[k]) <= b.signed(high[k]),
        0 <= i < w * h,
    ensures
        b.signed(crate::smooth::smoothed(m, low, w, h, kernel)[i]) <= b.signed(
            crate::smooth::smoothed(m, high, w, h, kernel)[i],
        ),
{
    assert(finite(b)(low[i]));
    lemma_taps_keep_order(m, b);
    assert(0 * b.format.unit == 0);
    assert forall|j: int| 0 <= j < kernel.len() implies at_most(b)(
        (m.from_int)(0),
        #[trigger] kernel[j],
    ) by {
        assert(0 <= b.signed(kernel[j]));
    }
    crate::laws::smoothing::law_smoothing_keeps_order(
        m,
        at_most(b),
        finite(b),
        low,
        high,
        w,
        h,
        kernel,
        i,
    );
}

/// In binary floating point, smoothing a non-negative image with non-negative taps
/// gives a non-negative image, where all samples and all sums on the way are
/// finite.
pub proof fn law_binary_smoothing_keeps_non_negative_images<A: Arithmetic>(
    m: Semantics<A>,
    b: Binary<A::Narrow>,
    src: Seq<A::Narrow>,
    w: int,
    h: int,
    kernel: Seq<A::Narrow>,
    i: int,
)
    requires
        is_binary(m, b),
        w >= 0,
        h >= 0,
        src.len() == w * h,
        crate::laws::smoothing::sums_inside(m, finite(b), src, w, h, kernel),
        forall|j: int| 0 <= j < kernel.len() ==> 0 <= b.signed(#[trigger] kernel[j]),
        forall|k: int| 0 <= k < w * h ==> 0 <= b.signed(#[trigger] src[k]),
        0 <= i < w * h,
    ensures
        0 <= b.signed(crate::smooth::smoothed(m, src, w, h, kernel)[i]),
{
    assert(finite(b)(src[i]));
    lemma_taps_keep_order(m, b);
    let zero = (m.from_int)(0);
    let u = b.format.unit;
    assert(0 * u == 0);
    assert forall|j: int| 0 <= j < kernel.len() implies at_most(b)(zero, #[trigger] kernel[j])
        && (m.mul_add)(zero, kernel[j], zero) == zero by {
        assert(finite(b)(kernel[j]));
        assert(0 <= b.signed(kernel[j]));
        let s = b.signed(kernel[j]);
        assert(0 * s == 0);
        lemma_size_of_zero(b.format);
        assert((b.read)((m.mul_add)(zero, kernel[j], zero)) == (b.read)(zero));
    }
    assert forall|k: int| 0 <= k < w * h implies at_most(b)(zero, #[trigger] src[k]) by {
        assert(0 <= b.signed(src[k]));
    }
    crate::laws::smoothing::law_smoothing_keeps_non_negative_images(
        m,
        at_most(b),
        finite(b),
        src,
        w,
        h,
        kernel,
        i,
    );
}

// ---------------------------------------------------------------------------
// Transposition
// ---------------------------------------------------------------------------

/// The finite numbers that are integers.
pub open spec fn integral<T>(b: Binary<T>) -> spec_fn(T) -> bool {
    |v: T| b.is_finite(v) && b.size(v) % b.format.unit == 0
}

/// The integer that such a number is.
pub open spec fn integer<T>(b: Binary<T>) -> spec_fn(T) -> int {
    |v: T|
        if (b.read)(v).negative {
            -(b.size(v) / b.format.unit)
        } else {
            (b.size(v) / b.format.unit) as int
        }
}

/// A number that is an integer, in units.
proof fn lemma_integral<T>(b: Binary<T>, v: T)
    requires
        b.format.unit > 0,
        integral(b)(v),
    ensures
        b.signed(v) == integer(b)(v) * b.format.unit,
{
    let (s, u) = (b.size(v) as int, b.format.unit as int);
    lemma_fundamental_div_mod(s, u);
    let n = s / u;
    assert((-n) * u == -(u * n)) by (nonlinear_arith);
    assert(n * u == u * n) by (nonlinear_arith);
}

/// Integers below `limit` are multiplied and added without error.
proof fn lemma_integers_are_exact<A: Arithmetic>(
    m: Semantics<A>,
    b: Binary<A::Narrow>,
    limit: int,
)
    requires
        is_binary(m, b),
        0 < limit <= b.format.digits,
        limit <= u32::MAX,
        limit * b.format.unit <= b.format.top,
    ensures
        crate::laws::transposition::is_exact_below(m, integral(b), integer(b), limit),
{
    let f = b.format;
    let u = f.unit as int;
    let (whole, value) = (integral(b), integer(b));
    let zero = (m.from_int)(0);
    assert(0 * u == 0);
    assert(limit * u > 0) by (nonlinear_arith)
        requires
            limit > 0,
            u > 0,
    ;
    assert(0int % u == 0 && 0int / u == 0) by {
        lemma_div_basics(u);
        lemma_small_mod(0, f.unit);
    }
    assert forall|x: A::Narrow, y: A::Narrow, z: A::Narrow|
        whole(x) && whole(y) && whole(z) && crate::laws::transposition::magnitude(value(x))
            * crate::laws::transposition::magnitude(value(y))
            + crate::laws::transposition::magnitude(value(z)) < limit implies {
        &&& whole(#[trigger] (m.mul_add)(x, y, z))
        &&& value((m.mul_add)(x, y, z)) == value(x) * value(y) + value(z)
    } by {
        let (i, j, k) = (value(x), value(y), value(z));
        lemma_integral(b, x);
        lemma_integral(b, y);
        lemma_integral(b, z);
        crate::laws::transposition::lemma_bounded_product(
            i,
            crate::laws::transposition::magnitude(i),
            j,
        );
        let sum = i * j + k;
        let n = absolute(sum);
        assert(n < limit);
        assert((i * u) * (j * u) == (i * j) * (u * u)) by (nonlinear_arith);
        assert((k * u) * u == k * (u * u)) by (nonlinear_arith);
        let (ij, uu) = (i * j, u * u);
        assert(ij * uu + k * uu == (ij + k) * uu) by (nonlinear_arith);
        assert(b.exact_sum(x, y, z) == sum * uu);
        assert(uu > 0) by (nonlinear_arith)
            requires
                u > 0,
                uu == u * u,
        ;
        assert((sum < 0 <==> sum * uu < 0) && (sum == 0 <==> sum * uu == 0)) by (nonlinear_arith)
            requires
                uu > 0,
        ;
        assert((-sum) * uu == -(sum * uu)) by (nonlinear_arith);
        assert(absolute(sum * uu) == n * uu);
        assert(n * uu == (n * u) * u) by (nonlinear_arith)
            requires
                uu == u * u,
        ;
        assert(n * u < limit * u) by (nonlinear_arith)
            requires
                n < limit,
                u > 0,
        ;
        // `n` is a number, so its size is its own.
        lemma_size_of_number(m, b, (m.from_int)(n as u32));
        assert(b.size((m.mul_add)(x, y, z)) == n * u);
        lemma_div_by_multiple(n as int, u);
        lemma_mod_multiples_basic(n as int, u);
    }
}

/// In binary floating point, smoothing the transposed image gives the transposed
/// result, where samples and taps are integers and the magnitudes of what is summed
/// come to less than the precision can hold.
pub proof fn law_binary_smoothing_commutes_with_transposition<A: Arithmetic>(
    m: Semantics<A>,
    b: Binary<A::Narrow>,
    limit: int,
    src: Seq<A::Narrow>,
    w: int,
    h: int,
    kernel: Seq<A::Narrow>,
)
    requires
        is_binary(m, b),
        0 < limit <= b.format.digits,
        limit <= u32::MAX,
        limit * b.format.unit <= b.format.top,
        w >= 0,
        h >= 0,
        src.len() == w * h,
        forall|i: int| 0 <= i < src.len() ==> integral(b)(#[trigger] src[i]),
        forall|j: int| 0 <= j < kernel.len() ==> integral(b)(#[trigger] kernel[j]),
        crate::laws::transposition::sums_below(integer(b), src, w, h, kernel, limit),
    ensures
        crate::laws::transposition::values(
            integer(b),
            crate::smooth::smoothed(
                m,
                crate::laws::transposition::transposed(src, w, h),
                h,
                w,
                kernel,
            ),
        ) == crate::laws::transposition::values(
            integer(b),
            crate::laws::transposition::transposed(
                crate::smooth::smoothed(m, src, w, h, kernel),
                w,
                h,
            ),
        ),
{
    lemma_integers_are_exact(m, b, limit);
    crate::laws::transposition::law_smoothing_commutes_with_transposition(
        m,
        integral(b),
        integer(b),
        limit,
        src,
        w,
        h,
        kernel,
    );
}

} // verus!
