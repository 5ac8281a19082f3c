//! Gains that are powers of two, in binary floating point.
#[allow(unused_imports)]
use vstd::arithmetic::div_mod::*;
#[allow(unused_imports)]
use vstd::arithmetic::power2::*;
use vstd::prelude::*;

use crate::arithmetic::Arithmetic;
#[allow(unused_imports)]
use crate::arithmetic::Semantics;
#[allow(unused_imports)]
use crate::image::{FarnebackParams, ImageModel};
#[allow(unused_imports)]
use crate::laws::binary::{Binary, Reading};
#[allow(unused_imports)]
use crate::laws::growth::Lossless;
#[allow(unused_imports)]
use crate::laws::rounding::Format;
use crate::stages::FlowStages;
#[allow(unused_imports)]
use crate::stages::StageSemantics;

verus! {

// ---------------------------------------------------------------------------
// Powers of two
// ---------------------------------------------------------------------------

/// `w` is `v` times two to the power of `j`, and both are finite.
pub open spec fn is_scaled<T>(b: Binary<T>, w: T, v: T, j: nat) -> bool {
    &&& b.is_finite(v) && b.is_finite(w)
    &&& (b.read)(w).negative == (b.read)(v).negative
    &&& b.size(w) == pow2(j) * b.size(v)
}

/// `k` is two to the power of `j`.
pub open spec fn is_power<T>(b: Binary<T>, k: T, j: nat) -> bool {
    b.is_finite(k) && (b.read)(k) == (Reading { negative: false, size: pow2(j) * b.format.unit })
}

/// `k` is one divided by two to the power of `j`.
pub open spec fn is_fraction<T>(b: Binary<T>, k: T, j: nat) -> bool {
    b.is_finite(k) && !(b.read)(k).negative && b.size(k) * pow2(j) == b.format.unit
}

/// Sizes grow with a power of two, where nothing overflows or underflows.
proof fn lemma_size_scales(f: Format, t: nat, j: nat)
    requires
        crate::laws::rounding::is_format(f),
        crate::laws::rounding::is_above_underflow(f, t),
        pow2(j) * crate::laws::binary::size_of(f, t) < f.top,
    ensures
        crate::laws::binary::size_of(f, pow2(j) * t) == pow2(j) * crate::laws::binary::size_of(f, t),
{
    let (p, u) = (pow2(j), f.unit);
    let r = crate::laws::rounding::rounded(f, t);
    let s = r / u;
    lemma_pow2_pos(j);
    crate::laws::rounding::lemma_rounding_scales(f, t, j);
    crate::laws::rounding::lemma_rounded_is_whole(f, t);
    assert(crate::laws::binary::size_of(f, t) < f.top) by (nonlinear_arith)
        requires
            p * crate::laws::binary::size_of(f, t) < f.top,
            p >= 1,
    ;
    assert(p * r == (p * s) * u) by (nonlinear_arith)
        requires
            r == s * u,
    ;
    lemma_div_by_multiple((p * s) as int, u as int);
}

/// The sign and the magnitude of a product of signed numbers.
proof fn lemma_signed_product(x: Reading, y: Reading)
    ensures
        crate::laws::binary::absolute(x.signed() * y.signed()) == x.size * y.size,
        x.size * y.size > 0 ==> (x.signed() * y.signed() < 0) == (x.negative != y.negative),
{
    let (a, c) = (x.size as int, y.size as int);
    assert(a * c >= 0) by (nonlinear_arith)
        requires
            a >= 0,
            c >= 0,
    ;
    assert((-a) * c == -(a * c)) by (nonlinear_arith);
    assert(a * (-c) == -(a * c)) by (nonlinear_arith);
    assert((-a) * (-c) == a * c) by (nonlinear_arith);
}

/// The reading of a product.
proof fn lemma_product_reading<A: Arithmetic>(
    m: Semantics<A>,
    b: Binary<A::Narrow>,
    x: A::Narrow,
    y: A::Narrow,
)
    requires
        crate::laws::binary::is_binary(m, b),
        b.is_finite(x),
        b.is_finite(y),
    ensures
        (b.number)((m.product)(x, y)),
        (b.read)((m.product)(x, y)) == (Reading {
            negative: b.is_negative_product(x, y),
            size: crate::laws::binary::size_of(b.format, b.size(x) * b.size(y)),
        }),
{
    lemma_signed_product((b.read)(x), (b.read)(y));
}

/// Products of scaled numbers are scaled products, where nothing overflows or
/// underflows.
proof fn lemma_product_scales<A: Arithmetic>(
    m: Semantics<A>,
    b: Binary<A::Narrow>,
    p: A::Narrow,
    q: A::Narrow,
    x: A::Narrow,
    y: A::Narrow,
    i: nat,
    j: nat,
)
    requires
        crate::laws::binary::is_binary(m, b),
        is_scaled(b, p, x, i),
        is_scaled(b, q, y, j),
        crate::laws::rounding::is_above_underflow(b.format, b.size(x) * b.size(y)),
        pow2(i + j) * b.size((m.product)(x, y)) < b.format.top,
    ensures
        is_scaled(b, (m.product)(p, q), (m.product)(x, y), i + j),
{
    lemma_product_reading(m, b, x, y);
    lemma_product_reading(m, b, p, q);
    lemma_pow2_adds(i, j);
    lemma_pow2_pos(i + j);
    let (a, c, s, t) = (pow2(i), pow2(j), b.size(x), b.size(y));
    assert((a * s) * (c * t) == (a * c) * (s * t)) by (nonlinear_arith);
    lemma_size_scales(b.format, s * t, i + j);
    let (z, k) = (b.size((m.product)(x, y)), pow2(i + j));
    assert(z < b.format.top) by (nonlinear_arith)
        requires
            k * z < b.format.top,
            k >= 1,
    ;
}

/// A number times a power of two, where the result is in range.
proof fn lemma_power_scales<A: Arithmetic>(
    m: Semantics<A>,
    b: Binary<A::Narrow>,
    k: A::Narrow,
    v: A::Narrow,
    j: nat,
)
    requires
        crate::laws::binary::is_binary(m, b),
        is_power(b, k, j),
        b.is_finite(v),
        pow2(j) * b.size(v) < b.format.top,
    ensures
        is_scaled(b, (m.product)(k, v), v, j),
        is_scaled(b, (m.product)(v, k), v, j),
{
    lemma_product_reading(m, b, k, v);
    lemma_product_reading(m, b, v, k);
    crate::laws::binary::lemma_size_of_number(m, b, v);
    let (p, s, u) = (pow2(j), b.size(v), b.format.unit);
    assert((p * u) * s == p * (s * u)) by (nonlinear_arith);
    assert(s * (p * u) == p * (s * u)) by (nonlinear_arith);
    lemma_size_scales(b.format, s * u, j);
}

/// Numbers that are scaled alike are the same.
proof fn lemma_scaled_alike<A: Arithmetic>(
    m: Semantics<A>,
    b: Binary<A::Narrow>,
    p: A::Narrow,
    q: A::Narrow,
    v: A::Narrow,
    j: nat,
)
    requires
        crate::laws::binary::is_binary(m, b),
        is_scaled(b, p, v, j),
        is_scaled(b, q, v, j),
    ensures
        p == q,
{
    assert((b.read)(p) == (b.read)(q));
}

// ---------------------------------------------------------------------------
// The inverse gain
// ---------------------------------------------------------------------------

/// `gain` and `inverse` are powers of two that multiply to one.
pub open spec fn are_inverse_powers<T>(b: Binary<T>, gain: T, inverse: T, j: nat) -> bool {
    ||| is_power(b, gain, j) && is_fraction(b, inverse, j)
    ||| is_fraction(b, gain, j) && is_power(b, inverse, j)
}

/// A level times a power of two and then its inverse, where the product neither
/// overflows nor underflows.
proof fn lemma_inverse_gives_back<A: Arithmetic>(
    m: Semantics<A>,
    b: Binary<A::Narrow>,
    v: A::Narrow,
    gain: A::Narrow,
    inverse: A::Narrow,
    j: nat,
)
    requires
        crate::laws::binary::is_binary(m, b),
        are_inverse_powers(b, gain, inverse, j),
        b.is_finite(v),
        crate::laws::rounding::is_above_underflow(b.format, b.size(v) * b.size(gain)),
        b.size(v) * b.size(gain) < b.format.top * b.format.unit,
    ensures
        (m.product)((m.product)(v, gain), inverse) == v,
{
    let f = b.format;
    let (p, s, u) = (pow2(j), b.size(v), f.unit);
    lemma_pow2_pos(j);
    crate::laws::binary::lemma_size_of_number(m, b, v);
    let there = (m.product)(v, gain);
    let back = (m.product)(there, inverse);
    if is_power(b, gain, j) && is_fraction(b, inverse, j) {
        assert(p * s < f.top) by (nonlinear_arith)
            requires
                s * (p * u) < f.top * u,
                u > 0,
        ;
        lemma_power_scales(m, b, gain, v, j);
        lemma_product_reading(m, b, there, inverse);
        let c = b.size(inverse);
        assert((p * s) * c == s * u) by (nonlinear_arith)
            requires
                c * p == u,
        ;
        assert((b.read)(back) == (b.read)(v));
    } else {
        lemma_product_reading(m, b, v, gain);
        let c = b.size(gain);
        let t = s * c;
        assert(p * t == s * u) by (nonlinear_arith)
            requires
                t == s * c,
                c * p == u,
        ;
        crate::laws::rounding::lemma_rounding_scales(f, t, j);
        let r = crate::laws::rounding::rounded(f, t);
        assert(r == t) by (nonlinear_arith)
            requires
                p * r == p * t,
                p > 0,
        ;
        crate::laws::rounding::lemma_rounded_is_whole(f, t);
        let z = t / u;
        assert(p * z == s) by (nonlinear_arith)
            requires
                p * t == s * u,
                t == z * u,
                u > 0,
        ;
        assert(z <= s) by (nonlinear_arith)
            requires
                p * z == s,
                p >= 1,
        ;
        lemma_power_scales(m, b, inverse, there, j);
        assert((b.read)(back) == (b.read)(v));
    }
}

/// A power of two other than one is not within the precision of one.
proof fn lemma_is_no_unit_gain<A: Arithmetic>(
    m: Semantics<A>,
    b: Binary<A::Narrow>,
    k: A::Narrow,
)
    requires
        crate::laws::binary::is_binary(m, b),
        b.is_finite(k),
        !(b.read)(k).negative,
        b.size(k) >= 2 * b.format.unit || 2 * b.size(k) <= b.format.unit,
        b.format.unit < b.format.top,
    ensures
        !crate::gain::is_unit_gain(m, k),
{
    let f = b.format;
    let one = (m.from_int)(1);
    let (s, u, e) = (b.size(k) as int, f.unit as int, b.size(m.epsilon));
    assert(1 * f.unit == f.unit);
    let apart = (m.difference)(k, one);
    let t = crate::laws::binary::absolute((s - u) * u);
    assert(2 * t >= u * u) by (nonlinear_arith)
        requires
            s >= 2 * u || 2 * s <= u,
            u > 0,
            t == if (s - u) * u < 0 {
                -((s - u) * u)
            } else {
                (s - u) * u
            },
    ;
    let d = f.digits;
    assert(4 * e <= u) by (nonlinear_arith)
        requires
            e * d == 2 * u,
            d >= 8,
            e >= 0,
    ;
    assert(4 * (e * u) <= u * u) by (nonlinear_arith)
        requires
            4 * e <= u,
            u > 0,
    ;
    crate::laws::binary::lemma_size_of_number(m, b, m.epsilon);
    crate::laws::binary::lemma_sizes_keep_order(f, (e * f.unit) as nat, t);
    assert(b.size((m.magnitude)(apart)) >= e);
}

/// In binary floating point, a gain that is a power of two and then its inverse
/// give the frames back, where the levels are finite and the first gain neither
/// overflows nor underflows on them.
pub proof fn law_binary_inverse_gain_gives_the_frames_back<A: Arithmetic>(
    m: Semantics<A>,
    b: Binary<A::Narrow>,
    frames: Seq<ImageModel<A::Narrow>>,
    gain: A::Narrow,
    inverse: A::Narrow,
    j: nat,
)
    requires
        crate::laws::binary::is_binary(m, b),
        are_inverse_powers(b, gain, inverse, j),
        forall|i: int, k: int|
            0 <= i < frames.len() && 0 <= k < frames[i].data.len() ==> {
                let t = b.size(#[trigger] frames[i].data[k]) * b.size(gain);
                &&& b.is_finite(frames[i].data[k])
                &&& crate::laws::rounding::is_above_underflow(b.format, t)
                &&& t < b.format.top * b.format.unit
            },
    ensures
        crate::gain::gained(m, crate::gain::gained(m, frames, gain), inverse) == frames,
{
    let (p, u) = (pow2(j), b.format.unit);
    lemma_pow2_pos(j);
    assert(p * u >= u) by (nonlinear_arith)
        requires
            p >= 1,
            u >= 0,
    ;
    let (c, d) = (b.size(gain), b.size(inverse));
    if j == 0 {
        lemma2_to64();
        assert(c * p == c && d * p == d && p * u == u) by (nonlinear_arith)
            requires
                p == 1,
        ;
        assert((b.read)(gain) == (b.read)(inverse));
    } else {
        lemma_pow2_unfold(j);
        let h = pow2((j - 1) as nat);
        lemma_pow2_pos((j - 1) as nat);
        assert(p * u >= 2 * u) by (nonlinear_arith)
            requires
                p == 2 * h,
                h >= 1,
                u >= 0,
        ;
        assert(2 * c <= c * p && 2 * d <= d * p) by (nonlinear_arith)
            requires
                p == 2 * h,
                h >= 1,
        ;
        lemma_is_no_unit_gain(m, b, gain);
        lemma_is_no_unit_gain(m, b, inverse);
    }
    assert forall|i: int, k: int|
        0 <= i < frames.len() && 0 <= k < frames[i].data.len() implies (m.product)(
        (m.product)(#[trigger] frames[i].data[k], gain),
        inverse,
    ) == frames[i].data[k] by {
        lemma_inverse_gives_back(m, b, frames[i].data[k], gain, inverse, j);
    }
    crate::laws::scaling::law_inverse_gain_gives_the_frames_back(m, frames, gain, inverse);
}

// ---------------------------------------------------------------------------
// Growth
// ---------------------------------------------------------------------------

/// `v` is finite, and so it is times two to the power of `j`.
pub open spec fn has_room<T>(b: Binary<T>, v: T, j: nat) -> bool {
    b.is_finite(v) && pow2(j) * b.size(v) < b.format.top
}

/// The operations that neither underflow nor, with operands and result times two
/// to the power of `j`, overflow.
pub open spec fn in_range<A: Arithmetic>(
    m: Semantics<A>,
    b: Binary<A::Narrow>,
    j: nat,
) -> Lossless<A::Narrow> {
    Lossless {
        product: |x: A::Narrow, y: A::Narrow|
            {
                &&& has_room(b, x, j) && has_room(b, y, j)
                &&& crate::laws::rounding::is_above_underflow(b.format, b.size(x) * b.size(y))
                &&& has_room(b, (m.product)(x, y), j)
            },
        sum: |x: A::Narrow, y: A::Narrow, z: A::Narrow|
            {
                &&& has_room(b, x, j) && has_room(b, y, j) && has_room(b, z, j)
                &&& crate::laws::rounding::is_above_underflow(
                    b.format,
                    crate::laws::binary::absolute(b.exact_sum(x, y, z)),
                )
                &&& has_room(b, (m.mul_add)(x, y, z), j)
            },
    }
}

/// Room for a power is room for a smaller one.
proof fn lemma_less_room<T>(b: Binary<T>, v: T, i: nat, j: nat)
    requires
        has_room(b, v, j),
        i <= j,
    ensures
        has_room(b, v, i),
{
    if i < j {
        lemma_pow2_strictly_increases(i, j);
    }
    let (p, q, s) = (pow2(i), pow2(j), b.size(v));
    assert(p * s <= q * s) by (nonlinear_arith)
        requires
            p <= q,
            s >= 0,
    ;
}

/// A number is scaled by two to the power of zero.
proof fn lemma_scaled_by_one<T>(b: Binary<T>, v: T)
    requires
        b.is_finite(v),
    ensures
        is_scaled(b, v, v, 0),
{
    lemma2_to64();
    let s = b.size(v);
    assert(1 * s == s);
}

/// Sums of scaled numbers are scaled sums, where nothing overflows or underflows.
proof fn lemma_sum_scales<A: Arithmetic>(
    m: Semantics<A>,
    b: Binary<A::Narrow>,
    p: A::Narrow,
    q: A::Narrow,
    r: A::Narrow,
    x: A::Narrow,
    y: A::Narrow,
    z: A::Narrow,
    i: nat,
    j: nat,
)
    requires
        crate::laws::binary::is_binary(m, b),
        is_scaled(b, p, x, i),
        is_scaled(b, q, y, j),
        is_scaled(b, r, z, i + j),
        crate::laws::rounding::is_above_underflow(b.format, crate::laws::binary::absolute(b.exact_sum(x, y, z))),
        has_room(b, (m.mul_add)(x, y, z), i + j),
    ensures
        is_scaled(b, (m.mul_add)(p, q, r), (m.mul_add)(x, y, z), i + j),
{
    let (a, c, k, u) = (pow2(i) as int, pow2(j) as int, pow2(i + j) as int, b.format.unit as int);
    lemma_pow2_adds(i, j);
    lemma_pow2_pos(i + j);
    let (s, t, v) = (b.signed(x), b.signed(y), b.signed(z));
    lemma_scaled_sign(b, p, x, i);
    lemma_scaled_sign(b, q, y, j);
    lemma_scaled_sign(b, r, z, i + j);
    let exact = b.exact_sum(x, y, z);
    assert((a * s) * (c * t) == (a * c) * (s * t)) by (nonlinear_arith);
    assert((k * v) * u == k * (v * u)) by (nonlinear_arith);
    let (st, vu) = (s * t, v * u);
    assert(k * (st + vu) == k * st + k * vu) by (nonlinear_arith);
    assert(b.exact_sum(p, q, r) == k * exact);
    assert(k * exact == 0 <==> exact == 0) by (nonlinear_arith)
        requires
            k > 0,
    ;
    assert(k * exact < 0 <==> exact < 0) by (nonlinear_arith)
        requires
            k > 0,
    ;
    assert(k * (-exact) == -(k * exact)) by (nonlinear_arith);
    lemma_size_scales(b.format, crate::laws::binary::absolute(exact), i + j);
}

/// A scaled number with its sign.
proof fn lemma_scaled_sign<T>(b: Binary<T>, w: T, v: T, j: nat)
    requires
        is_scaled(b, w, v, j),
    ensures
        b.signed(w) == pow2(j) * b.signed(v),
{
    let (p, s) = (pow2(j) as int, b.size(v) as int);
    assert(p * (-s) == -(p * s)) by (nonlinear_arith);
}

/// The powers of a gain that is a power of two.
proof fn lemma_powers_of_gain<A: Arithmetic>(
    m: Semantics<A>,
    b: Binary<A::Narrow>,
    g: A::Narrow,
    j: nat,
)
    requires
        crate::laws::binary::is_binary(m, b),
        is_power(b, g, j),
        pow2(4 * j) * b.format.unit < b.format.top,
    ensures
        is_power(b, crate::laws::growth::second_power(m, g), 2 * j),
        is_power(b, crate::laws::growth::fourth_power(m, g), 4 * j),
{
    let (p, q, r, u) = (pow2(j), pow2(2 * j), pow2(4 * j), b.format.unit);
    lemma_pow2_adds(j, j);
    lemma_pow2_adds(2 * j, 2 * j);
    lemma_pow2_pos(2 * j);
    assert(p * (p * u) == q * u) by (nonlinear_arith)
        requires
            q == p * p,
    ;
    assert(q * (q * u) == r * u) by (nonlinear_arith)
        requires
            r == q * q,
    ;
    assert(q * u <= r * u) by (nonlinear_arith)
        requires
            r == q * q,
            q >= 1,
            u >= 0,
    ;
    lemma_power_scales(m, b, g, g, j);
    let square = crate::laws::growth::second_power(m, g);
    lemma_power_scales(m, b, square, square, 2 * j);
}

/// A power of two comes out of products and sums that stay in range.
proof fn lemma_power_leaves<A: Arithmetic>(
    m: Semantics<A>,
    b: Binary<A::Narrow>,
    k: A::Narrow,
    i: nat,
    j: nat,
)
    requires
        crate::laws::binary::is_binary(m, b),
        is_power(b, k, i),
        i <= j,
        b.format.top > 0,
    ensures
        crate::laws::growth::leaves_products(m, k, in_range(m, b, j)),
        crate::laws::growth::leaves_sums(m, k, in_range(m, b, j)),
{
    let ops = in_range(m, b, j);
    let zero = (m.from_int)(0);
    let (p, u) = (pow2(i), b.format.unit);
    assert(0 * u == 0 && p * 0 == 0);
    lemma_power_scales(m, b, k, zero, i);
    assert((b.read)((m.product)(k, zero)) == (b.read)(zero));
    assert forall|x: A::Narrow, y: A::Narrow| (ops.product)(x, y) implies #[trigger] (m.product)(
        (m.product)(k, x),
        y,
    ) == (m.product)(k, (m.product)(x, y)) by {
        let xy = (m.product)(x, y);
        lemma_less_room(b, x, i, j);
        lemma_less_room(b, xy, i, j);
        lemma_power_scales(m, b, k, x, i);
        lemma_power_scales(m, b, k, xy, i);
        lemma_scaled_by_one(b, y);
        lemma_product_scales(m, b, (m.product)(k, x), y, x, y, i, 0);
        lemma_scaled_alike(m, b, (m.product)((m.product)(k, x), y), (m.product)(k, xy), xy, i);
    }
    assert forall|x: A::Narrow, y: A::Narrow, z: A::Narrow| (ops.sum)(x, y, z) implies #[trigger] (
    m.mul_add)((m.product)(k, x), y, (m.product)(k, z)) == (m.product)(
        k,
        (m.mul_add)(x, y, z),
    ) by {
        let sum = (m.mul_add)(x, y, z);
        let (kx, kz) = ((m.product)(k, x), (m.product)(k, z));
        lemma_less_room(b, x, i, j);
        lemma_less_room(b, z, i, j);
        lemma_less_room(b, sum, i, j);
        lemma_power_scales(m, b, k, x, i);
        lemma_power_scales(m, b, k, z, i);
        lemma_power_scales(m, b, k, sum, i);
        lemma_scaled_by_one(b, y);
        lemma_sum_scales(m, b, kx, y, kz, x, y, z, i, 0);
        lemma_scaled_alike(m, b, (m.mul_add)(kx, y, kz), (m.product)(k, sum), sum, i);
    }
}

/// A power of two comes out of both operands.
proof fn lemma_power_leaves_squares<A: Arithmetic>(
    m: Semantics<A>,
    b: Binary<A::Narrow>,
    k: A::Narrow,
    i: nat,
    j: nat,
)
    requires
        crate::laws::binary::is_binary(m, b),
        is_power(b, k, i),
        is_power(b, (m.product)(k, k), 2 * i),
        2 * i <= j,
    ensures
        crate::laws::growth::leaves_squares(m, k, in_range(m, b, j)),
{
    let ops = in_range(m, b, j);
    let square = (m.product)(k, k);
    assert forall|x: A::Narrow, y: A::Narrow| (ops.product)(x, y) implies #[trigger] (m.product)(
        (m.product)(k, x),
        (m.product)(k, y),
    ) == (m.product)(square, (m.product)(x, y)) by {
        let xy = (m.product)(x, y);
        let (kx, ky) = ((m.product)(k, x), (m.product)(k, y));
        lemma_less_room(b, x, i, j);
        lemma_less_room(b, y, i, j);
        lemma_less_room(b, xy, 2 * i, j);
        lemma_power_scales(m, b, k, x, i);
        lemma_power_scales(m, b, k, y, i);
        lemma_power_scales(m, b, square, xy, 2 * i);
        lemma_product_scales(m, b, kx, ky, x, y, i, i);
        lemma_scaled_alike(m, b, (m.product)(kx, ky), (m.product)(square, xy), xy, 2 * i);
    }
    assert forall|x: A::Narrow, y: A::Narrow, z: A::Narrow| (ops.sum)(x, y, z) implies #[trigger] (
    m.mul_add)((m.product)(k, x), (m.product)(k, y), (m.product)(square, z)) == (m.product)(
        square,
        (m.mul_add)(x, y, z),
    ) by {
        let sum = (m.mul_add)(x, y, z);
        let (kx, ky, kz) = ((m.product)(k, x), (m.product)(k, y), (m.product)(square, z));
        lemma_less_room(b, x, i, j);
        lemma_less_room(b, y, i, j);
        lemma_less_room(b, z, 2 * i, j);
        lemma_less_room(b, sum, 2 * i, j);
        lemma_power_scales(m, b, k, x, i);
        lemma_power_scales(m, b, k, y, i);
        lemma_power_scales(m, b, square, z, 2 * i);
        lemma_power_scales(m, b, square, sum, 2 * i);
        lemma_sum_scales(m, b, kx, ky, kz, x, y, z, i, i);
        lemma_scaled_alike(m, b, (m.mul_add)(kx, ky, kz), (m.product)(square, sum), sum, 2 * i);
    }
}

/// In binary floating point, a gain that is a power of two is exact on every
/// operation that stays in range.
pub proof fn law_power_of_two_is_an_exact_gain<A: Arithmetic>(
    m: Semantics<A>,
    b: Binary<A::Narrow>,
    g: A::Narrow,
    j: nat,
)
    requires
        crate::laws::binary::is_binary(m, b),
        is_power(b, g, j),
        pow2(4 * j) * b.format.unit < b.format.top,
    ensures
        crate::laws::growth::is_exact_gain(m, g, in_range(m, b, 4 * j)),
{
    let ops = in_range(m, b, 4 * j);
    let square = crate::laws::growth::second_power(m, g);
    let fourth = crate::laws::growth::fourth_power(m, g);
    lemma_powers_of_gain(m, b, g, j);
    lemma_power_leaves(m, b, g, j, 4 * j);
    lemma_power_leaves_squares(m, b, g, j, 4 * j);
    lemma_power_leaves(m, b, square, 2 * j, 4 * j);
    lemma_power_leaves_squares(m, b, square, 2 * j, 4 * j);
    assert forall|x: A::Narrow, y: A::Narrow| (ops.product)(x, y) implies #[trigger] (m.negated)(
        (m.product)(fourth, (m.product)(x, y)),
    ) == (m.product)(fourth, (m.negated)((m.product)(x, y))) by {
        let xy = (m.product)(x, y);
        lemma_power_scales(m, b, fourth, xy, 4 * j);
        lemma_power_scales(m, b, fourth, (m.negated)(xy), 4 * j);
        assert((b.read)((m.negated)((m.product)(fourth, xy))) == (b.read)(
            (m.product)(fourth, (m.negated)(xy)),
        ));
    }
}

/// A level that is zero or covered, and stays in range, is covered after the gain
/// if it was before.
proof fn lemma_coverage_stays<A: Arithmetic>(
    m: Semantics<A>,
    b: Binary<A::Narrow>,
    g: A::Narrow,
    j: nat,
    v: A::Narrow,
)
    requires
        crate::laws::binary::is_binary(m, b),
        is_power(b, g, j),
        has_room(b, v, j),
        crate::determinant::COVERED_MIN * b.format.unit < b.format.top,
        b.size(v) == 0 || crate::determinant::is_covered(m, v),
    ensures
        crate::determinant::is_covered(m, (m.product)(v, g)) == crate::determinant::is_covered(
            m,
            v,
        ),
{
    let least = (m.from_int)(crate::determinant::COVERED_MIN);
    let (p, s) = (pow2(j), b.size(v));
    lemma_pow2_pos(j);
    lemma_power_scales(m, b, g, v, j);
    lemma_scaled_sign(b, (m.product)(v, g), v, j);
    assert(p * s >= s) by (nonlinear_arith)
        requires
            p >= 1,
            s >= 0,
    ;
    assert(s == 0 ==> p * s == 0) by (nonlinear_arith);
    assert(b.signed(least) == 2 * b.format.unit);
}

/// In binary floating point, the determinants of a frame grow with the fourth power
/// of a gain that is a power of two: a frame with the gain applied adds the same
/// pixels to the distribution, each determinant being the fourth power of the gain
/// times what it was.
///
/// The stages are linear in the gain at this frame, each sampled level is zero or
/// covered, and no operation on the way overflows or underflows, before or after
/// the gain.
pub proof fn law_binary_frame_determinants_grow<F: FlowStages>(
    s: StageSemantics<F>,
    b: Binary<F::Narrow>,
    g: F::Narrow,
    j: nat,
    gray: ImageModel<F::Narrow>,
    params: &FarnebackParams<F::Param>,
)
    requires
        crate::laws::binary::is_binary(s.arithmetic, b),
        is_power(b, g, j),
        pow2(4 * j) * b.format.unit < b.format.top,
        crate::determinant::COVERED_MIN * b.format.unit < b.format.top,
        ({
            let m = s.arithmetic;
            let ops = in_range(m, b, 4 * j);
            let louder = crate::gain::scaled_image(m, gray, g);
            let level = (s.level_image)(gray, 0, params.pyr_scale);
            let louder_level = (s.level_image)(louder, 0, params.pyr_scale);
            let weak = (s.expansion)(level, params.poly_n, params.poly_sigma);
            let strong = (s.expansion)(louder_level, params.poly_n, params.poly_sigma);
            let (w, h) = (level.width as int, level.height as int);
            let grid = crate::determinant::pixel_grid(w, h);
            let kernel = crate::determinant::window_kernel(s, params);
            let scale = crate::determinant::window_scale(s, params);
            let averaged = crate::determinant::averaged_over(
                m,
                crate::determinant::structure_of(m, weak, (w * h) as nat),
                w,
                h,
                kernel,
            );
            &&& louder_level.width == level.width && louder_level.height == level.height
            &&& forall|k: int, c: int|
                0 <= k < w * h && 0 <= c < 3 ==> #[trigger] strong[k][c] == (m.product)(
                    g,
                    weak[k][c],
                )
            &&& crate::laws::growth::frame_lossless(m, ops, weak, w, h, kernel)
            &&& forall|k: int|
                0 <= k < grid.len() ==> {
                    let i = #[trigger] grid[k];
                    &&& i < gray.data.len()
                    &&& crate::laws::growth::determinant_lossless(m, ops, averaged, scale, i)
                    &&& has_room(b, gray.data[i], j)
                    &&& b.size(gray.data[i]) == 0 || crate::determinant::is_covered(
                        m,
                        gray.data[i],
                    )
                }
        }),
    ensures
        crate::determinant::determinants_of(
            s,
            crate::gain::scaled_image(s.arithmetic, gray, g),
            params,
        ) == crate::laws::growth::multiplied(
            s.arithmetic,
            crate::laws::growth::fourth_power(s.arithmetic, g),
            crate::determinant::determinants_of(s, gray, params),
        ),
{
    let m = s.arithmetic;
    let ops = in_range(m, b, 4 * j);
    let fourth = crate::laws::growth::fourth_power(m, g);
    let level = (s.level_image)(gray, 0, params.pyr_scale);
    let weak = (s.expansion)(level, params.poly_n, params.poly_sigma);
    let (w, h) = (level.width as int, level.height as int);
    let grid = crate::determinant::pixel_grid(w, h);
    let kernel = crate::determinant::window_kernel(s, params);
    let scale = crate::determinant::window_scale(s, params);
    let averaged = crate::determinant::averaged_over(
        m,
        crate::determinant::structure_of(m, weak, (w * h) as nat),
        w,
        h,
        kernel,
    );
    law_power_of_two_is_an_exact_gain(m, b, g, j);
    lemma_powers_of_gain(m, b, g, j);
    assert forall|k: int| 0 <= k < grid.len() implies {
        let i = #[trigger] grid[k];
        let det = crate::determinant::determinant_at(m, averaged, scale, i);
        &&& crate::determinant::is_covered(m, (m.product)(gray.data[i], g))
            == crate::determinant::is_covered(m, gray.data[i])
        &&& crate::determinant::is_positive(m, (m.product)(fourth, det))
            == crate::determinant::is_positive(m, det)
    } by {
        let i = grid[k];
        let det = crate::determinant::determinant_at(m, averaged, scale, i);
        let zero = (m.from_int)(0);
        lemma_coverage_stays(m, b, g, j, gray.data[i]);
        lemma_power_scales(m, b, fourth, det, 4 * j);
        lemma_scaled_sign(b, (m.product)(fourth, det), det, 4 * j);
        lemma_pow2_pos(4 * j);
        let (p, t) = (pow2(4 * j) as int, b.signed(det));
        assert(0 < p * t <==> 0 < t) by (nonlinear_arith)
            requires
                p > 0,
        ;
        let u = b.format.unit;
        assert(0 * u == 0);
        assert(b.signed(zero) == 0);
    }
    crate::laws::growth::law_frame_determinants_grow_with_the_fourth_power(
        s,
        g,
        ops,
        gray,
        params,
    );
}

} // verus!
