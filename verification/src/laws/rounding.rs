//! Rounding to so many binary digits.
//!
//! A number is held as a multiple of the smallest positive number of its format,
//! its unit. An exact product or sum is finer: it is held in fractions of a unit,
//! `unit` of them to a unit.
#[allow(unused_imports)]
use vstd::arithmetic::div_mod::*;
#[allow(unused_imports)]
use vstd::arithmetic::power2::*;
use vstd::prelude::*;

verus! {

/// A binary format.
pub struct Format {
    /// Two to the power of the precision.
    pub digits: nat,
    /// How many units make one.
    pub unit: nat,
    /// How many units make the first power of two that is out of range.
    pub top: nat,
}

/// Whether a format is one: it has a unit and at least three digits, so that
/// `digits` is even.
pub open spec fn is_format(f: Format) -> bool {
    f.unit > 0 && f.digits >= 8 && f.digits % 2 == 0
}

/// The distance between neighbouring numbers around `t`: the first of `q`, twice
/// `q`, and so on, of which `digits` reach beyond `t`.
pub open spec fn quantum(t: nat, digits: nat, q: nat) -> nat
    decreases t - q,
{
    if t < digits * q || digits < 2 || q == 0 {
        q
    } else {
        proof {
            assert(digits * q >= 2 * q) by (nonlinear_arith)
                requires
                    digits >= 2,
                    q >= 0,
            ;
        }
        quantum(t, digits, 2 * q)
    }
}

/// How many times `q` is nearest to `t`; of two that are, the even one.
pub open spec fn nearest(t: nat, q: nat) -> nat {
    if 2 * (t % q) < q || (2 * (t % q) == q && (t / q) % 2 == 0) {
        t / q
    } else {
        t / q + 1
    }
}

/// `t` rounded to the precision of a format, in the fractions that `t` is in.
pub open spec fn rounded(f: Format, t: nat) -> nat {
    let q = quantum(t, f.digits, f.unit);
    nearest(t, q) * q
}

/// Nothing is lost to underflow when `t` is rounded: `t` is a whole number of
/// units, or has the full precision of the format.
pub open spec fn is_above_underflow(f: Format, t: nat) -> bool {
    t % f.unit == 0 || 2 * t >= f.digits * f.unit
}

// ---------------------------------------------------------------------------
// The distance between neighbours
// ---------------------------------------------------------------------------

/// The distance reaches far enough, and half of it would not.
proof fn lemma_quantum(t: nat, digits: nat, q: nat)
    requires
        q > 0,
        digits >= 2,
    ensures
        quantum(t, digits, q) >= q,
        quantum(t, digits, q) % q == 0,
        t < digits * quantum(t, digits, q),
        quantum(t, digits, q) > q ==> {
            &&& quantum(t, digits, q) >= 2 * q
            &&& 2 * t >= digits * quantum(t, digits, q)
        },
    decreases t - q,
{
    if t < digits * q {
        lemma_mod_self_0(q as int);
    } else {
        assert(digits * q >= 2 * q) by (nonlinear_arith)
            requires
                digits >= 2,
                q >= 0,
        ;
        lemma_quantum(t, digits, 2 * q);
        let r = quantum(t, digits, 2 * q);
        assert(2 * (digits * q) == digits * (2 * q)) by (nonlinear_arith);
        lemma_fundamental_div_mod(r as int, 2 * q as int);
        let k = r as int / (2 * q as int);
        assert(r == (2 * k) * q) by (nonlinear_arith)
            requires
                r == (2 * q) * k,
        ;
        lemma_mod_multiples_basic(2 * k, q as int);
    }
}

/// The distance grows with the number, by doubling.
proof fn lemma_quantum_grows(t: nat, u: nat, digits: nat, q: nat)
    requires
        q > 0,
        digits >= 2,
        t <= u,
    ensures
        quantum(t, digits, q) <= quantum(u, digits, q),
        quantum(t, digits, q) < quantum(u, digits, q) ==> 2 * quantum(t, digits, q) <= quantum(
            u,
            digits,
            q,
        ),
    decreases t - q,
{
    if t < digits * q {
        lemma_quantum(u, digits, q);
    } else {
        assert(digits * q >= 2 * q) by (nonlinear_arith)
            requires
                digits >= 2,
                q >= 0,
        ;
        lemma_quantum_grows(t, u, digits, 2 * q);
    }
}

/// The distance doubles with the number and the first distance.
proof fn lemma_quantum_doubles(t: nat, digits: nat, q: nat)
    requires
        q > 0,
        digits >= 2,
    ensures
        quantum(2 * t, digits, 2 * q) == 2 * quantum(t, digits, q),
    decreases t - q,
{
    assert(digits * (2 * q) == 2 * (digits * q)) by (nonlinear_arith);
    if t >= digits * q {
        assert(digits * q >= 2 * q) by (nonlinear_arith)
            requires
                digits >= 2,
                q >= 0,
        ;
        lemma_quantum_doubles(t, digits, 2 * q);
    }
}

// ---------------------------------------------------------------------------
// The nearest multiple
// ---------------------------------------------------------------------------

/// The nearest multiple keeps the order.
proof fn lemma_nearest_keeps_order(t: nat, u: nat, q: nat)
    requires
        q > 0,
        t <= u,
    ensures
        nearest(t, q) <= nearest(u, q),
{
    lemma_div_is_ordered(t as int, u as int, q as int);
    lemma_fundamental_div_mod(t as int, q as int);
    lemma_fundamental_div_mod(u as int, q as int);
}

/// The nearest multiple doubles with the distance.
proof fn lemma_nearest_doubles(t: nat, q: nat)
    requires
        q > 0,
    ensures
        nearest(2 * t, 2 * q) == nearest(t, q),
{
    let (n, r) = (t as int / q as int, t as int % q as int);
    lemma_fundamental_div_mod(t as int, q as int);
    lemma_mod_bound(t as int, q as int);
    assert(2 * t == n * (2 * q) + 2 * r) by (nonlinear_arith)
        requires
            t == q * n + r,
    ;
    lemma_fundamental_div_mod_converse(2 * t as int, 2 * q as int, n, 2 * r);
}

// ---------------------------------------------------------------------------
// Rounding
// ---------------------------------------------------------------------------

/// Rounding gives a whole number of units.
pub(crate) proof fn lemma_rounded_is_whole(f: Format, t: nat)
    requires
        is_format(f),
    ensures
        rounded(f, t) % f.unit == 0,
        rounded(f, t) / f.unit * f.unit == rounded(f, t),
{
    let q = quantum(t, f.digits, f.unit);
    let u = f.unit as int;
    lemma_quantum(t, f.digits, f.unit);
    lemma_fundamental_div_mod(q as int, u);
    let (n, k) = (nearest(t, q) as int, q as int / u);
    assert(n * q == (n * k) * u) by (nonlinear_arith)
        requires
            q == u * k,
    ;
    lemma_mod_multiples_basic(n * k, u);
    lemma_fundamental_div_mod(rounded(f, t) as int, u);
    let d = rounded(f, t) as int / u;
    assert(d * u == u * d) by (nonlinear_arith);
}

/// Rounding keeps the order.
pub(crate) proof fn lemma_rounding_keeps_order(f: Format, t: nat, u: nat)
    requires
        is_format(f),
        t <= u,
    ensures
        rounded(f, t) <= rounded(f, u),
{
    let (d, one) = (f.digits, f.unit);
    let (q, r) = (quantum(t, d, one), quantum(u, d, one));
    lemma_quantum(t, d, one);
    lemma_quantum(u, d, one);
    lemma_quantum_grows(t, u, d, one);
    if q == r {
        lemma_nearest_keeps_order(t, u, q);
        let (a, b) = (nearest(t, q), nearest(u, q));
        assert(a * q <= b * q) by (nonlinear_arith)
            requires
                a <= b,
                q >= 0,
        ;
    } else {
        // `t` is rounded to at most `digits` of its own distance, and `u` to at
        // least half as many of a distance that is twice as large.
        let (a, b) = (nearest(t, q), nearest(u, r));
        let half = d / 2;
        lemma_fundamental_div_mod(t as int, q as int);
        lemma_mod_bound(t as int, q as int);
        let n = t as int / q as int;
        assert(n < d) by (nonlinear_arith)
            requires
                q * n <= t,
                t < d * q,
                q > 0,
        ;
        assert(a * q <= d * q) by (nonlinear_arith)
            requires
                a <= d,
                q >= 0,
        ;
        assert(d * r == 2 * (half * r)) by (nonlinear_arith)
            requires
                d == 2 * half,
        ;
        lemma_div_is_ordered((half * r) as int, u as int, r as int);
        lemma_div_multiples_vanish(half as int, r as int);
        assert(r * half == half * r) by (nonlinear_arith);
        assert(half <= b);
        assert(half * r <= b * r) by (nonlinear_arith)
            requires
                half <= b,
                r >= 0,
        ;
        assert(d * q <= half * r) by (nonlinear_arith)
            requires
                d == 2 * half,
                2 * q <= r,
                half >= 0,
        ;
    }
}

/// A whole number of units that has no more than the digits of the format stays
/// as it is.
proof fn lemma_small_wholes_stay(f: Format, t: nat)
    requires
        is_format(f),
        t % f.unit == 0,
        t < f.digits * f.unit,
    ensures
        rounded(f, t) == t,
{
    lemma_fundamental_div_mod(t as int, f.unit as int);
    let n = t as int / f.unit as int;
    assert(n * f.unit == f.unit * n) by (nonlinear_arith);
}

/// Rounding doubles with the number, where nothing is lost to underflow.
proof fn lemma_rounding_doubles(f: Format, t: nat)
    requires
        is_format(f),
        is_above_underflow(f, t),
    ensures
        rounded(f, 2 * t) == 2 * rounded(f, t),
        is_above_underflow(f, 2 * t),
{
    let (d, one) = (f.digits, f.unit);
    if t % one == 0 {
        lemma_fundamental_div_mod(t as int, one as int);
        let n = t as int / one as int;
        assert(2 * t == (2 * n) * one) by (nonlinear_arith)
            requires
                t == one * n,
        ;
        lemma_mod_multiples_basic(2 * n, one as int);
    }
    if 2 * t >= d * one {
        let q = quantum(t, d, one);
        lemma_quantum(t, d, one);
        lemma_quantum_doubles(t, d, one);
        lemma_nearest_doubles(t, q);
        let n = nearest(t, q);
        assert(n * (2 * q) == 2 * (n * q)) by (nonlinear_arith);
    } else {
        lemma_small_wholes_stay(f, t);
        lemma_small_wholes_stay(f, 2 * t);
    }
}

/// Rounding grows with a power of two, where nothing is lost to underflow.
pub(crate) proof fn lemma_rounding_scales(f: Format, t: nat, j: nat)
    requires
        is_format(f),
        is_above_underflow(f, t),
    ensures
        rounded(f, pow2(j) * t) == pow2(j) * rounded(f, t),
        is_above_underflow(f, pow2(j) * t),
    decreases j,
{
    if j == 0 {
        lemma2_to64();
        assert(pow2(j) * t == t && pow2(j) * rounded(f, t) == rounded(f, t));
    } else {
        let i = (j - 1) as nat;
        lemma_rounding_scales(f, t, i);
        lemma_pow2_unfold(j);
        let p = pow2(i);
        let r = rounded(f, t);
        assert((2 * p) * t == 2 * (p * t)) by (nonlinear_arith);
        assert((2 * p) * r == 2 * (p * r)) by (nonlinear_arith);
        lemma_rounding_doubles(f, p * t);
    }
}

} // verus!
