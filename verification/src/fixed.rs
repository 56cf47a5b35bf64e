//! Fixed-point arithmetic.
//!
//! A quantity is held as a signed 64-bit count of millionths. Products and
//! quotients round toward zero, so a value and its negation always round
//! alike. The spec functions work on unbounded integers; the executable
//! helpers compute the same values in 128 bits.

use vstd::prelude::*;

verus! {

/// The raw count that stands for the quantity one.
pub const UNIT: i64 = 1_000_000;

/// Whether `v` can be held as a raw 64-bit count.
pub open spec fn fits(v: int) -> bool {
    i64::MIN <= v <= i64::MAX
}

/// The absolute value of `v`.
pub open spec fn magnitude(v: int) -> int {
    if v < 0 {
        -v
    } else {
        v
    }
}

/// The quotient of `a` by a nonzero `d`, rounded toward zero.
pub open spec fn trunc_div(a: int, d: int) -> int
    recommends
        d != 0,
{
    if d > 0 {
        if a >= 0 {
            a / d
        } else {
            -((-a) / d)
        }
    } else {
        if a >= 0 {
            -(a / (-d))
        } else {
            (-a) / (-d)
        }
    }
}

/// The fixed-point product of the raw counts `a` and `b`.
pub open spec fn times(a: int, b: int) -> int {
    trunc_div(a * b, UNIT as int)
}

/// The fixed-point quotient of the raw count `a` by the nonzero raw count `b`.
pub open spec fn over(a: int, b: int) -> int
    recommends
        b != 0,
{
    trunc_div(a * UNIT, b)
}

/// Rounding toward zero loses less than one divisor and never changes the sign.
pub proof fn lemma_trunc_div_bounds(a: int, d: int)
    requires
        d != 0,
    ensures
        magnitude(trunc_div(a, d)) == magnitude(a) / magnitude(d),
        magnitude(trunc_div(a, d)) * magnitude(d) <= magnitude(a),
        magnitude(a) < magnitude(trunc_div(a, d)) * magnitude(d) + magnitude(d),
        magnitude(trunc_div(a, d)) <= magnitude(a),
        (a >= 0) == (d > 0) ==> trunc_div(a, d) >= 0,
        (a >= 0) != (d > 0) ==> trunc_div(a, d) <= 0,
{
    let n = magnitude(a);
    let m = magnitude(d);
    vstd::arithmetic::div_mod::lemma_fundamental_div_mod(n, m);
    vstd::arithmetic::div_mod::lemma_mod_bound(n, m);
    vstd::arithmetic::div_mod::lemma_div_pos_is_pos(n, m);
    vstd::arithmetic::div_mod::lemma_div_nonincreasing(n, m);
    vstd::arithmetic::mul::lemma_mul_is_commutative(m, n / m);
}

/// The size of a product is the product of the sizes.
pub proof fn lemma_times_magnitude(a: int, b: int)
    ensures
        magnitude(times(a, b)) == times(magnitude(a), magnitude(b)),
        times(magnitude(a), magnitude(b)) >= 0,
{
    assert(magnitude(a * b) == magnitude(a) * magnitude(b)) by (nonlinear_arith);
    lemma_trunc_div_bounds(a * b, UNIT as int);
    lemma_trunc_div_bounds(magnitude(a) * magnitude(b), UNIT as int);
}

/// A product is no larger than the plain product of the sizes of its factors.
pub proof fn lemma_times_bound(a: int, b: int)
    ensures
        magnitude(times(a, b)) <= magnitude(a) * magnitude(b),
{
    assert(magnitude(a * b) == magnitude(a) * magnitude(b)) by (nonlinear_arith);
    lemma_trunc_div_bounds(a * b, UNIT as int);
    let q = magnitude(times(a, b));
    assert(q <= q * 1_000_000) by {
        assert(q >= 0);
    }
}

/// Multiplying by a factor between minus one and one never enlarges a value.
pub proof fn lemma_times_shrinks(a: int, b: int)
    requires
        magnitude(b) <= UNIT,
    ensures
        magnitude(times(a, b)) <= magnitude(a),
{
    let q = magnitude(times(a, b));
    let n = magnitude(a);
    let m = magnitude(b);
    assert(magnitude(a * b) == n * m) by (nonlinear_arith)
        requires
            n == magnitude(a),
            m == magnitude(b),
    ;
    lemma_trunc_div_bounds(a * b, UNIT as int);
    assert(q * 1_000_000 <= n * m);
    assert(n * m <= n * 1_000_000) by (nonlinear_arith)
        requires
            0 <= n,
            0 <= m <= 1_000_000,
    ;
}

/// Whether a 128-bit value can be held as a raw 64-bit count.
pub(crate) fn holds(v: i128) -> (ok: bool)
    ensures
        ok == fits(v as int),
{
    i64::MIN as i128 <= v && v <= i64::MAX as i128
}

/// The fixed-point product of two raw counts, in 128 bits.
pub(crate) fn wide_times(a: i128, b: i128) -> (p: i128)
    requires
        magnitude(a as int) <= 0x8000_0000_0000_0000,
        magnitude(b as int) <= 0x8000_0000_0000_0000,
    ensures
        p == times(a as int, b as int),
        magnitude(p as int) <= 0x4000_0000_0000_0000_0000_0000_0000_0000,
{
    assert(magnitude(a * b) <= 0x4000_0000_0000_0000_0000_0000_0000_0000) by (nonlinear_arith)
        requires
            magnitude(a as int) <= 0x8000_0000_0000_0000,
            magnitude(b as int) <= 0x8000_0000_0000_0000,
    ;
    (a * b) / (UNIT as i128)
}

/// The fixed-point quotient of a value of at most 66 bits by a nonzero raw
/// count, in 128 bits.
pub(crate) fn wide_over(a: i128, b: i64) -> (q: i128)
    requires
        magnitude(a as int) <= 0x2_0000_0000_0000_0000,
        b != 0,
    ensures
        q == over(a as int, b as int),
{
    let whole: i128 = a * (UNIT as i128);
    if b > 0 {
        whole / (b as i128)
    } else {
        let against: i128 = -(b as i128);
        proof {
            assert(whole == a * 1_000_000);
            lemma_trunc_div_bounds(whole as int, against as int);
        }
        -(whole / against)
    }
}

} // verus!
