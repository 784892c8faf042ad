//! Scaled-integer arithmetic: the number model of the whole library.
//!
//! A real number x is carried as the integer round-toward-zero of
//! x * SCALE.  Multiplication and division rescale their results with
//! truncating (round-toward-zero) division, and the square root is the
//! integer square root of the rescaled radicand, so every operation has
//! an exact mathematical description.

use vstd::prelude::*;
use vstd::arithmetic::div_mod::lemma_div_of0;
use vstd::arithmetic::div_mod::lemma_fundamental_div_mod;
use vstd::arithmetic::div_mod::lemma_div_is_ordered;
use vstd::arithmetic::div_mod::lemma_div_nonincreasing;
use vstd::arithmetic::div_mod::lemma_div_pos_is_pos;
use vstd::arithmetic::div_mod::lemma_div_is_ordered_by_denominator;
use vstd::arithmetic::div_mod::lemma_div_multiples_vanish;
use vstd::arithmetic::div_mod::lemma_hoist_over_denominator;

verus! {

/// Number of integer steps per real unit.
pub const SCALE: i128 = 1_000_000;

/// The scaled value of one half.
pub const HALF: i128 = 500_000;

/// Largest magnitude accepted by `fx_mul` (the product of two such
/// operands still fits an `i128` before rescaling).
pub const MUL_LIM: i128 = 50_000_000_000_000_000;

/// Largest numerator magnitude accepted by `fx_div`.
pub const DIV_LIM: i128 = 100_000_000_000_000_000_000;

/// Largest divisor magnitude accepted by `fx_div`.
pub const DEN_LIM: i128 = 1_000_000_000_000_000_000_000_000_000_000;

/// Largest component magnitude accepted by vector sums and differences.
pub const ADD_LIM: i128 = 1_000_000_000_000_000_000_000_000_000_000;

/// Largest radicand accepted by `fx_sqrt`.
pub const SQRT_LIM: i128 = 10_000_000_000_000_000_000_000_000_000_000;

/// Absolute value of a mathematical integer.
pub open spec fn iabs(a: int) -> int {
    if a >= 0 {
        a
    } else {
        -a
    }
}

/// Division of `a` by `b` rounded toward zero, for a positive divisor.
pub open spec fn tdiv(a: int, b: int) -> int {
    if a >= 0 {
        a / b
    } else {
        -((-a) / b)
    }
}

/// The scaled value of the product of two scaled values.
pub open spec fn s_mul(a: int, b: int) -> int {
    tdiv(a * b, SCALE as int)
}

/// The scaled value of the quotient of two scaled values
/// (round toward zero, like the underlying machine division).
pub open spec fn s_div(a: int, b: int) -> int {
    if b >= 0 {
        tdiv(a * SCALE, b)
    } else {
        -tdiv(a * SCALE, -b)
    }
}

/// Floor of the square root of a nonnegative integer, defined by
/// counting up; `lemma_isqrt_bounds` gives its characteristic bounds.
pub open spec fn isqrt_spec(n: int) -> int
    decreases n,
{
    if n <= 0 {
        0
    } else {
        let p = isqrt_spec(n - 1);
        if (p + 1) * (p + 1) <= n {
            p + 1
        } else {
            p
        }
    }
}

/// The scaled value of the square root of a nonnegative scaled value.
pub open spec fn s_sqrt(x: int) -> int {
    isqrt_spec(x * SCALE)
}

pub proof fn lemma_isqrt_bounds(n: int)
    requires
        n >= 0,
    ensures
        0 <= isqrt_spec(n),
        isqrt_spec(n) * isqrt_spec(n) <= n,
        n < (isqrt_spec(n) + 1) * (isqrt_spec(n) + 1),
    decreases n,
{
    if n == 0 {
    } else {
        lemma_isqrt_bounds(n - 1);
        let p = isqrt_spec(n - 1);
        if (p + 1) * (p + 1) <= n {
            assert(n <= (p + 1) * (p + 1)) by {
                assert(n - 1 < (p + 1) * (p + 1));
            }
            assert((p + 2) * (p + 2) > (p + 1) * (p + 1)) by (nonlinear_arith)
                requires
                    p >= 0,
            ;
        } else {
        }
    }
}

pub proof fn lemma_isqrt_unique(n: int, r: int)
    requires
        n >= 0,
        r >= 0,
        r * r <= n,
        n < (r + 1) * (r + 1),
    ensures
        r == isqrt_spec(n),
{
    lemma_isqrt_bounds(n);
    let s = isqrt_spec(n);
    if r < s {
        assert((r + 1) * (r + 1) <= s * s) by (nonlinear_arith)
            requires
                0 <= r + 1,
                r + 1 <= s,
            ;
    }
    if s < r {
        assert((s + 1) * (s + 1) <= r * r) by (nonlinear_arith)
            requires
                0 <= s + 1,
                s + 1 <= r,
            ;
    }
}

/// A square below the radicand bounds the root from below.
pub proof fn lemma_isqrt_ge(n: int, k: int)
    requires
        0 <= k,
        k * k <= n,
    ensures
        isqrt_spec(n) >= k,
{
    lemma_isqrt_bounds(n);
    let r = isqrt_spec(n);
    if r < k {
        assert((r + 1) * (r + 1) <= k * k) by (nonlinear_arith)
            requires
                0 <= r + 1,
                r + 1 <= k,
            ;
    }
}

/// A square above the radicand bounds the root from above.
pub proof fn lemma_isqrt_lt(n: int, k: int)
    requires
        0 <= n,
        0 <= k,
        n < k * k,
    ensures
        isqrt_spec(n) < k,
{
    lemma_isqrt_bounds(n);
    let r = isqrt_spec(n);
    if k <= r {
        assert(k * k <= r * r) by (nonlinear_arith)
            requires
                0 <= k,
                k <= r,
            ;
    }
}

/// Truncating division keeps the sign of the dividend and can only
/// shrink its magnitude.
pub proof fn lemma_tdiv_bound(a: int, b: int, m: int)
    requires
        b >= 1,
        iabs(a) <= m,
    ensures
        iabs(tdiv(a, b)) <= m / b,
        a >= 0 ==> tdiv(a, b) >= 0,
        a <= 0 ==> tdiv(a, b) <= 0,
{
    if a >= 0 {
        lemma_div_pos_is_pos(a, b);
        lemma_div_is_ordered(a, m, b);
    } else {
        lemma_div_pos_is_pos(-a, b);
        lemma_div_is_ordered(-a, m, b);
    }
    lemma_div_pos_is_pos(m, b);
}

/// Dividing an exact multiple of the scale by the scale recovers the
/// multiplier: scaling by a whole number is exact.
pub proof fn lemma_tdiv_multiple(c: int)
    ensures
        tdiv(c * SCALE, SCALE as int) == c,
{
    if c >= 0 {
        lemma_div_multiples_vanish(c, SCALE as int);
    } else {
        lemma_div_multiples_vanish(-c, SCALE as int);
        assert(-(c * SCALE) == (-c) * SCALE) by (nonlinear_arith);
    }
}

/// Magnitude bound for a rescaled product.
pub proof fn lemma_s_mul_bound(a: int, b: int, m: int, n: int)
    requires
        iabs(a) <= m,
        iabs(b) <= n,
        0 <= m,
        0 <= n,
    ensures
        iabs(s_mul(a, b)) <= (m * n) / (SCALE as int),
    {
    assert(iabs(a * b) <= m * n) by (nonlinear_arith)
        requires
            iabs(a) <= m,
            iabs(b) <= n,
            0 <= m,
            0 <= n,
    ;
    lemma_tdiv_bound(a * b, SCALE as int, m * n);
}

/// A square never rescales below zero.
pub proof fn lemma_s_mul_square_nonneg(x: int)
    ensures
        s_mul(x, x) >= 0,
{
    assert(x * x >= 0) by (nonlinear_arith);
    lemma_tdiv_bound(x * x, SCALE as int, x * x);
}

/// With a divisor of at least one unit, a rescaled quotient cannot
/// exceed the numerator in magnitude.
pub proof fn lemma_s_div_bound_unit(a: int, b: int, m: int)
    requires
        b >= SCALE,
        iabs(a) <= m,
        0 <= m,
    ensures
        iabs(s_div(a, b)) <= m,
{
    assert(iabs(a * SCALE) == iabs(a) * SCALE) by (nonlinear_arith);
    lemma_tdiv_bound(a * SCALE, b, m * SCALE);
    lemma_div_is_ordered_by_denominator(m * SCALE, SCALE as int, b);
    lemma_div_multiples_vanish(m, SCALE as int);
}

/// Zero divided by anything positive is zero.
pub proof fn lemma_tdiv_zero(b: int)
    requires
        b >= 1,
    ensures
        tdiv(0, b) == 0,
{
    lemma_div_of0(b);
}

/// Dividing a scaled nonnegative value by a scaled whole number `w`
/// yields a quotient that, multiplied back by `w`, stays below the
/// original value: the per-step size of an even split.
pub proof fn lemma_scaled_div_bound(num: int, w: int)
    requires
        0 <= num,
        1 <= w,
    ensures
        0 <= tdiv(num * SCALE, w * SCALE),
        w * tdiv(num * SCALE, w * SCALE) <= num,
        tdiv(num * SCALE, w * SCALE) <= num,
{
    assert(num * SCALE >= 0) by (nonlinear_arith)
        requires
            num >= 0,
    ;
    assert(w * SCALE >= SCALE as int) by (nonlinear_arith)
        requires
            w >= 1,
    ;
    let q = (num * SCALE) / (w * SCALE);
    lemma_div_pos_is_pos(num * SCALE, w * SCALE);
    lemma_fundamental_div_mod(num * SCALE, w * SCALE);
    assert((w * SCALE) * q == (w * q) * SCALE) by (nonlinear_arith);
    assert((w * q) * SCALE <= num * SCALE);
    assert(q <= w * q) by (nonlinear_arith)
        requires
            1 <= w,
            0 <= q,
    ;
}

/// Division of `a` by `b`, both nonzero-safe, rounded toward zero.
fn tdiv_exec(a: i128, b: i128) -> (r: i128)
    requires
        1 <= b,
        i128::MIN < a,
    ensures
        r as int == tdiv(a as int, b as int),
{
    if a >= 0 {
        proof {
            lemma_div_pos_is_pos(a as int, b as int);
            lemma_div_nonincreasing(a as int, b as int);
        }
        ((a as u128) / (b as u128)) as i128
    } else {
        proof {
            lemma_div_pos_is_pos(-(a as int), b as int);
            lemma_div_nonincreasing(-(a as int), b as int);
        }
        let n: u128 = ((-a) as u128) / (b as u128);
        -(n as i128)
    }
}

/// Product of two scaled values.
pub fn fx_mul(a: i128, b: i128) -> (r: i128)
    requires
        -MUL_LIM <= a <= MUL_LIM,
        -MUL_LIM <= b <= MUL_LIM,
    ensures
        r as int == s_mul(a as int, b as int),
{
    assert(-(MUL_LIM as int) * (MUL_LIM as int) <= a * b <= (MUL_LIM as int) * (MUL_LIM as int))
        by (nonlinear_arith)
        requires
            -(MUL_LIM as int) <= a <= MUL_LIM as int,
            -(MUL_LIM as int) <= b <= MUL_LIM as int,
    ;
    let p: i128 = a * b;
    tdiv_exec(p, SCALE)
}

/// Quotient of two scaled values.
pub fn fx_div(a: i128, b: i128) -> (r: i128)
    requires
        -DIV_LIM <= a <= DIV_LIM,
        b != 0,
        -DEN_LIM <= b <= DEN_LIM,
    ensures
        r as int == s_div(a as int, b as int),
{
    let p: i128 = a * SCALE;
    if b >= 1 {
        tdiv_exec(p, b)
    } else {
        let q = tdiv_exec(p, -b);
        -q
    }
}

/// Floor of the square root of `n`, by binary search on the root.
fn isqrt_exec(n: u128) -> (r: u128)
    requires
        n as int <= SQRT_LIM as int * SCALE as int,
    ensures
        r as int == isqrt_spec(n as int),
        r < 10_000_000_000_000_000_000u128,
{
    let mut lo: u128 = 0;
    let mut hi: u128 = 10_000_000_000_000_000_000;
    assert((n as int) < (hi as int) * (hi as int)) by (nonlinear_arith)
        requires
            n as int <= SQRT_LIM as int * SCALE as int,
            hi == 10_000_000_000_000_000_000u128,
    ;
    while lo + 1 < hi
        invariant
            lo < hi,
            hi <= 10_000_000_000_000_000_000u128,
            (lo as int) * (lo as int) <= n as int,
            (n as int) < (hi as int) * (hi as int),
        decreases hi - lo,
    {
        let mid: u128 = lo + (hi - lo) / 2;
        assert((mid as int) * (mid as int) <= 100_000_000_000_000_000_000_000_000_000_000_000_000int)
            by (nonlinear_arith)
            requires
                0 <= mid as int,
                mid as int <= 10_000_000_000_000_000_000int,
        ;
        if mid * mid <= n {
            lo = mid;
        } else {
            hi = mid;
        }
    }
    proof {
        lemma_isqrt_unique(n as int, lo as int);
    }
    lo
}

/// Square root of a nonnegative scaled value.
pub fn fx_sqrt(x: i128) -> (r: i128)
    requires
        0 <= x <= SQRT_LIM,
    ensures
        r as int == s_sqrt(x as int),
        0 <= r < 10_000_000_000_000_000_000i128,
{
    assert((x as int) * (SCALE as int) <= SQRT_LIM as int * SCALE as int) by (nonlinear_arith)
        requires
            0 <= x as int <= SQRT_LIM as int,
    ;
    let n: u128 = (x as u128) * 1_000_000u128;
    let r = isqrt_exec(n);
    proof {
        lemma_isqrt_bounds(n as int);
    }
    r as i128
}

} // verus!
