//! Three-component vectors over scaled-integer arithmetic.
//!
//! A `Vec3` serves both as a spatial point and as a color triple.  Its
//! mathematical model is `V3`, a triple of unbounded integers; every
//! operation's contract states the exact resulting triple.

use vstd::prelude::*;
use vstd::arithmetic::div_mod::lemma_fundamental_div_mod;
use vstd::arithmetic::div_mod::lemma_div_is_ordered_by_denominator;
use vstd::arithmetic::div_mod::lemma_hoist_over_denominator;
use crate::fixed::{
    SCALE, MUL_LIM, DIV_LIM, DEN_LIM, ADD_LIM, iabs, tdiv, s_mul, s_div, s_sqrt, isqrt_spec,
    fx_mul, fx_div, fx_sqrt, lemma_isqrt_bounds, lemma_isqrt_ge, lemma_isqrt_lt, lemma_tdiv_bound,
    lemma_s_mul_bound, lemma_s_mul_square_nonneg,
};

verus! {

/// Mathematical model of a vector: an unbounded integer triple of
/// scaled components.
pub ghost struct V3 {
    pub x: int,
    pub y: int,
    pub z: int,
}

/// A vector of three scaled-integer components.
#[derive(Clone, Copy, PartialEq, Eq, Structural, Debug)]
pub struct Vec3 {
    pub x: i128,
    pub y: i128,
    pub z: i128,
}

impl View for Vec3 {
    type V = V3;

    open spec fn view(&self) -> V3 {
        V3 { x: self.x as int, y: self.y as int, z: self.z as int }
    }
}

/// All three components have magnitude at most `m`.
pub open spec fn in_range(v: V3, m: int) -> bool {
    iabs(v.x) <= m && iabs(v.y) <= m && iabs(v.z) <= m
}

/// Component-wise sum.
pub open spec fn spec_add(a: V3, b: V3) -> V3 {
    V3 { x: a.x + b.x, y: a.y + b.y, z: a.z + b.z }
}

/// Component-wise difference.
pub open spec fn spec_sub(a: V3, b: V3) -> V3 {
    V3 { x: a.x - b.x, y: a.y - b.y, z: a.z - b.z }
}

/// Component-wise product with a scalar.
pub open spec fn spec_scale(v: V3, k: int) -> V3 {
    V3 { x: s_mul(v.x, k), y: s_mul(v.y, k), z: s_mul(v.z, k) }
}

/// Component-wise quotient by a scalar.
pub open spec fn spec_divide(v: V3, k: int) -> V3 {
    V3 { x: s_div(v.x, k), y: s_div(v.y, k), z: s_div(v.z, k) }
}

/// Sum of the component-wise products.
pub open spec fn spec_dot(a: V3, b: V3) -> int {
    s_mul(a.x, b.x) + s_mul(a.y, b.y) + s_mul(a.z, b.z)
}

/// Squared length: the dot product of a vector with itself.
pub open spec fn spec_length_squared(v: V3) -> int {
    spec_dot(v, v)
}

/// Length: square root of the squared length.
pub open spec fn spec_length(v: V3) -> int {
    s_sqrt(spec_length_squared(v))
}

/// The vector divided by its length.
pub open spec fn spec_normalized(v: V3) -> V3 {
    spec_divide(v, spec_length(v))
}

/// The dot product does not depend on the order of its arguments.
pub proof fn lemma_dot_symmetric(a: V3, b: V3)
    ensures
        spec_dot(a, b) == spec_dot(b, a),
{
    assert(a.x * b.x == b.x * a.x) by (nonlinear_arith);
    assert(a.y * b.y == b.y * a.y) by (nonlinear_arith);
    assert(a.z * b.z == b.z * a.z) by (nonlinear_arith);
}

/// Magnitude bound for a dot product of bounded vectors.
pub proof fn lemma_dot_bound(a: V3, b: V3, m: int, n: int)
    requires
        in_range(a, m),
        in_range(b, n),
        0 <= m,
        0 <= n,
    ensures
        iabs(spec_dot(a, b)) <= 3 * ((m * n) / (SCALE as int)),
{
    lemma_s_mul_bound(a.x, b.x, m, n);
    lemma_s_mul_bound(a.y, b.y, m, n);
    lemma_s_mul_bound(a.z, b.z, m, n);
}

/// A squared length is never negative, and each squared component
/// contributes at most the whole.
pub proof fn lemma_length_squared_nonneg(v: V3)
    ensures
        spec_length_squared(v) >= 0,
        tdiv(v.x * v.x, SCALE as int) <= spec_length_squared(v),
        tdiv(v.y * v.y, SCALE as int) <= spec_length_squared(v),
        tdiv(v.z * v.z, SCALE as int) <= spec_length_squared(v),
{
    lemma_s_mul_square_nonneg(v.x);
    lemma_s_mul_square_nonneg(v.y);
    lemma_s_mul_square_nonneg(v.z);
}

/// Core rounding-error bound: a component divided by the vector's
/// length cannot exceed three units, because the length dominates
/// half of each component's magnitude.
proof fn lemma_unit_comp_bound(x: int, ls: int)
    requires
        tdiv(x * x, SCALE as int) <= ls,
        1 <= ls,
    ensures
        isqrt_spec(ls * SCALE) >= 1000,
        iabs(tdiv(x * SCALE, isqrt_spec(ls * SCALE))) <= 3 * SCALE,
{
    let n = ls * SCALE;
    lemma_isqrt_bounds(n);
    let len = isqrt_spec(n);
    lemma_isqrt_ge(n, 1000);
    assert(x * x >= 0) by (nonlinear_arith);
    lemma_fundamental_div_mod(x * x, SCALE as int);
    assert(x * x < SCALE as int * (ls + 1)) by {
        assert(x * x == SCALE as int * ((x * x) / (SCALE as int)) + (x * x) % (SCALE as int));
        assert((x * x) / (SCALE as int) <= ls);
        assert(SCALE as int * ((x * x) / (SCALE as int)) <= SCALE as int * ls) by (nonlinear_arith)
            requires
                (x * x) / (SCALE as int) <= ls,
        ;
    }
    // |x| <= 2*len + 1: otherwise x*x would overshoot the radicand.
    assert(iabs(x) <= 2 * len + 1) by {
        if iabs(x) >= 2 * (len + 1) {
            assert(x * x >= (2 * (len + 1)) * (2 * (len + 1))) by (nonlinear_arith)
                requires
                    iabs(x) >= 2 * (len + 1),
                    len + 1 >= 0,
            ;
            assert((2 * (len + 1)) * (2 * (len + 1)) == 4 * ((len + 1) * (len + 1)))
                by (nonlinear_arith);
            assert((len + 1) * (len + 1) >= 1001 * 1001) by (nonlinear_arith)
                requires
                    len + 1 >= 1001,
            ;
            assert(x * x < (len + 1) * (len + 1) + SCALE as int);
        }
    }
    assert(iabs(x * SCALE) <= (2 * len + 1) * SCALE) by (nonlinear_arith)
        requires
            iabs(x) <= 2 * len + 1,
    ;
    lemma_tdiv_bound(x * SCALE, len, (2 * len + 1) * SCALE);
    assert((2 * len + 1) * SCALE == SCALE as int + (2 * SCALE as int) * len) by (nonlinear_arith);
    lemma_hoist_over_denominator(SCALE as int, 2 * SCALE as int, len as nat);
    lemma_div_is_ordered_by_denominator(SCALE as int, 1000, len);
}

/// Squared bracketing of a component divided by the length: the
/// quotient times the length underestimates the scaled component, and
/// one more step overshoots it.
proof fn lemma_comp_sq_bounds(x: int, len: int)
    requires
        1 <= len,
    ensures
        ({
            let n = tdiv(x * SCALE, len);
            n * n * (len * len) <= (x * x) * ((SCALE as int) * SCALE)
        }),
        ({
            let n = tdiv(x * SCALE, len);
            (x * x) * ((SCALE as int) * SCALE) < (iabs(n) + 1) * (iabs(n) + 1) * (len * len)
        }),
{
    let n = tdiv(x * SCALE, len);
    let u = iabs(x) * SCALE;
    assert(u == iabs(x * SCALE));
    assert(u >= 0);
    lemma_fundamental_div_mod(u, len);
    vstd::arithmetic::div_mod::lemma_mod_division_less_than_divisor(u, len);
    vstd::arithmetic::div_mod::lemma_div_pos_is_pos(u, len);
    assert(iabs(n) == u / len);
    let q = u / len;
    assert(len * (q + 1) == len * q + len) by (nonlinear_arith);
    assert(len * q <= u < len * (q + 1)) by {
        assert(u == len * q + u % len);
    }
    assert((len * q) * (len * q) <= u * u) by (nonlinear_arith)
        requires
            0 <= len * q <= u,
    ;
    assert(u * u < (len * (q + 1)) * (len * (q + 1))) by (nonlinear_arith)
        requires
            0 <= u < len * (q + 1),
    ;
    assert((len * q) * (len * q) == (q * q) * (len * len)) by (nonlinear_arith);
    assert((len * (q + 1)) * (len * (q + 1)) == ((q + 1) * (q + 1)) * (len * len))
        by (nonlinear_arith);
    assert(u * u == (x * x) * ((SCALE as int) * SCALE)) by (nonlinear_arith)
        requires
            u == iabs(x) * SCALE,
    ;
    assert(q == n || q == -n);
    assert(q * q == n * n) by (nonlinear_arith)
        requires
            q == n || q == -n,
    ;
}

/// Normalizing keeps the length within a hair of one: for any vector
/// of at least unit length, the length of the normalized vector is
/// one up to sixteen millionths.  Shorter vectors lose too much to
/// rounding for this to hold.
pub proof fn lemma_normalized_length_near_one(v: V3)
    requires
        spec_length_squared(v) >= SCALE as int,
    ensures
        iabs(spec_length(spec_normalized(v)) - SCALE as int) <= 16,
{
    let s = SCALE as int;
    let ls = spec_length_squared(v);
    lemma_length_squared_nonneg(v);
    let qx = tdiv(v.x * v.x, s);
    let qy = tdiv(v.y * v.y, s);
    let qz = tdiv(v.z * v.z, s);
    assert(v.x * v.x >= 0) by (nonlinear_arith);
    assert(v.y * v.y >= 0) by (nonlinear_arith);
    assert(v.z * v.z >= 0) by (nonlinear_arith);
    assert(ls == qx + qy + qz);
    let len = isqrt_spec(ls * s);
    lemma_isqrt_bounds(ls * s);
    lemma_isqrt_ge(ls * s, s);
    assert(len >= s);
    let n = spec_normalized(v);
    assert(n.x == tdiv(v.x * s, len));
    lemma_comp_sq_bounds(v.x, len);
    lemma_comp_sq_bounds(v.y, len);
    lemma_comp_sq_bounds(v.z, len);
    lemma_unit_comp_bound(v.x, ls);
    lemma_unit_comp_bound(v.y, ls);
    lemma_unit_comp_bound(v.z, ls);
    let sumsq = n.x * n.x + n.y * n.y + n.z * n.z;
    // The squared components of v, bracketed by their rescalings.
    lemma_fundamental_div_mod(v.x * v.x, s);
    lemma_fundamental_div_mod(v.y * v.y, s);
    lemma_fundamental_div_mod(v.z * v.z, s);
    vstd::arithmetic::div_mod::lemma_mod_division_less_than_divisor(v.x * v.x, s);
    vstd::arithmetic::div_mod::lemma_mod_division_less_than_divisor(v.y * v.y, s);
    vstd::arithmetic::div_mod::lemma_mod_division_less_than_divisor(v.z * v.z, s);
    let sumx = v.x * v.x + v.y * v.y + v.z * v.z;
    assert(s * ls <= sumx < s * (ls + 3)) by {
        assert(v.x * v.x == s * qx + (v.x * v.x) % s);
        assert(v.y * v.y == s * qy + (v.y * v.y) % s);
        assert(v.z * v.z == s * qz + (v.z * v.z) % s);
    }
    // The rescaled squared length of n, bracketed the same way.
    let mx = tdiv(n.x * n.x, s);
    let my = tdiv(n.y * n.y, s);
    let mz = tdiv(n.z * n.z, s);
    assert(n.x * n.x >= 0) by (nonlinear_arith);
    assert(n.y * n.y >= 0) by (nonlinear_arith);
    assert(n.z * n.z >= 0) by (nonlinear_arith);
    lemma_fundamental_div_mod(n.x * n.x, s);
    lemma_fundamental_div_mod(n.y * n.y, s);
    lemma_fundamental_div_mod(n.z * n.z, s);
    vstd::arithmetic::div_mod::lemma_mod_division_less_than_divisor(n.x * n.x, s);
    vstd::arithmetic::div_mod::lemma_mod_division_less_than_divisor(n.y * n.y, s);
    vstd::arithmetic::div_mod::lemma_mod_division_less_than_divisor(n.z * n.z, s);
    let lsn = spec_length_squared(n);
    assert(lsn == mx + my + mz);
    assert(sumsq - 3 * s < s * lsn <= sumsq) by {
        assert(n.x * n.x == s * mx + (n.x * n.x) % s);
        assert(n.y * n.y == s * my + (n.y * n.y) % s);
        assert(n.z * n.z == s * mz + (n.z * n.z) % s);
    }
    // Upper bound: the squared length cannot overshoot one by much.
    assert(sumsq * (len * len) <= sumx * (s * s)) by (nonlinear_arith)
        requires
            n.x * n.x * (len * len) <= (v.x * v.x) * (s * s),
            n.y * n.y * (len * len) <= (v.y * v.y) * (s * s),
            n.z * n.z * (len * len) <= (v.z * v.z) * (s * s),
            sumsq == n.x * n.x + n.y * n.y + n.z * n.z,
            sumx == v.x * v.x + v.y * v.y + v.z * v.z,
    ;
    assert(sumx * (s * s) < (s * (ls + 3)) * (s * s)) by (nonlinear_arith)
        requires
            sumx < s * (ls + 3),
            s == SCALE as int,
    ;
    assert((s * (ls + 3)) * (s * s) == (ls * s) * (s * s) + 3 * (s * s * s)) by (nonlinear_arith);
    assert((ls * s) * (s * s) < ((len + 1) * (len + 1)) * (s * s)) by (nonlinear_arith)
        requires
            ls * s < (len + 1) * (len + 1),
            s == SCALE as int,
    ;
    assert(lsn * s <= sumsq);
    assert((lsn * s) * (len * len) <= sumsq * (len * len)) by (nonlinear_arith)
        requires
            lsn * s <= sumsq,
            0 <= len * len,
    ;
    assert((lsn * s) * (len * len) < ((len + 1) * (len + 1)) * (s * s) + 3 * (s * s * s));
    assert(lsn * s < (s + 4) * (s + 4)) by (nonlinear_arith)
        requires
            (lsn * s) * (len * len) < ((len + 1) * (len + 1)) * (s * s) + 3 * (s * s * s),
            s <= len,
            s == SCALE as int,
            0 <= lsn,
    ;
    lemma_isqrt_lt(lsn * s, s + 4);
    // Lower bound: the squared length cannot fall short of one by much.
    assert(iabs(n.x) == n.x || iabs(n.x) == -n.x);
    assert(iabs(n.y) == n.y || iabs(n.y) == -n.y);
    assert(iabs(n.z) == n.z || iabs(n.z) == -n.z);
    assert(iabs(n.x) * iabs(n.x) == n.x * n.x) by (nonlinear_arith)
        requires
            iabs(n.x) == n.x || iabs(n.x) == -n.x,
    ;
    assert(iabs(n.y) * iabs(n.y) == n.y * n.y) by (nonlinear_arith)
        requires
            iabs(n.y) == n.y || iabs(n.y) == -n.y,
    ;
    assert(iabs(n.z) * iabs(n.z) == n.z * n.z) by (nonlinear_arith)
        requires
            iabs(n.z) == n.z || iabs(n.z) == -n.z,
    ;
    assert(sumx * (s * s)
        < (sumsq + 2 * (iabs(n.x) + iabs(n.y) + iabs(n.z)) + 3) * (len * len)) by (nonlinear_arith)
        requires
            (v.x * v.x) * (s * s) < (iabs(n.x) + 1) * (iabs(n.x) + 1) * (len * len),
            (v.y * v.y) * (s * s) < (iabs(n.y) + 1) * (iabs(n.y) + 1) * (len * len),
            (v.z * v.z) * (s * s) < (iabs(n.z) + 1) * (iabs(n.z) + 1) * (len * len),
            iabs(n.x) * iabs(n.x) == n.x * n.x,
            iabs(n.y) * iabs(n.y) == n.y * n.y,
            iabs(n.z) * iabs(n.z) == n.z * n.z,
            sumsq == n.x * n.x + n.y * n.y + n.z * n.z,
            sumx == v.x * v.x + v.y * v.y + v.z * v.z,
            0 <= len * len,
    ;
    assert(sumx * (s * s) < (sumsq + 18 * s + 3) * (len * len)) by (nonlinear_arith)
        requires
            sumx * (s * s) < (sumsq + 2 * (iabs(n.x) + iabs(n.y) + iabs(n.z)) + 3) * (len * len),
            iabs(n.x) <= 3 * s,
            iabs(n.y) <= 3 * s,
            iabs(n.z) <= 3 * s,
            0 <= len * len,
    ;
    assert((len * len) * (s * s) <= sumx * (s * s)) by (nonlinear_arith)
        requires
            len * len <= ls * s,
            s * ls <= sumx,
            s == SCALE as int,
    ;
    assert(s * s < sumsq + 18 * s + 3) by (nonlinear_arith)
        requires
            (len * len) * (s * s) < (sumsq + 18 * s + 3) * (len * len),
            1 <= len,
    ;
    assert(s * lsn > s * s - 21 * s - 3);
    assert(lsn >= s - 21) by (nonlinear_arith)
        requires
            s * lsn > s * s - 21 * s - 3,
            s == SCALE as int,
    ;
    assert(lsn * s >= (s - 21) * s) by (nonlinear_arith)
        requires
            lsn >= s - 21,
            s == SCALE as int,
    ;
    assert((s - 11) * (s - 11) <= (s - 21) * s) by (nonlinear_arith)
        requires
            s == SCALE as int,
    ;
    lemma_isqrt_ge(lsn * s, s - 11);
    assert(spec_length(n) == isqrt_spec(lsn * s));
}

impl Vec3 {
    /// Builds the vector with the given scaled components.
    pub fn new(x: i128, y: i128, z: i128) -> (r: Vec3)
        ensures
            r@ == (V3 { x: x as int, y: y as int, z: z as int }),
    {
        Vec3 { x, y, z }
    }

    /// Component-wise sum.
    pub fn add(self, other: Vec3) -> (r: Vec3)
        requires
            in_range(self@, ADD_LIM as int),
            in_range(other@, ADD_LIM as int),
        ensures
            r@ == spec_add(self@, other@),
    {
        Vec3 { x: self.x + other.x, y: self.y + other.y, z: self.z + other.z }
    }

    /// Component-wise difference.
    pub fn subtract(self, other: Vec3) -> (r: Vec3)
        requires
            in_range(self@, ADD_LIM as int),
            in_range(other@, ADD_LIM as int),
        ensures
            r@ == spec_sub(self@, other@),
    {
        Vec3 { x: self.x - other.x, y: self.y - other.y, z: self.z - other.z }
    }

    /// Component-wise product with the scalar `k`.
    pub fn scale(self, k: i128) -> (r: Vec3)
        requires
            in_range(self@, MUL_LIM as int),
            -MUL_LIM <= k <= MUL_LIM,
        ensures
            r@ == spec_scale(self@, k as int),
    {
        Vec3 { x: fx_mul(self.x, k), y: fx_mul(self.y, k), z: fx_mul(self.z, k) }
    }

    /// Component-wise quotient by the scalar `k`.
    pub fn divide(self, k: i128) -> (r: Vec3)
        requires
            in_range(self@, DIV_LIM as int),
            k != 0,
            -DEN_LIM <= k <= DEN_LIM,
        ensures
            r@ == spec_divide(self@, k as int),
    {
        Vec3 { x: fx_div(self.x, k), y: fx_div(self.y, k), z: fx_div(self.z, k) }
    }

    /// Sum of the component-wise products.
    pub fn dot(self, other: Vec3) -> (r: i128)
        requires
            in_range(self@, MUL_LIM as int),
            in_range(other@, MUL_LIM as int),
        ensures
            r as int == spec_dot(self@, other@),
    {
        proof {
            lemma_s_mul_bound(self@.x, other@.x, MUL_LIM as int, MUL_LIM as int);
            lemma_s_mul_bound(self@.y, other@.y, MUL_LIM as int, MUL_LIM as int);
            lemma_s_mul_bound(self@.z, other@.z, MUL_LIM as int, MUL_LIM as int);
        }
        fx_mul(self.x, other.x) + fx_mul(self.y, other.y) + fx_mul(self.z, other.z)
    }

    /// The dot product of the vector with itself.
    pub fn length_squared(self) -> (r: i128)
        requires
            in_range(self@, MUL_LIM as int),
        ensures
            r as int == spec_length_squared(self@),
            r >= 0,
    {
        proof {
            lemma_length_squared_nonneg(self@);
        }
        self.dot(self)
    }

    /// Square root of the squared length.
    pub fn length(self) -> (r: i128)
        requires
            in_range(self@, MUL_LIM as int),
        ensures
            r as int == spec_length(self@),
            r >= 0,
    {
        let ls = self.length_squared();
        proof {
            lemma_dot_bound(self@, self@, MUL_LIM as int, MUL_LIM as int);
        }
        fx_sqrt(ls)
    }

    /// The vector divided by its length.  The caller rules out vectors
    /// whose squared length rounds to zero, where the integer division
    /// would have no value.
    pub fn normalized(self) -> (r: Vec3)
        requires
            in_range(self@, MUL_LIM as int),
            spec_length_squared(self@) >= 1,
        ensures
            r@ == spec_normalized(self@),
            in_range(r@, 3 * SCALE as int),
    {
        let ls = self.length_squared();
        proof {
            lemma_dot_bound(self@, self@, MUL_LIM as int, MUL_LIM as int);
            lemma_length_squared_nonneg(self@);
            lemma_unit_comp_bound(self@.x, ls as int);
            lemma_unit_comp_bound(self@.y, ls as int);
            lemma_unit_comp_bound(self@.z, ls as int);
        }
        let len = fx_sqrt(ls);
        self.divide(len)
    }
}

} // verus!
