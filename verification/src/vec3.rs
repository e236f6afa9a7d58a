//! Three-component vectors over fixed-point scalars.
//!
//! `Vec3` is the executable type; its mathematical shadow `V3` holds the same
//! components as unbounded integers, and every vector operation's contract
//! states the result exactly in terms of `V3` arithmetic.

use vstd::prelude::*;
use crate::fixed::{
    abs_i, fxdiv_s, fxmul_s, isqrt_s, fxdiv, fxmul, fx_sqrt, lemma_abs_mul_bound,
    lemma_fxmul_s_bound_q, FP_ONE,
};
use vstd::arithmetic::div_mod::{lemma_div_is_ordered, lemma_fundamental_div_mod};

verus! {

/// Components of a normalized vector never exceed twice the unit, whatever
/// the rounding did.
pub const UNIT_BOUND: i64 = 131072;

/// Inputs shorter than this (squared, in raw units) are treated as degenerate
/// by `normalize` and mapped to a fixed fallback axis.
pub const MIN_NORM_D: i64 = 16;

/// The mathematical shadow of a `Vec3`: the same triple over unbounded integers.
pub ghost struct V3 {
    pub x: int,
    pub y: int,
    pub z: int,
}

/// All three components within magnitude `m`.
pub open spec fn bounded_v(a: V3, m: int) -> bool {
    abs_i(a.x) <= m && abs_i(a.y) <= m && abs_i(a.z) <= m
}

/// Componentwise sum.
pub open spec fn add_v(a: V3, b: V3) -> V3 {
    V3 { x: a.x + b.x, y: a.y + b.y, z: a.z + b.z }
}

/// Componentwise difference.
pub open spec fn sub_v(a: V3, b: V3) -> V3 {
    V3 { x: a.x - b.x, y: a.y - b.y, z: a.z - b.z }
}

/// Componentwise negation.
pub open spec fn neg_v(a: V3) -> V3 {
    V3 { x: -a.x, y: -a.y, z: -a.z }
}

/// The vector scaled by the fixed-point factor `k`.
pub open spec fn scale_v(k: int, a: V3) -> V3 {
    V3 { x: fxmul_s(k, a.x), y: fxmul_s(k, a.y), z: fxmul_s(k, a.z) }
}

/// Fixed-point dot product.
pub open spec fn dot_v(a: V3, b: V3) -> int {
    fxmul_s(a.x, b.x) + fxmul_s(a.y, b.y) + fxmul_s(a.z, b.z)
}

/// Fixed-point cross product.
pub open spec fn cross_v(a: V3, b: V3) -> V3 {
    V3 {
        x: fxmul_s(a.y, b.z) - fxmul_s(a.z, b.y),
        y: fxmul_s(a.z, b.x) - fxmul_s(a.x, b.z),
        z: fxmul_s(a.x, b.y) - fxmul_s(a.y, b.x),
    }
}

/// The unit vector along the first axis: the fallback of `normalize`.
pub open spec fn unit_x_v() -> V3 {
    V3 { x: 65536, y: 0, z: 0 }
}

/// Fixed-point normalization: each component divided by the rounded-down
/// length, or the fallback axis when the input is degenerately short.
pub open spec fn normalize_v(a: V3) -> V3 {
    let d = dot_v(a, a);
    if d < 16 {
        unit_x_v()
    } else {
        let len = isqrt_s(d * 65536);
        V3 { x: fxdiv_s(a.x, len), y: fxdiv_s(a.y, len), z: fxdiv_s(a.z, len) }
    }
}

/// The componentwise products two vectors may feed into the dot product
/// without leaving the scalar range: each within a third of `i64` after the
/// unit rescaling.
pub open spec fn dot_in_range(a: V3, b: V3) -> bool {
    &&& abs_i(a.x * b.x) <= 0x2000_0000_0000_0000 * 65536
    &&& abs_i(a.y * b.y) <= 0x2000_0000_0000_0000 * 65536
    &&& abs_i(a.z * b.z) <= 0x2000_0000_0000_0000 * 65536
}

/// Componentwise bounds imply the dot product's range condition.
pub proof fn lemma_dot_in_range(a: V3, b: V3, ma: int, mb: int)
    requires
        bounded_v(a, ma),
        bounded_v(b, mb),
        0 <= ma,
        0 <= mb,
        ma * mb <= 0x2000_0000_0000_0000 * 65536,
    ensures
        dot_in_range(a, b),
{
    lemma_abs_mul_bound(a.x, b.x, ma, mb);
    lemma_abs_mul_bound(a.y, b.y, ma, mb);
    lemma_abs_mul_bound(a.z, b.z, ma, mb);
}

/// The `Vec3` holding a mathematical triple (faithful whenever the
/// components fit the scalar range).
pub open spec fn vec_of(a: V3) -> Vec3 {
    Vec3 { x: a.x as i64, y: a.y as i64, z: a.z as i64 }
}

/// A vector of three fixed-point components.
#[derive(Clone, Copy, PartialEq, Eq, Structural, Debug)]
pub struct Vec3 {
    pub x: i64,
    pub y: i64,
    pub z: i64,
}

impl Vec3 {
    /// The mathematical shadow of this vector.
    pub open spec fn m(self) -> V3 {
        V3 { x: self.x as int, y: self.y as int, z: self.z as int }
    }

    pub fn new(x: i64, y: i64, z: i64) -> (r: Vec3)
        ensures
            r.m() == (V3 { x: x as int, y: y as int, z: z as int }),
    {
        Vec3 { x, y, z }
    }

    pub fn add(&self, o: &Vec3) -> (r: Vec3)
        requires
            bounded_v(self.m(), 0x2000_0000_0000_0000),
            bounded_v(o.m(), 0x2000_0000_0000_0000),
        ensures
            r.m() == add_v(self.m(), o.m()),
    {
        Vec3 { x: self.x + o.x, y: self.y + o.y, z: self.z + o.z }
    }

    pub fn sub(&self, o: &Vec3) -> (r: Vec3)
        requires
            bounded_v(self.m(), 0x2000_0000_0000_0000),
            bounded_v(o.m(), 0x2000_0000_0000_0000),
        ensures
            r.m() == sub_v(self.m(), o.m()),
    {
        Vec3 { x: self.x - o.x, y: self.y - o.y, z: self.z - o.z }
    }

    pub fn neg(&self) -> (r: Vec3)
        requires
            bounded_v(self.m(), 0x2000_0000_0000_0000),
        ensures
            r.m() == neg_v(self.m()),
    {
        Vec3 { x: -self.x, y: -self.y, z: -self.z }
    }

    /// Scale by a fixed-point factor.
    pub fn scale(&self, k: i64) -> (r: Vec3)
        requires
            bounded_v(self.m(), 0x20_0000_0000),
            abs_i(k as int) <= 0x20_0000_0000,
        ensures
            r.m() == scale_v(k as int, self.m()),
    {
        proof {
            lemma_abs_mul_bound(k as int, self.x as int, 0x20_0000_0000, 0x20_0000_0000);
            lemma_abs_mul_bound(k as int, self.y as int, 0x20_0000_0000, 0x20_0000_0000);
            lemma_abs_mul_bound(k as int, self.z as int, 0x20_0000_0000, 0x20_0000_0000);
        }
        Vec3 { x: fxmul(k, self.x), y: fxmul(k, self.y), z: fxmul(k, self.z) }
    }

    pub fn dot(&self, o: &Vec3) -> (r: i64)
        requires
            dot_in_range(self.m(), o.m()),
        ensures
            r as int == dot_v(self.m(), o.m()),
            abs_i(r as int) <= 3 * 0x2000_0000_0000_0000,
            bounded_v(self.m(), 0x20_0000_0000) && bounded_v(o.m(), 0x20_0000_0000) ==> abs_i(
                r as int) <= 0xC00_0000_0000_0000,
    {
        proof {
            lemma_fxmul_s_bound_q(self.x as int, o.x as int, 0x2000_0000_0000_0000);
            lemma_fxmul_s_bound_q(self.y as int, o.y as int, 0x2000_0000_0000_0000);
            lemma_fxmul_s_bound_q(self.z as int, o.z as int, 0x2000_0000_0000_0000);
            if bounded_v(self.m(), 0x20_0000_0000) && bounded_v(o.m(), 0x20_0000_0000) {
                lemma_dot_term_bound(self.x as int, o.x as int, 0x20_0000_0000);
                lemma_dot_term_bound(self.y as int, o.y as int, 0x20_0000_0000);
                lemma_dot_term_bound(self.z as int, o.z as int, 0x20_0000_0000);
            }
        }
        fxmul(self.x, o.x) + fxmul(self.y, o.y) + fxmul(self.z, o.z)
    }

    pub fn cross(&self, o: &Vec3) -> (r: Vec3)
        requires
            bounded_v(self.m(), 0x20_0000_0000),
            bounded_v(o.m(), 0x20_0000_0000),
        ensures
            r.m() == cross_v(self.m(), o.m()),
    {
        proof {
            lemma_dot_term_bound(self.y as int, o.z as int, 0x20_0000_0000);
            lemma_dot_term_bound(self.z as int, o.y as int, 0x20_0000_0000);
            lemma_dot_term_bound(self.z as int, o.x as int, 0x20_0000_0000);
            lemma_dot_term_bound(self.x as int, o.z as int, 0x20_0000_0000);
            lemma_dot_term_bound(self.x as int, o.y as int, 0x20_0000_0000);
            lemma_dot_term_bound(self.y as int, o.x as int, 0x20_0000_0000);
        }
        Vec3 {
            x: fxmul(self.y, o.z) - fxmul(self.z, o.y),
            y: fxmul(self.z, o.x) - fxmul(self.x, o.z),
            z: fxmul(self.x, o.y) - fxmul(self.y, o.x),
        }
    }

    /// Normalize to (approximately) unit length; degenerately short vectors
    /// map to the fallback axis.
    pub fn normalize(&self) -> (r: Vec3)
        requires
            bounded_v(self.m(), 0x8_0000_0000),
        ensures
            r.m() == normalize_v(self.m()),
            bounded_v(r.m(), UNIT_BOUND as int),
    {
        proof {
            lemma_dot_in_range(self.m(), self.m(), 0x8_0000_0000, 0x8_0000_0000);
        }
        let d = self.dot(self);
        proof {
            lemma_dot_self_nonneg(self.m());
            lemma_norm_dot_bound(self.m());
        }
        if d < MIN_NORM_D {
            Vec3 { x: FP_ONE, y: 0, z: 0 }
        } else {
            let len = fx_sqrt(d);
            proof {
                assert(len >= 1024) by {
                    if len <= 1023 {
                        assert((len as int + 1) * (len as int + 1) <= 1024 * 1024)
                            by (nonlinear_arith)
                            requires
                                0 <= len as int <= 1023,
                        ;
                    }
                }
                lemma_norm_comp_bound(self.x as int, d as int, len as int);
                lemma_norm_comp_bound(self.y as int, d as int, len as int);
                lemma_norm_comp_bound(self.z as int, d as int, len as int);
            }
            Vec3 { x: fxdiv(self.x, len), y: fxdiv(self.y, len), z: fxdiv(self.z, len) }
        }
    }
}

/// One fixed-point product of two bounded scalars stays within a third of the
/// `i64` range.
proof fn lemma_dot_term_bound(a: int, b: int, m: int)
    requires
        abs_i(a) <= m,
        abs_i(b) <= m,
        0 <= m <= 0x20_0000_0000,
    ensures
        abs_i(a * b) <= 0x20_0000_0000 * 0x20_0000_0000,
        abs_i(fxmul_s(a, b)) <= 0x400_0000_0000_0000,
{
    lemma_abs_mul_bound(a, b, 0x20_0000_0000, 0x20_0000_0000);
    assert(0x20_0000_0000int * 0x20_0000_0000 == 0x400_0000_0000_0000int * 65536);
    lemma_fxmul_s_bound_q(a, b, 0x400_0000_0000_0000);
}

/// Componentwise bounds on two vectors bound their fixed-point dot product.
pub proof fn lemma_dot_v_bound(a: V3, b: V3, ma: int, mb: int, q: int)
    requires
        bounded_v(a, ma),
        bounded_v(b, mb),
        0 <= ma,
        0 <= mb,
        0 <= q,
        ma * mb <= q * 65536,
    ensures
        abs_i(dot_v(a, b)) <= 3 * q,
{
    lemma_abs_mul_bound(a.x, b.x, ma, mb);
    lemma_fxmul_s_bound_q(a.x, b.x, q);
    lemma_abs_mul_bound(a.y, b.y, ma, mb);
    lemma_fxmul_s_bound_q(a.y, b.y, q);
    lemma_abs_mul_bound(a.z, b.z, ma, mb);
    lemma_fxmul_s_bound_q(a.z, b.z, q);
}

/// Componentwise bounds on two vectors bound their fixed-point cross product.
pub proof fn lemma_cross_v_bound(a: V3, b: V3, ma: int, mb: int, q: int)
    requires
        bounded_v(a, ma),
        bounded_v(b, mb),
        0 <= ma,
        0 <= mb,
        0 <= q,
        ma * mb <= q * 65536,
    ensures
        bounded_v(cross_v(a, b), 2 * q),
{
    lemma_abs_mul_bound(a.y, b.z, ma, mb);
    lemma_fxmul_s_bound_q(a.y, b.z, q);
    lemma_abs_mul_bound(a.z, b.y, ma, mb);
    lemma_fxmul_s_bound_q(a.z, b.y, q);
    lemma_abs_mul_bound(a.z, b.x, ma, mb);
    lemma_fxmul_s_bound_q(a.z, b.x, q);
    lemma_abs_mul_bound(a.x, b.z, ma, mb);
    lemma_fxmul_s_bound_q(a.x, b.z, q);
    lemma_abs_mul_bound(a.x, b.y, ma, mb);
    lemma_fxmul_s_bound_q(a.x, b.y, q);
    lemma_abs_mul_bound(a.y, b.x, ma, mb);
    lemma_fxmul_s_bound_q(a.y, b.x, q);
}

/// What `normalize_v` returns is componentwise within twice the unit, for
/// any input in its working range.
pub proof fn lemma_normalize_v_bound(a: V3)
    requires
        bounded_v(a, 0x8_0000_0000),
    ensures
        bounded_v(normalize_v(a), 131072),
{
    let d = dot_v(a, a);
    lemma_dot_self_nonneg(a);
    if d >= 16 {
        let len = isqrt_s(d * 65536);
        crate::fixed::lemma_isqrt_s_props(d * 65536);
        assert(len >= 1024) by (nonlinear_arith)
            requires
                len >= 0,
                d >= 16,
                d * 65536 < (len + 1) * (len + 1),
        ;
        lemma_norm_comp_bound(a.x, d, len);
        lemma_norm_comp_bound(a.y, d, len);
        lemma_norm_comp_bound(a.z, d, len);
    }
}

/// Negating one argument negates the fixed-point product.
pub proof fn lemma_fxmul_s_neg(a: int, b: int)
    ensures
        fxmul_s(-a, b) == -fxmul_s(a, b),
{
    assert((-a) * b == -(a * b)) by (nonlinear_arith);
}

/// Negating a vector negates its dot product with any other vector.
pub proof fn lemma_dot_v_neg(a: V3, b: V3)
    ensures
        dot_v(neg_v(a), b) == -dot_v(a, b),
{
    lemma_fxmul_s_neg(a.x, b.x);
    lemma_fxmul_s_neg(a.y, b.y);
    lemma_fxmul_s_neg(a.z, b.z);
}

/// A vector's dot product with itself is nonnegative.
pub proof fn lemma_dot_self_nonneg(a: V3)
    ensures
        dot_v(a, a) >= 0,
        fxmul_s(a.x, a.x) <= dot_v(a, a),
        fxmul_s(a.y, a.y) <= dot_v(a, a),
        fxmul_s(a.z, a.z) <= dot_v(a, a),
{
    lemma_sq_div_nonneg(a.x);
    lemma_sq_div_nonneg(a.y);
    lemma_sq_div_nonneg(a.z);
}

/// `fxmul_s(v, v)` is nonnegative.
proof fn lemma_sq_div_nonneg(v: int)
    ensures
        fxmul_s(v, v) >= 0,
{
    assert(v * v >= 0) by (nonlinear_arith);
    assert((v * v) / 65536 >= 0) by (nonlinear_arith)
        requires
            v * v >= 0,
    ;
}

/// The squared length of a vector fit for `normalize` stays small enough for
/// the fixed-point square root.
proof fn lemma_norm_dot_bound(a: V3)
    requires
        bounded_v(a, 0x8_0000_0000),
    ensures
        dot_v(a, a) <= 0xC0_0000_0000_0000,
{
    assert(0x8_0000_0000int * 0x8_0000_0000 == 0x40_0000_0000_0000int * 65536);
    lemma_abs_mul_bound(a.x, a.x, 0x8_0000_0000, 0x8_0000_0000);
    lemma_fxmul_s_bound_q(a.x, a.x, 0x40_0000_0000_0000);
    lemma_abs_mul_bound(a.y, a.y, 0x8_0000_0000, 0x8_0000_0000);
    lemma_fxmul_s_bound_q(a.y, a.y, 0x40_0000_0000_0000);
    lemma_abs_mul_bound(a.z, a.z, 0x8_0000_0000, 0x8_0000_0000);
    lemma_fxmul_s_bound_q(a.z, a.z, 0x40_0000_0000_0000);
}

/// A component divided by the rounded-down length stays within `UNIT_BOUND`.
proof fn lemma_norm_comp_bound(v: int, d: int, len: int)
    requires
        fxmul_s(v, v) <= d,
        16 <= d,
        1024 <= len,
        len * len <= d * 65536,
        d * 65536 < (len + 1) * (len + 1),
    ensures
        abs_i(fxdiv_s(v, len)) <= 131072,
{
    lemma_sq_div_nonneg(v);
    assert(v * v >= 0) by (nonlinear_arith);
    lemma_fundamental_div_mod(v * v, 65536);
    assert((v * v) % 65536 < 65536 && (v * v) % 65536 >= 0) by (nonlinear_arith)
        requires
            v * v >= 0,
    ;
    assert(v * v <= 65536 * d + 65535);
    assert(abs_i(v) <= 2 * len) by (nonlinear_arith)
        requires
            v * v <= 65536 * d + 65535,
            d * 65536 < (len + 1) * (len + 1),
            1024 <= len,
    ;
    assert(abs_i(fxdiv_s(v, len)) == (abs_i(v) * 65536) / len) by {
        if v >= 0 {
            assert((v * 65536) / len >= 0) by (nonlinear_arith)
                requires
                    v >= 0,
                    len >= 1024,
            ;
        } else {
            assert(((-v) * 65536) / len >= 0) by (nonlinear_arith)
                requires
                    v < 0,
                    len >= 1024,
            ;
        }
    }
    assert(abs_i(v) * 65536 <= 2 * len * 65536);
    lemma_div_is_ordered(abs_i(v) * 65536, 2 * len * 65536, len);
    assert((2 * len * 65536) / len == 131072) by (nonlinear_arith)
        requires
            len >= 1024,
    ;
}

} // verus!
