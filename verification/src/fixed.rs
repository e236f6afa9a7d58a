//! Scaled-integer scalars: the renderer's number model.
//!
//! A scalar is an `i64` counting units of `1/65536`, so `FP_ONE` stands for
//! the real number one.  Multiplication and division round toward zero, and
//! the square root rounds down; each operation's contract states its result
//! exactly over mathematical integers.

use vstd::prelude::*;
use vstd::arithmetic::div_mod::{lemma_div_is_ordered, lemma_div_multiples_vanish,
    lemma_fundamental_div_mod};

verus! {

/// The fixed-point unit: the representation of the real number 1.
pub const FP_ONE: i64 = 65536;

/// Magnitude of a mathematical integer.
pub open spec fn abs_i(a: int) -> int {
    if a >= 0 {
        a
    } else {
        -a
    }
}

/// Fixed-point product: `a * b / 65536`, rounded toward zero.
pub open spec fn fxmul_s(a: int, b: int) -> int {
    if a * b >= 0 {
        (a * b) / 65536
    } else {
        -((-(a * b)) / 65536)
    }
}

/// Fixed-point quotient: `a * 65536 / b`, rounded toward zero.
pub open spec fn fxdiv_s(a: int, b: int) -> int
    recommends
        b != 0,
{
    if (a >= 0) == (b >= 0) {
        (abs_i(a) * 65536) / abs_i(b)
    } else {
        -((abs_i(a) * 65536) / abs_i(b))
    }
}

/// The integer square root: the unique `r >= 0` with `r * r <= x < (r+1)^2`.
pub open spec fn isqrt_s(x: int) -> int
    recommends
        x >= 0,
{
    choose|r: int| 0 <= r && #[trigger] (r * r) <= x && x < (r + 1) * (r + 1)
}

/// `x` clamped into the interval `[lo, hi]`.
pub open spec fn clamp_s(x: int, lo: int, hi: int) -> int
    recommends
        lo <= hi,
{
    if x < lo {
        lo
    } else if x > hi {
        hi
    } else {
        x
    }
}

/// Magnitudes multiply: bounds on two factors bound their product.
pub proof fn lemma_abs_mul_bound(a: int, b: int, aa: int, bb: int)
    by (nonlinear_arith)
    requires
        abs_i(a) <= aa,
        abs_i(b) <= bb,
    ensures
        abs_i(a * b) <= aa * bb,
{
}

/// A bound on `a * b` gives a bound on the fixed-point product.
pub proof fn lemma_fxmul_s_bound(a: int, b: int, m: int)
    requires
        abs_i(a * b) <= m,
        0 <= m,
    ensures
        abs_i(fxmul_s(a, b)) <= m / 65536,
{
    if a * b >= 0 {
        lemma_div_is_ordered(a * b, m, 65536);
        assert((a * b) / 65536 >= 0) by (nonlinear_arith)
            requires
                a * b >= 0,
        ;
    } else {
        lemma_div_is_ordered(-(a * b), m, 65536);
        assert((-(a * b)) / 65536 >= 0) by (nonlinear_arith)
            requires
                -(a * b) >= 0,
        ;
    }
}

/// A product bound stated in multiples of the unit bounds the fixed-point
/// product directly.
pub proof fn lemma_fxmul_s_bound_q(a: int, b: int, q: int)
    requires
        0 <= q,
        abs_i(a * b) <= q * 65536,
    ensures
        abs_i(fxmul_s(a, b)) <= q,
{
    lemma_fxmul_s_bound(a, b, q * 65536);
    assert(q * 65536 == 65536 * q) by (nonlinear_arith);
    lemma_div_multiples_vanish(q, 65536);
}

/// The fixed-point product misses the exact scaled product by less than one
/// unit, whatever the signs.
pub proof fn lemma_fxmul_s_err(a: int, b: int)
    ensures
        abs_i(65536 * fxmul_s(a, b) - a * b) <= 65535,
{
    if a * b >= 0 {
        lemma_fundamental_div_mod(a * b, 65536);
        assert(0 <= (a * b) % 65536 < 65536) by (nonlinear_arith)
            requires
                a * b >= 0,
        ;
    } else {
        lemma_fundamental_div_mod(-(a * b), 65536);
        assert(0 <= (-(a * b)) % 65536 < 65536) by (nonlinear_arith)
            requires
                -(a * b) >= 0,
        ;
    }
}

/// A fixed-point product of nonnegative factors is nonnegative.
pub proof fn lemma_fxmul_s_nonneg(a: int, b: int)
    requires
        0 <= a,
        0 <= b,
    ensures
        0 <= fxmul_s(a, b),
{
    assert(a * b >= 0) by (nonlinear_arith)
        requires
            a >= 0,
            b >= 0,
    ;
    assert((a * b) / 65536 >= 0) by (nonlinear_arith)
        requires
            a * b >= 0,
    ;
}

/// A fixed-point product of nonnegative factors is nonnegative, and a factor
/// at most one leaves the other factor undiminished at most.
pub proof fn lemma_fxmul_s_attenuates(a: int, b: int)
    requires
        0 <= a,
        0 <= b <= 65536,
    ensures
        0 <= fxmul_s(a, b) <= a,
{
    assert(0 <= a * b <= a * 65536) by (nonlinear_arith)
        requires
            0 <= a,
            0 <= b <= 65536,
    ;
    lemma_div_is_ordered(a * b, a * 65536, 65536);
    assert((a * b) / 65536 >= 0) by (nonlinear_arith)
        requires
            a * b >= 0,
    ;
    assert((a * 65536) / 65536 == a) by (nonlinear_arith);
}

/// One unit is the multiplicative identity of the fixed-point product.
pub proof fn lemma_fxmul_s_one(a: int)
    ensures
        fxmul_s(65536, a) == a,
        fxmul_s(a, 65536) == a,
        fxmul_s(0, a) == 0,
        fxmul_s(a, 0) == 0,
{
    assert(65536 * a == a * 65536) by (nonlinear_arith);
    assert(0 * a == 0 && a * 0 == 0) by (nonlinear_arith);
    if a >= 0 {
        lemma_div_multiples_vanish(a, 65536);
    } else {
        assert(-(a * 65536) == (-a) * 65536) by (nonlinear_arith);
        assert((-a) * 65536 == 65536 * (-a)) by (nonlinear_arith);
        lemma_div_multiples_vanish(-a, 65536);
        assert(a * 65536 < 0) by (nonlinear_arith)
            requires
                a < 0,
        ;
    }
}

/// A numerator within twice the (positive) denominator gives a fixed-point
/// quotient within two units.
pub proof fn lemma_fxdiv_s_half_bound(a: int, b: int)
    requires
        b > 0,
        abs_i(a) <= 2 * b,
    ensures
        abs_i(fxdiv_s(a, b)) <= 131072,
{
    assert(abs_i(a) * 65536 <= 2 * b * 65536);
    lemma_div_is_ordered(abs_i(a) * 65536, 2 * b * 65536, b);
    assert((2 * b * 65536) / b == 131072) by {
        assert(2 * b * 65536 == b * 131072) by (nonlinear_arith);
        lemma_div_multiples_vanish(131072, b);
    }
    assert((abs_i(a) * 65536) / b >= 0) by (nonlinear_arith)
        requires
            abs_i(a) >= 0,
            b > 0,
    ;
}

/// The floor square root is unique.
pub proof fn lemma_isqrt_unique(x: int, r1: int, r2: int)
    by (nonlinear_arith)
    requires
        0 <= r1,
        r1 * r1 <= x < (r1 + 1) * (r1 + 1),
        0 <= r2,
        r2 * r2 <= x < (r2 + 1) * (r2 + 1),
    ensures
        r1 == r2,
{
}

/// The floor square root exists for every nonnegative argument.
pub proof fn lemma_isqrt_exists(x: int)
    requires
        0 <= x,
    ensures
        exists|r: int| 0 <= r && #[trigger] (r * r) <= x && x < (r + 1) * (r + 1),
    decreases x,
{
    if x == 0 {
        assert(0 <= 0 && 0 * 0 <= x && x < (0 + 1) * (0 + 1)) by (nonlinear_arith)
            requires
                x == 0,
        ;
    } else {
        lemma_isqrt_exists(x - 1);
        let p = choose|r: int| 0 <= r && #[trigger] (r * r) <= x - 1 && x - 1 < (r + 1) * (r + 1);
        if x == (p + 1) * (p + 1) {
            assert((p + 1) * (p + 1) <= x);
            assert(x < (p + 2) * (p + 2)) by (nonlinear_arith)
                requires
                    0 <= p,
                    x == (p + 1) * (p + 1),
            ;
            assert(0 <= p + 1 && (p + 1) * (p + 1) <= x && x < (p + 1 + 1) * (p + 1 + 1));
        } else {
            assert(0 <= p && p * p <= x && x < (p + 1) * (p + 1));
        }
    }
}

/// Ties a witness to `isqrt_s`.
pub proof fn lemma_isqrt_is(x: int, r: int)
    requires
        0 <= r,
        r * r <= x < (r + 1) * (r + 1),
    ensures
        isqrt_s(x) == r,
{
    lemma_isqrt_exists(x);
    let w = choose|w: int| 0 <= w && #[trigger] (w * w) <= x && x < (w + 1) * (w + 1);
    lemma_isqrt_unique(x, w, r);
}

/// What the floor square root satisfies, for any nonnegative argument.
pub proof fn lemma_isqrt_s_props(x: int)
    requires
        0 <= x,
    ensures
        0 <= isqrt_s(x),
        isqrt_s(x) * isqrt_s(x) <= x,
        x < (isqrt_s(x) + 1) * (isqrt_s(x) + 1),
{
    lemma_isqrt_exists(x);
}

/// Fixed-point multiplication, exact to `fxmul_s` whenever the mathematical
/// product of the arguments stays within `i64::MAX * 65536`.
pub fn fxmul(a: i64, b: i64) -> (r: i64)
    requires
        abs_i(a as int * b as int) <= 0x7fff_ffff_ffff_ffff * 0x10000,
    ensures
        r as int == fxmul_s(a as int, b as int),
{
    let neg: bool = (a < 0) != (b < 0);
    let ma: u128 = if a >= 0 {
        a as u128
    } else {
        (-(a as i128)) as u128
    };
    let mb: u128 = if b >= 0 {
        b as u128
    } else {
        (-(b as i128)) as u128
    };
    proof {
        assert(ma as int == abs_i(a as int));
        assert(mb as int == abs_i(b as int));
        assert(ma as int * mb as int == abs_i(a as int * b as int)) by (nonlinear_arith)
            requires
                ma as int == abs_i(a as int),
                mb as int == abs_i(b as int),
        ;
        assert(ma as int * mb as int <= 0x7fff_ffff_ffff_ffff * 0x10000);
    }
    let p: u128 = ma * mb;
    let q: u128 = p / 65536;
    proof {
        lemma_div_is_ordered(p as int, 0x7fff_ffff_ffff_ffffint * 0x10000, 65536);
    }
    let qi: i64 = q as i64;
    proof {
        if a as int * b as int >= 0 {
            assert(a as int * b as int == ma as int * mb as int);
            if neg {
                assert(a as int * b as int <= 0) by (nonlinear_arith)
                    requires
                        (a < 0) != (b < 0),
                ;
                assert(q == 0);
            }
        } else {
            assert(-(a as int * b as int) == ma as int * mb as int);
            if !neg {
                assert(a as int * b as int >= 0) by (nonlinear_arith)
                    requires
                        (a < 0) == (b < 0),
                ;
            }
        }
    }
    if neg {
        -qi
    } else {
        qi
    }
}

/// Fixed-point division, exact to `fxdiv_s`; the numerator bound keeps the
/// scaled quotient within `i64`.
pub fn fxdiv(a: i64, b: i64) -> (r: i64)
    requires
        b != 0,
        abs_i(a as int) <= 0x4000_0000_0000,
    ensures
        r as int == fxdiv_s(a as int, b as int),
{
    let neg: bool = (a < 0) != (b < 0);
    let ma: u128 = if a >= 0 {
        a as u128
    } else {
        (-(a as i128)) as u128
    };
    let mb: u128 = if b >= 0 {
        b as u128
    } else {
        (-(b as i128)) as u128
    };
    let n: u128 = ma * 65536;
    let q: u128 = n / mb;
    proof {
        assert(ma as int <= 0x4000_0000_0000);
        assert(n as int == ma as int * 65536);
        assert(q as int <= n as int) by {
            assert(n as int / mb as int <= n as int) by (nonlinear_arith)
                requires
                    mb as int >= 1,
                    n as int >= 0,
            ;
        }
        if a >= 0 {
            if b >= 0 {
                assert(!neg);
            }
        }
        assert(q as int == (abs_i(a as int) * 65536) / abs_i(b as int));
    }
    let qi: i64 = q as i64;
    proof {
        if a == 0 {
            assert(q == 0);
        }
    }
    if neg {
        -qi
    } else {
        qi
    }
}

/// Floor square root of a fixed-point value: returns `isqrt_s(x * 65536)`,
/// the fixed-point representation of the rounded-down real square root.
pub fn fx_sqrt(x: i64) -> (r: i64)
    requires
        0 <= x <= 0x100_0000_0000_0000,
    ensures
        r as int == isqrt_s(x as int * 65536),
        0 <= r <= 0x20_0000_0000,
        r as int * r as int <= x as int * 65536,
        x as int * 65536 < (r as int + 1) * (r as int + 1),
{
    let v: u128 = (x as u128) * 65536;
    let mut lo: u128 = 0;
    let mut hi: u128 = 0x20_0000_0000;
    proof {
        assert((0x20_0000_0000 as int) * (0x20_0000_0000 as int) > v as int) by (nonlinear_arith)
            requires
                v as int <= 0x100_0000_0000_0000 * 65536,
        ;
    }
    while hi - lo > 1
        invariant
            0 <= lo < hi <= 0x20_0000_0000,
            lo as int * lo as int <= v as int,
            (v as int) < (hi as int) * (hi as int),
        decreases hi - lo,
    {
        let mid: u128 = lo + (hi - lo) / 2;
        proof {
            assert(lo < mid < hi);
            assert((mid as int) * (mid as int) <= 0x20_0000_0000int * 0x20_0000_0000)
                by (nonlinear_arith)
                requires
                    0 <= mid as int <= 0x20_0000_0000,
            ;
        }
        if mid * mid <= v {
            lo = mid;
        } else {
            hi = mid;
        }
    }
    proof {
        assert(hi == lo + 1);
        lemma_isqrt_is(v as int, lo as int);
    }
    lo as i64
}

/// `x` clamped into `[lo, hi]`.
pub fn clamp(x: i64, lo: i64, hi: i64) -> (r: i64)
    requires
        lo <= hi,
    ensures
        r as int == clamp_s(x as int, lo as int, hi as int),
{
    if x < lo {
        lo
    } else if x > hi {
        hi
    } else {
        x
    }
}

} // verus!
