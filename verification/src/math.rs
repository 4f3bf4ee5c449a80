//! The fixed-point scalar that every other component computes with.
//!
//! A scalar is an `i64` mantissa holding `SCALE` units per whole number, so
//! the value `1.0` is the mantissa `SCALE`.  Results of every operation
//! saturate into `[-FX_MAX, FX_MAX]`; products and quotients truncate toward
//! zero, and square roots round down.  Each executable operation has an exact
//! contract over the spec-level counterparts defined here.

use vstd::arithmetic::mul::{lemma_mul_inequality, lemma_mul_upper_bound};
use vstd::prelude::*;

verus! {

/// Mantissa units per whole number: 2^20.
pub const SCALE: i64 = 1048576;

/// Largest mantissa a scalar may hold: 2^40.
pub const FX_MAX: i64 = 1099511627776;

/// Mantissa of one half.
pub const HALF: i64 = 524288;

/// Tolerance used by approximate comparison: one hundredth, rounded down.
pub const EPS: i64 = 10485;

/// A well-formed scalar stays inside the saturation range.
pub open spec fn fx_wf(a: i64) -> bool {
    -FX_MAX <= a <= FX_MAX
}

/// Clip an unbounded value into the saturation range.
pub open spec fn sat(x: int) -> int {
    if x > FX_MAX {
        FX_MAX as int
    } else if x < -FX_MAX {
        -FX_MAX as int
    } else {
        x
    }
}

/// Division truncated toward zero, the rounding the executable code uses.
pub open spec fn tdiv(a: int, b: int) -> int {
    let q = (vstd::math::abs(a) / vstd::math::abs(b)) as int;
    if (a < 0) == (b < 0) {
        q
    } else {
        -q
    }
}

/// The product of two scalars: scale-corrected, truncated, saturated.
pub open spec fn fmul(a: int, b: int) -> int {
    sat(tdiv(a * b, SCALE as int))
}

/// The quotient of two scalars: scale-corrected, truncated, saturated.
pub open spec fn fdiv(a: int, b: int) -> int {
    sat(tdiv(a * SCALE, b))
}

/// The saturated sum of two scalars.
pub open spec fn fadd(a: int, b: int) -> int {
    sat(a + b)
}

/// The integer square root, rounded down.
pub open spec fn sqrt_floor(n: int) -> int
    decreases n,
{
    if n <= 0 {
        0
    } else {
        let r = sqrt_floor(n - 1);
        if (r + 1) * (r + 1) <= n {
            r + 1
        } else {
            r
        }
    }
}

/// The square root of a scalar; non-positive inputs give zero, never an
/// undefined value.
pub open spec fn fx_sqrt_spec(a: int) -> int {
    if a <= 0 {
        0
    } else {
        sat(sqrt_floor(a * SCALE))
    }
}

/// `sqrt(a^2 - b^2)` over scalars, with the difference clipped at zero so a
/// rounding-induced negative radicand cannot poison later arithmetic.
pub open spec fn sq_diff_root_spec(a: int, b: int) -> int {
    fx_sqrt_spec(fmul(a, a) - fmul(b, b))
}

/// Truncated division undoes an exact multiple.
pub proof fn lemma_tdiv_exact(a: int, b: int)
    requires
        b > 0,
    ensures
        tdiv(a * b, b) == a,
{
    if a >= 0 {
        assert(a * b >= 0) by (nonlinear_arith)
            requires
                a >= 0,
                b > 0,
        ;
        vstd::arithmetic::div_mod::lemma_div_by_multiple(a, b);
    } else {
        assert(a * b < 0 && -(a * b) == (-a) * b) by (nonlinear_arith)
            requires
                a < 0,
                b > 0,
        ;
        vstd::arithmetic::div_mod::lemma_div_by_multiple(-a, b);
    }
}

/// Truncated division leaves a remainder smaller than the divisor.
pub proof fn lemma_tdiv_rem(x: int, d: int)
    requires
        d > 0,
    ensures
        vstd::math::abs(x - tdiv(x, d) * d) <= d - 1,
{
    if x >= 0 {
        assert(x - (x / d) * d <= d - 1 && x - (x / d) * d >= 0) by (nonlinear_arith)
            requires
                x >= 0,
                d > 0,
        ;
    } else {
        let m = -x;
        assert(m - (m / d) * d <= d - 1 && m - (m / d) * d >= 0) by (nonlinear_arith)
            requires
                m > 0,
                d > 0,
        ;
        assert(x - tdiv(x, d) * d == -(m - (m / d) * d)) by (nonlinear_arith)
            requires
                x < 0,
                m == -x,
                d > 0,
                tdiv(x, d) == -(m / d),
        ;
    }
}

/// Truncated division keeps a bound that the numerator keeps per divisor.
pub proof fn lemma_tdiv_bound(x: int, d: int, b: int)
    requires
        d > 0,
        b >= 0,
        -(b * d) <= x <= b * d,
    ensures
        -b <= tdiv(x, d) <= b,
{
    assert((vstd::math::abs(x) as int) / d <= b) by (nonlinear_arith)
        requires
            d > 0,
            b >= 0,
            vstd::math::abs(x) as int <= b * d,
    ;
}

/// Truncated division never overshoots the numerator: quotient times
/// divisor stays within the numerator's magnitude.
pub proof fn lemma_tdiv_mul_le(a: int, d: int)
    requires
        d > 0,
    ensures
        vstd::math::abs(tdiv(a, d) * d) <= vstd::math::abs(a),
{
    let u = vstd::math::abs(a) as int;
    let uq = u / d;
    vstd::arithmetic::div_mod::lemma_fundamental_div_mod(u, d);
    vstd::arithmetic::div_mod::lemma_mod_division_less_than_divisor(u, d);
    vstd::arithmetic::div_mod::lemma_div_pos_is_pos(u, d);
    assert(d * uq <= u);
    vstd::arithmetic::mul::lemma_mul_is_commutative(d, uq);
    assert(uq * d <= u);
    assert(uq * d >= 0) by (nonlinear_arith)
        requires
            uq >= 0,
            d > 0,
    ;
    if (a < 0) == (d < 0) {
        assert(tdiv(a, d) * d == uq * d);
    } else {
        assert(tdiv(a, d) * d == -(uq * d)) by (nonlinear_arith)
            requires
                tdiv(a, d) == -uq,
        ;
    }
}

/// `sqrt_floor` is the rounded-down square root: it is non-negative, its
/// square is at most `n`, and the next square is past `n`.
pub proof fn lemma_sqrt_floor_bounds(n: int)
    requires
        n >= 0,
    ensures
        sqrt_floor(n) >= 0,
        sqrt_floor(n) * sqrt_floor(n) <= n,
        n < (sqrt_floor(n) + 1) * (sqrt_floor(n) + 1),
    decreases n,
{
    if n == 0 {
    } else {
        lemma_sqrt_floor_bounds(n - 1);
        let r = sqrt_floor(n - 1);
        if (r + 1) * (r + 1) <= n {
            assert(n - 1 < (r + 1) * (r + 1));
            assert(n == (r + 1) * (r + 1));
            assert((r + 1 + 1) * (r + 1 + 1) > n) by (nonlinear_arith)
                requires
                    r >= 0,
                    n == (r + 1) * (r + 1),
            ;
        }
    }
}

/// Bracketing a value between two squares brackets its rounded-down root.
pub proof fn lemma_sqrt_floor_window(n: int, lo: int, hi: int)
    requires
        0 <= lo,
        lo * lo <= n,
        n < hi * hi,
        hi >= 0,
    ensures
        lo <= sqrt_floor(n) <= hi - 1,
{
    lemma_sqrt_floor_bounds(n);
    let r = sqrt_floor(n);
    if r < lo {
        assert((r + 1) * (r + 1) <= lo * lo) by (nonlinear_arith)
            requires
                0 <= r + 1 <= lo,
        ;
    }
    if r >= hi {
        assert(r * r >= hi * hi) by (nonlinear_arith)
            requires
                r >= hi >= 0,
        ;
    }
}

/// Any value meeting the rounded-down square-root bounds is `sqrt_floor`.
pub proof fn lemma_sqrt_floor_unique(n: int, r: int)
    requires
        n >= 0,
        r >= 0,
        r * r <= n,
        n < (r + 1) * (r + 1),
    ensures
        r == sqrt_floor(n),
{
    let s = sqrt_floor(n);
    lemma_sqrt_floor_bounds(n);
    if r < s {
        lemma_mul_inequality(r + 1, s, r + 1);
        lemma_mul_inequality(r + 1, s, s);
        assert(s * (r + 1) <= s * s) by (nonlinear_arith)
            requires
                r + 1 <= s,
                s >= 0,
        ;
        assert((r + 1) * (r + 1) <= s * s);
    }
    if s < r {
        assert((s + 1) * (s + 1) <= r * r) by (nonlinear_arith)
            requires
                s + 1 <= r,
                s >= 0,
        ;
    }
}

/// The rounded-down square root of a wide unsigned integer, by bisection.
pub fn isqrt_u128(n: u128) -> (r: u128)
    ensures
        r as int == sqrt_floor(n as int),
        (r as int) * (r as int) <= n as int,
        (n as int) < (r as int + 1) * (r as int + 1),
{
    let mut lo: u128 = 0;
    let mut hi: u128 = 0x10000000000000000;
    assert((n as int) < (hi as int) * (hi as int)) by (nonlinear_arith)
        requires
            n <= u128::MAX,
            hi == 0x10000000000000000,
    ;
    while lo + 1 < hi
        invariant
            lo < hi,
            hi <= 0x10000000000000000,
            (lo as int) * (lo as int) <= n as int,
            (n as int) < (hi as int) * (hi as int),
        decreases hi - lo,
    {
        let mid: u128 = lo + (hi - lo) / 2;
        proof {
            lemma_mul_upper_bound(
                mid as int,
                0xffffffffffffffff,
                mid as int,
                0xffffffffffffffff,
            );
        }
        if mid * mid <= n {
            lo = mid;
        } else {
            hi = mid;
        }
    }
    proof {
        lemma_sqrt_floor_unique(n as int, lo as int);
    }
    lo
}

/// Clip a wide intermediate back into a scalar.
pub fn sat_i64(x: i128) -> (r: i64)
    ensures
        r as int == sat(x as int),
{
    if x > FX_MAX as i128 {
        FX_MAX
    } else if x < -(FX_MAX as i128) {
        -FX_MAX
    } else {
        x as i64
    }
}

/// Wide division truncated toward zero, for scale correction.
pub fn tdiv_i128(a: i128, b: i128) -> (q: i128)
    requires
        b > 0,
        a != i128::MIN,
    ensures
        q as int == tdiv(a as int, b as int),
{
    if a < 0 {
        let mag: u128 = (-a) as u128;
        let qm: u128 = mag / (b as u128);
        assert(qm <= mag) by (nonlinear_arith)
            requires
                qm == mag / (b as u128),
                b as u128 >= 1,
        ;
        -(qm as i128)
    } else {
        let mag: u128 = a as u128;
        let qm: u128 = mag / (b as u128);
        assert(qm <= mag) by (nonlinear_arith)
            requires
                qm == mag / (b as u128),
                b as u128 >= 1,
        ;
        qm as i128
    }
}

/// The executable scalar product.
pub fn fx_mul(a: i64, b: i64) -> (r: i64)
    ensures
        r as int == fmul(a as int, b as int),
{
    proof {
        assert((a as int) * (b as int) <= 0x40000000000000000000000000000000
            && (a as int) * (b as int) >= -0x40000000000000000000000000000000) by (nonlinear_arith)
            requires
                -0x8000000000000000 <= a as int <= 0x7fffffffffffffff,
                -0x8000000000000000 <= b as int <= 0x7fffffffffffffff,
        ;
    }
    let p: i128 = (a as i128) * (b as i128);
    let q: i128 = tdiv_i128(p, SCALE as i128);
    sat_i64(q)
}

/// Truncated division is unchanged when both operands are negated.
proof fn lemma_tdiv_neg_neg(a: int, b: int)
    requires
        b != 0,
    ensures
        tdiv(-a, -b) == tdiv(a, b),
{
    assert(vstd::math::abs(-a) == vstd::math::abs(a));
    assert(vstd::math::abs(-b) == vstd::math::abs(b));
}

/// The executable scalar quotient.
pub fn fx_div(a: i64, b: i64) -> (r: i64)
    requires
        b != 0,
    ensures
        r as int == fdiv(a as int, b as int),
{
    proof {
        assert((a as int) * (SCALE as int) <= 0x40000000000000000000000000000000
            && (a as int) * (SCALE as int) >= -0x40000000000000000000000000000000) by (nonlinear_arith)
            requires
                -0x8000000000000000 <= a as int <= 0x7fffffffffffffff,
                SCALE == 1048576,
        ;
    }
    let num: i128 = (a as i128) * (SCALE as i128);
    if b < 0 {
        proof {
            lemma_tdiv_neg_neg(num as int, b as int);
        }
        let q: i128 = tdiv_i128(-num, -(b as i128));
        sat_i64(q)
    } else {
        let q: i128 = tdiv_i128(num, b as i128);
        sat_i64(q)
    }
}

/// The executable saturated sum.
pub fn fx_add(a: i64, b: i64) -> (r: i64)
    ensures
        r as int == fadd(a as int, b as int),
{
    sat_i64(a as i128 + b as i128)
}

/// The executable scalar square root.
pub fn fx_sqrt(a: i64) -> (r: i64)
    ensures
        r as int == fx_sqrt_spec(a as int),
{
    if a <= 0 {
        0
    } else {
        proof {
            assert((a as int) * (SCALE as int) <= 0x40000000000000000000000000000000) by (nonlinear_arith)
                requires
                    0 <= a as int <= 0x7fffffffffffffff,
                    SCALE == 1048576,
            ;
        }
        let m: u128 = (a as u128) * (SCALE as u128);
        let s: u128 = isqrt_u128(m);
        if s > FX_MAX as u128 {
            FX_MAX
        } else {
            s as i64
        }
    }
}

/// `sqrt(a^2 - b^2)`, the distance helper of the sphere intersection test.
pub fn sq_diff_root(a: i64, b: i64) -> (r: i64)
    ensures
        r as int == sq_diff_root_spec(a as int, b as int),
{
    let aa: i64 = fx_mul(a, a);
    let bb: i64 = fx_mul(b, b);
    let d: i128 = aa as i128 - bb as i128;
    if d <= 0 {
        0
    } else {
        fx_sqrt(d as i64)
    }
}

/// Whether two scalars agree within the tolerance `EPS`.
pub fn approx_eq(a: i64, b: i64) -> (r: bool)
    ensures
        r == (vstd::math::abs(a as int - b as int) <= EPS),
{
    let d: i128 = a as i128 - b as i128;
    let m: i128 = if d < 0 {
        -d
    } else {
        d
    };
    m <= EPS as i128
}

} // verus!
