//! Saturating fixed-point scalars with three fractional decimal digits.
//!
//! Every quantity of the simulation (positions, velocities, radii, hues,
//! elapsed time) is an `i64` holding one thousandth of an arena unit, kept
//! within `[-FX_MAX, FX_MAX]`. Each operation states its result exactly as a
//! clamped, truncating integer formula, so the whole engine is deterministic.

use vstd::prelude::*;
use vstd::arithmetic::div_mod::lemma_div_nonincreasing;
use vstd::arithmetic::div_mod::lemma_div_pos_is_pos;
use vstd::math::abs;

verus! {

/// Number of fixed-point steps in one arena unit.
pub const FX_ONE: i64 = 1000;

/// Largest magnitude a stored fixed-point scalar may hold.
pub const FX_MAX: i64 = 2_000_000_000;

/// A value the fixed-point range admits.
pub open spec fn in_fx(x: int) -> bool {
    -(FX_MAX as int) <= x <= FX_MAX as int
}

/// Clamp an unbounded mathematical value into the fixed-point range.
pub open spec fn fx_clamp(x: int) -> int {
    if x > FX_MAX as int {
        FX_MAX as int
    } else if x < -(FX_MAX as int) {
        -(FX_MAX as int)
    } else {
        x
    }
}

/// Truncating division (rounds toward zero), meaningful for `b > 0`.
pub open spec fn tdiv(a: int, b: int) -> int {
    if a >= 0 {
        a / b
    } else {
        -((-a) / b)
    }
}

/// What fixed-point addition returns.
pub open spec fn fx_add_s(a: int, b: int) -> int {
    fx_clamp(a + b)
}

/// What fixed-point subtraction returns.
pub open spec fn fx_sub_s(a: int, b: int) -> int {
    fx_clamp(a - b)
}

/// What fixed-point multiplication returns.
pub open spec fn fx_mul_s(a: int, b: int) -> int {
    fx_clamp(tdiv(a * b, FX_ONE as int))
}

/// What multiplication by the rational `num / den` returns.
pub open spec fn fx_frac_s(a: int, num: int, den: int) -> int {
    fx_clamp(tdiv(a * num, den))
}

/// Clamp a machine integer into the fixed-point range.
pub fn fx_clamp_exec(x: i64) -> (r: i64)
    ensures
        r == fx_clamp(x as int),
{
    if x > FX_MAX {
        FX_MAX
    } else if x < -FX_MAX {
        -FX_MAX
    } else {
        x
    }
}

/// Saturating fixed-point addition.
pub fn fx_add(a: i64, b: i64) -> (r: i64)
    requires
        in_fx(a as int),
        in_fx(b as int),
    ensures
        r == fx_add_s(a as int, b as int),
{
    fx_clamp_exec(a + b)
}

/// Saturating fixed-point subtraction.
pub fn fx_sub(a: i64, b: i64) -> (r: i64)
    requires
        in_fx(a as int),
        in_fx(b as int),
    ensures
        r == fx_sub_s(a as int, b as int),
{
    fx_clamp_exec(a - b)
}

/// Truncating division of a machine integer by a positive divisor.
pub fn div_trunc(a: i64, b: i64) -> (r: i64)
    requires
        b >= 1,
        a > i64::MIN,
    ensures
        r == tdiv(a as int, b as int),
        abs(r as int) <= abs(a as int),
{
    proof {
        lemma_div_nonincreasing(abs(a as int) as int, b as int);
        lemma_div_pos_is_pos(abs(a as int) as int, b as int);
    }
    if a >= 0 {
        let q: u64 = (a as u64) / (b as u64);
        q as i64
    } else {
        let m: i64 = -a;
        let q: u64 = (m as u64) / (b as u64);
        -(q as i64)
    }
}

/// The product of two bounded factors is bounded by the product of the bounds.
pub proof fn lemma_mul_bound(a: int, b: int, ca: int, cb: int)
    requires
        -ca <= a <= ca,
        -cb <= b <= cb,
        0 <= ca,
        0 <= cb,
    ensures
        -(ca * cb) <= a * b <= ca * cb,
{
    assert(-(ca * cb) <= a * b <= ca * cb) by (nonlinear_arith)
        requires
            -ca <= a <= ca,
            -cb <= b <= cb,
            0 <= ca,
            0 <= cb,
    ;
}

/// Saturating fixed-point multiplication.
pub fn fx_mul(a: i64, b: i64) -> (r: i64)
    requires
        in_fx(a as int),
        in_fx(b as int),
    ensures
        r == fx_mul_s(a as int, b as int),
{
    proof {
        lemma_mul_bound(a as int, b as int, FX_MAX as int, FX_MAX as int);
    }
    let p: i64 = a * b;
    fx_clamp_exec(div_trunc(p, FX_ONE))
}

/// Saturating fixed-point multiplication by a short factor, for operands
/// (such as a penetration depth or a relative velocity) that may exceed the
/// stored range before clamping.
pub fn fx_mul_wide(a: i64, n: i64) -> (r: i64)
    requires
        -8_000_000_000_000 <= a <= 8_000_000_000_000,
        -(FX_ONE as int) <= n <= FX_ONE as int,
    ensures
        r == fx_mul_s(a as int, n as int),
{
    proof {
        lemma_mul_bound(a as int, n as int, 8_000_000_000_000, FX_ONE as int);
    }
    let p: i64 = a * n;
    fx_clamp_exec(div_trunc(p, FX_ONE))
}

/// Saturating multiplication by the rational `num / den`.
pub fn fx_frac(a: i64, num: i64, den: i64) -> (r: i64)
    requires
        -8_000_000_000_000 <= a <= 8_000_000_000_000,
        1 <= num <= 1000,
        1 <= den <= 1000,
    ensures
        r == fx_frac_s(a as int, num as int, den as int),
{
    proof {
        lemma_mul_bound(a as int, num as int, 8_000_000_000_000, 1000);
    }
    let p: i64 = a * num;
    fx_clamp_exec(div_trunc(p, den))
}

/// A truncating quotient, scaled back up by the divisor, misses the dividend
/// by less than the divisor, and never overshoots away from zero.
pub proof fn lemma_tdiv_mul_range(x: int, d: int)
    requires
        d >= 1,
    ensures
        x - d + 1 <= d * tdiv(x, d) <= x + d - 1,
        x >= 0 ==> d * tdiv(x, d) <= x,
        x <= 0 ==> d * tdiv(x, d) >= x,
{
    if x >= 0 {
        vstd::arithmetic::div_mod::lemma_fundamental_div_mod(x, d);
    } else {
        vstd::arithmetic::div_mod::lemma_fundamental_div_mod(-x, d);
        let q = (-x) / d;
        assert(tdiv(x, d) == -q);
        assert(d * (-q) == -(d * q)) by (nonlinear_arith);
    }
}

/// Floor of the square root of a natural number.
pub open spec fn sqrt_floor(x: nat) -> nat
    decreases x,
{
    if x == 0 {
        0
    } else {
        let r = sqrt_floor((x - 1) as nat);
        if (r + 1) * (r + 1) <= x {
            r + 1
        } else {
            r
        }
    }
}

/// `sqrt_floor(x)` is the unique natural number whose square is at most `x`
/// while the next square is beyond `x`.
pub proof fn lemma_sqrt_floor_bounds(x: nat)
    ensures
        sqrt_floor(x) * sqrt_floor(x) <= x,
        x < (sqrt_floor(x) + 1) * (sqrt_floor(x) + 1),
    decreases x,
{
    if x == 0 {
        let s = sqrt_floor(x);
        assert(s == 0);
        assert((s + 1) * (s + 1) == 1) by (nonlinear_arith)
            requires s == 0;
    } else {
        lemma_sqrt_floor_bounds((x - 1) as nat);
        let r = sqrt_floor((x - 1) as nat);
        if (r + 1) * (r + 1) <= x {
            assert(sqrt_floor(x) == r + 1);
            assert(x - 1 < (r + 1) * (r + 1));
            assert(x == (r + 1) * (r + 1));
            assert((r + 1) * (r + 1) < (r + 2) * (r + 2)) by (nonlinear_arith);
            assert(sqrt_floor(x) * sqrt_floor(x) <= x);
            assert(x < (sqrt_floor(x) + 1) * (sqrt_floor(x) + 1));
        } else {
            assert(sqrt_floor(x) == r);
            assert(r * r <= x - 1);
            assert(sqrt_floor(x) * sqrt_floor(x) <= x);
            assert(x < (sqrt_floor(x) + 1) * (sqrt_floor(x) + 1));
        }
    }
}

/// Any natural number sitting between two consecutive squares is the floor
/// square root of everything in that gap.
pub proof fn lemma_sqrt_floor_unique(x: nat, r: nat)
    requires
        r * r <= x,
        x < (r + 1) * (r + 1),
    ensures
        r == sqrt_floor(x),
{
    let s = sqrt_floor(x);
    lemma_sqrt_floor_bounds(x);
    if r < s {
        assert((r + 1) * (r + 1) <= s * s) by (nonlinear_arith)
            requires r + 1 <= s;
    }
    if s < r {
        assert((s + 1) * (s + 1) <= r * r) by (nonlinear_arith)
            requires s + 1 <= r;
    }
}

/// A square below `x` has its root at most `sqrt_floor(x)`.
pub proof fn lemma_sqrt_floor_le(x: nat, k: nat)
    requires
        k * k <= x,
    ensures
        k <= sqrt_floor(x),
{
    let s = sqrt_floor(x);
    lemma_sqrt_floor_bounds(x);
    if s < k {
        assert((s + 1) * (s + 1) <= k * k) by (nonlinear_arith)
            requires s + 1 <= k;
    }
}

/// Floor square root by bisection.
pub fn isqrt(x: u128) -> (r: u64)
    requires
        x < 85_070_591_730_234_615_865_843_651_857_942_052_864,
    ensures
        r as nat == sqrt_floor(x as nat),
        (r as int) * (r as int) <= x as int,
        x < (r as int + 1) * (r as int + 1),
{
    let mut lo: u64 = 0;
    let mut hi: u64 = 9_223_372_036_854_775_808;
    proof {
        assert((hi as int) * (hi as int) > x as int) by (nonlinear_arith)
            requires
                hi == 9_223_372_036_854_775_808u64,
                x < 85_070_591_730_234_615_865_843_651_857_942_052_864u128,
        ;
    }
    while lo + 1 < hi
        invariant
            lo < hi,
            hi <= 9_223_372_036_854_775_808,
            (lo as int) * (lo as int) <= x as int,
            (x as int) < (hi as int) * (hi as int),
        decreases hi - lo,
    {
        let mid: u64 = lo + (hi - lo) / 2;
        proof {
            lemma_mul_bound(
                mid as int,
                mid as int,
                9_223_372_036_854_775_808,
                9_223_372_036_854_775_808,
            );
        }
        let sq: u128 = (mid as u128) * (mid as u128);
        if sq <= x {
            lo = mid;
        } else {
            hi = mid;
        }
    }
    proof {
        lemma_sqrt_floor_unique(x as nat, lo as nat);
    }
    lo
}

/// What the fixed-point square root returns: the floor square root of the
/// value rescaled so that the result is again in fixed point.
pub open spec fn fx_sqrt_s(a: int) -> int {
    sqrt_floor((a * (FX_ONE as int)) as nat) as int
}

/// Fixed-point square root of a non-negative scalar.
pub fn fx_sqrt(a: i64) -> (r: i64)
    requires
        0 <= a <= FX_MAX,
    ensures
        r == fx_sqrt_s(a as int),
        0 <= r <= 1_500_000,
{
    let x: u128 = (a as u128) * 1000;
    let s: u64 = isqrt(x);
    proof {
        if s > 1_500_000 {
            assert(1_500_000i64 * 1_500_000i64 <= (s as int) * (s as int)) by (nonlinear_arith)
                requires 1_500_000 <= s as int;
        }
    }
    s as i64
}

} // verus!
