//! Integer rounding helpers shared by the rasterizers.
//!
//! The line rasterizers are specified through two rounded quotients: the
//! quotient rounded to the nearest integer with ties away from zero (the
//! rounding every intermediate DDA position goes through) and the quotient
//! rounded up (the closed form of the minor-axis offsets that the
//! error-accumulation algorithms step through).

use vstd::prelude::*;
use vstd::arithmetic::div_mod::lemma_fundamental_div_mod;
use vstd::arithmetic::div_mod::lemma_fundamental_div_mod_converse;
use vstd::arithmetic::div_mod::lemma_mod_bound;

verus! {

/// Absolute value.
pub open spec fn abs_val(a: int) -> int {
    if a >= 0 {
        a
    } else {
        -a
    }
}

/// The positive part of an integer; serves as a termination measure.
pub open spec fn pos_part(a: int) -> int {
    if a > 0 {
        a
    } else {
        0
    }
}

/// The quotient `n / d` rounded to the nearest integer, ties away from zero.
pub open spec fn div_round_half(n: int, d: int) -> int
    recommends
        d > 0,
{
    if n >= 0 {
        (2 * n + d) / (2 * d)
    } else {
        -((d - 2 * n) / (2 * d))
    }
}

/// The quotient `n / d` rounded up.
pub open spec fn div_ceil(n: int, d: int) -> int
    recommends
        d > 0,
{
    if n >= 0 {
        (n + d - 1) / d
    } else {
        -((-n) / d)
    }
}

/// The flooring quotient scaled back by the divisor lands in `(x - d, x]`.
proof fn lemma_floor_window(x: int, d: int)
    requires
        d > 0,
    ensures
        d * (x / d) <= x,
        x < d * (x / d) + d,
{
    lemma_fundamental_div_mod(x, d);
    lemma_mod_bound(x, d);
}

/// `q` is the flooring quotient of `x` by `d` exactly when `d * q`
/// lands in the window `(x - d, x]`.
proof fn lemma_floor_unique(x: int, d: int, q: int)
    requires
        d > 0,
        d * q <= x,
        x < d * q + d,
    ensures
        x / d == q,
{
    lemma_floor_window(x, d);
    let qf = x / d;
    if q < qf {
        assert(d * qf >= d * q + d) by (nonlinear_arith)
            requires
                d > 0,
                q + 1 <= qf,
        ;
    }
    if q > qf {
        assert(d * q >= d * qf + d) by (nonlinear_arith)
            requires
                d > 0,
                qf + 1 <= q,
        ;
    }
}

/// The rounded-up quotient scaled back by the divisor lands in `[n, n + d)`.
pub proof fn lemma_div_ceil_window(n: int, d: int)
    requires
        d > 0,
    ensures
        d * div_ceil(n, d) >= n,
        d * div_ceil(n, d) < n + d,
{
    if n >= 0 {
        lemma_floor_window(n + d - 1, d);
    } else {
        let qn = (-n) / d;
        lemma_floor_window(-n, d);
        assert(d * (-qn) == -(d * qn)) by (nonlinear_arith);
    }
}

/// `q` is the rounded-up quotient of `n` by `d` exactly when `d * q`
/// lands in the window `[n, n + d)`.
pub proof fn lemma_div_ceil_unique(n: int, d: int, q: int)
    requires
        d > 0,
        d * q >= n,
        d * q < n + d,
    ensures
        div_ceil(n, d) == q,
{
    lemma_div_ceil_window(n, d);
    let qc = div_ceil(n, d);
    if q < qc {
        assert(d * qc >= d * q + d) by (nonlinear_arith)
            requires
                d > 0,
                q + 1 <= qc,
        ;
    }
    if q > qc {
        assert(d * q >= d * qc + d) by (nonlinear_arith)
            requires
                d > 0,
                qc + 1 <= q,
        ;
    }
}

/// Multiplying by a unit step sign either keeps or negates a value.
pub proof fn lemma_mul_unit(s: int, a: int)
    requires
        s == 1 || s == -1,
    ensures
        s == 1 ==> s * a == a,
        s == -1 ==> s * a == -a,
{
    assert(1 * a == a) by (nonlinear_arith);
    assert((-1) * a == -a) by (nonlinear_arith);
}

/// Computes the quotient rounded to the nearest integer, ties away from
/// zero, the rounding every intermediate DDA position goes through.
pub fn round_div(n: i128, d: i128) -> (q: i128)
    requires
        d > 0,
        -0x1_0000_0000_0000_0000_0000 <= n <= 0x1_0000_0000_0000_0000_0000,
        d <= 0x1_0000_0000_0000_0000_0000,
    ensures
        q == div_round_half(n as int, d as int),
{
    if n >= 0 {
        let nn: u128 = n as u128;
        let dd: u128 = d as u128;
        let q: u128 = (2 * nn + dd) / (2 * dd);
        proof {
            vstd::arithmetic::div_mod::lemma_div_nonincreasing(
                (2 * nn + dd) as int,
                (2 * dd) as int,
            );
        }
        q as i128
    } else {
        let nn: u128 = (-n) as u128;
        let dd: u128 = d as u128;
        let q: u128 = (2 * nn + dd) / (2 * dd);
        proof {
            vstd::arithmetic::div_mod::lemma_div_nonincreasing(
                (2 * nn + dd) as int,
                (2 * dd) as int,
            );
            assert(d as int - 2 * (n as int) == (2 * nn + dd) as int);
        }
        -(q as i128)
    }
}

/// Unless the numerator sits exactly at a tie (`n` congruent to `d`
/// modulo `2d`), shifting it up by `d` and rounding down agrees with
/// shifting it down by `d` and rounding up.
pub proof fn lemma_floor_ceil_shift(n: int, d: int)
    requires
        d > 0,
        n % (2 * d) != d,
    ensures
        (n + d) / (2 * d) == div_ceil(n - d, 2 * d),
{
    let dd = 2 * d;
    let q = (n + d) / dd;
    let r = (n + d) % dd;
    lemma_fundamental_div_mod(n + d, dd);
    lemma_mod_bound(n + d, dd);
    if r == 0 {
        assert((q - 1) * dd == dd * q - dd) by (nonlinear_arith);
        lemma_fundamental_div_mod_converse(n, dd, q - 1, d);
        assert(false);
    } else {
        lemma_div_ceil_unique(n - d, dd, q);
    }
}

/// The rounded-up quotient of `a * d - m` is `a` minus the flooring
/// quotient of `m`.
pub proof fn lemma_ceil_complement(a: int, m: int, d: int)
    requires
        d > 0,
    ensures
        div_ceil(a * d - m, d) == a - m / d,
{
    let q = m / d;
    lemma_fundamental_div_mod(m, d);
    lemma_mod_bound(m, d);
    assert(d * (a - q) == a * d - d * q) by (nonlinear_arith);
    lemma_div_ceil_unique(a * d - m, d, a - q);
}

/// Rounding to nearest is an odd function of the numerator.
pub proof fn lemma_div_round_half_neg(n: int, d: int)
    requires
        d > 0,
    ensures
        div_round_half(-n, d) == -div_round_half(n, d),
{
    if n == 0 {
        lemma_floor_unique(d, 2 * d, 0);
    }
}

/// Rounding an exact multiple of the divisor gives the multiplier.
pub proof fn lemma_div_round_half_exact(a: int, d: int)
    requires
        d > 0,
    ensures
        div_round_half(a * d, d) == a,
{
    if a >= 0 {
        assert(a * d >= 0) by (nonlinear_arith)
            requires
                a >= 0,
                d > 0,
        ;
        assert((2 * d) * a == 2 * (a * d)) by (nonlinear_arith);
        lemma_floor_unique(2 * (a * d) + d, 2 * d, a);
    } else {
        assert(a * d < 0) by (nonlinear_arith)
            requires
                a < 0,
                d > 0,
        ;
        assert((2 * d) * (-a) == -(2 * (a * d))) by (nonlinear_arith);
        lemma_floor_unique(d - 2 * (a * d), 2 * d, -a);
    }
}

/// With a numerator between `0` and `m * d`, the nearest-integer quotient
/// stays between `0` and `m`.
pub proof fn lemma_div_round_half_bounds(n: int, d: int, m: int)
    requires
        d > 0,
        0 <= n,
        n <= m * d,
    ensures
        0 <= div_round_half(n, d),
        div_round_half(n, d) <= m,
{
    let q = (2 * n + d) / (2 * d);
    lemma_floor_window(2 * n + d, 2 * d);
    if q < 0 {
        assert((2 * d) * q <= -(2 * d)) by (nonlinear_arith)
            requires
                d > 0,
                q <= -1,
        ;
    }
    if q > m {
        assert((2 * d) * q >= 2 * (m * d) + 2 * d) by (nonlinear_arith)
            requires
                d > 0,
                m + 1 <= q,
        ;
    }
}

} // verus!
