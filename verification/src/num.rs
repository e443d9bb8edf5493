//! Q16 fixed-point helpers: clamping, truncating division by the scale,
//! saturation to the sample type, and the linear dry/wet blend.
//!
//! A sample value of `SCALE` (65536) stands for 1.0; parameters use the
//! same format. All arithmetic on samples is exact integer arithmetic,
//! with division truncating toward zero.

use vstd::arithmetic::div_mod::{
    lemma_div_is_ordered, lemma_div_multiples_vanish, lemma_div_multiples_vanish_fancy,
    lemma_div_pos_is_pos,
};
use vstd::arithmetic::mul::{lemma_mul_inequality, lemma_mul_is_commutative};
use vstd::prelude::*;

verus! {

/// Fixed-point representation of 1.0.
pub const SCALE: i64 = 65536;

/// Magnitude of an integer.
pub open spec fn abs_i(n: int) -> int {
    if n >= 0 {
        n
    } else {
        -n
    }
}

/// Larger of two integers.
pub open spec fn max_i(a: int, b: int) -> int {
    if a >= b {
        a
    } else {
        b
    }
}

/// Division truncating toward zero (the rounding every sample
/// computation uses), defined for a positive divisor.
pub open spec fn tdiv(n: int, d: int) -> int
    recommends
        d > 0,
{
    if n >= 0 {
        n / d
    } else {
        -((-n) / d)
    }
}

/// Clamping a value into `[lo, hi]`.
pub open spec fn spec_clamp(v: int, lo: int, hi: int) -> int {
    if v < lo {
        lo
    } else if v > hi {
        hi
    } else {
        v
    }
}

/// Saturation into the `i64` sample range.
pub open spec fn spec_sat(n: int) -> int {
    spec_clamp(n, i64::MIN as int, i64::MAX as int)
}

/// The linear dry/wet blend `dry * (1 - t) + wet * t` in Q16, for a
/// blend amount `t` in `[0, SCALE]`.
pub open spec fn spec_mix(dry: int, wet: int, t: int) -> int
    recommends
        0 <= t <= SCALE,
{
    tdiv(dry * (SCALE - t) + wet * t, SCALE as int)
}

/// Truncating division keeps the sign of the numerator and respects
/// multiples of the divisor as bounds: `|n| <= b * d` gives
/// `|tdiv(n, d)| <= b`.
pub proof fn lemma_tdiv_bound(n: int, d: int, b: int)
    requires
        d > 0,
        b >= 0,
        abs_i(n) <= b * d,
    ensures
        abs_i(tdiv(n, d)) <= b,
        n >= 0 ==> tdiv(n, d) >= 0,
        n <= 0 ==> tdiv(n, d) <= 0,
{
    let m = abs_i(n);
    lemma_div_pos_is_pos(m, d);
    lemma_div_is_ordered(m, b * d, d);
    lemma_mul_is_commutative(b, d);
    lemma_div_multiples_vanish(b, d);
}

/// Strict form: `|n| < b * d` gives `|tdiv(n, d)| < b`.
pub proof fn lemma_tdiv_strict_bound(n: int, d: int, b: int)
    requires
        d > 0,
        b > 0,
        abs_i(n) < b * d,
    ensures
        abs_i(tdiv(n, d)) < b,
{
    let m = abs_i(n);
    lemma_div_pos_is_pos(m, d);
    lemma_div_is_ordered(m, b * d - 1, d);
    assert(b * d - 1 == d * (b - 1) + (d - 1)) by (nonlinear_arith);
    lemma_div_multiples_vanish_fancy(b - 1, d - 1, d);
}

/// Dividing an exact multiple gives the factor back, for either sign.
pub proof fn lemma_tdiv_multiple(w: int, d: int)
    requires
        d > 0,
    ensures
        tdiv(w * d, d) == w,
{
    if w >= 0 {
        lemma_mul_is_commutative(w, d);
        lemma_div_multiples_vanish(w, d);
    } else {
        assert(-(w * d) == (-w) * d) by (nonlinear_arith);
        lemma_mul_is_commutative(-w, d);
        lemma_div_multiples_vanish(-w, d);
    }
}

/// Truncating division is monotone in the numerator.
pub proof fn lemma_tdiv_monotone(n1: int, n2: int, d: int)
    requires
        d > 0,
        n1 <= n2,
    ensures
        tdiv(n1, d) <= tdiv(n2, d),
{
    if n1 >= 0 {
        lemma_div_is_ordered(n1, n2, d);
    } else if n2 >= 0 {
        lemma_div_pos_is_pos(-n1, d);
        lemma_div_pos_is_pos(n2, d);
    } else {
        lemma_div_is_ordered(-n2, -n1, d);
    }
}

/// The blend of two values never leaves the interval they span:
/// `min(dry, wet) <= spec_mix(dry, wet, t) <= max(dry, wet)`.
pub proof fn lemma_mix_bound(dry: int, wet: int, t: int)
    requires
        0 <= t <= SCALE,
    ensures
        min_i(dry, wet) <= spec_mix(dry, wet, t) <= max_i(dry, wet),
        abs_i(spec_mix(dry, wet, t)) <= max_i(abs_i(dry), abs_i(wet)),
{
    let s = SCALE as int;
    let lo = min_i(dry, wet);
    let hi = max_i(dry, wet);
    let num = dry * (s - t) + wet * t;
    assert(lo * s <= num <= hi * s) by (nonlinear_arith)
        requires
            num == dry * (s - t) + wet * t,
            0 <= t <= s,
            lo <= dry <= hi,
            lo <= wet <= hi,
    ;
    lemma_tdiv_monotone(lo * s, num, s);
    lemma_tdiv_monotone(num, hi * s, s);
    lemma_tdiv_multiple(lo, s);
    lemma_tdiv_multiple(hi, s);
}

/// A blend amount of `SCALE` (1.0) returns the wet value exactly.
pub proof fn lemma_mix_full_wet(dry: int, wet: int)
    ensures
        spec_mix(dry, wet, SCALE as int) == wet,
{
    let s = SCALE as int;
    assert(dry * (s - s) + wet * s == wet * s) by (nonlinear_arith);
    lemma_tdiv_multiple(wet, s);
}

/// A blend amount of 0 returns the dry value exactly.
pub proof fn lemma_mix_full_dry(dry: int, wet: int)
    ensures
        spec_mix(dry, wet, 0) == dry,
{
    let s = SCALE as int;
    assert(dry * (s - 0) + wet * 0 == dry * s) by (nonlinear_arith);
    lemma_tdiv_multiple(dry, s);
}

/// Magnitudes multiply: `|a| <= ba` and `|b| <= bb` give `|a * b| <= ba * bb`.
pub proof fn lemma_mul_abs_bound(a: int, b: int, ba: int, bb: int)
    by (nonlinear_arith)
    requires
        abs_i(a) <= ba,
        abs_i(b) <= bb,
    ensures
        abs_i(a * b) <= ba * bb,
{
}

/// One step of a one-pole lowpass, `prev + tdiv(alpha * (target - prev),
/// SCALE)` with `0 <= alpha <= SCALE`, lands between `prev` and `target`.
pub proof fn lemma_lowpass_between(prev: int, target: int, alpha: int)
    requires
        0 <= alpha <= SCALE,
    ensures
        ({
            let next = prev + tdiv(alpha * (target - prev), SCALE as int);
            min_i(prev, target) <= next <= max_i(prev, target)
        }),
{
    let s = SCALE as int;
    let diff = target - prev;
    assert(abs_i(alpha * diff) <= abs_i(diff) * s) by (nonlinear_arith)
        requires
            0 <= alpha <= s,
    ;
    lemma_tdiv_bound(alpha * diff, s, abs_i(diff));
    let step = tdiv(alpha * diff, s);
    if diff >= 0 {
        assert(alpha * diff >= 0) by (nonlinear_arith)
            requires
                alpha >= 0,
                diff >= 0,
        ;
        assert(0 <= step <= diff);
    } else {
        assert(alpha * diff <= 0) by (nonlinear_arith)
            requires
                alpha >= 0,
                diff <= 0,
        ;
        assert(diff <= step <= 0);
    }
}

/// Smaller of two integers.
pub open spec fn min_i(a: int, b: int) -> int {
    if a <= b {
        a
    } else {
        b
    }
}

/// Bounds a parameter into `[min_v, max_v]`, as every effect does with
/// its three slot parameters before using them.
pub fn clamp(value: i64, min_v: i64, max_v: i64) -> (r: i64)
    requires
        min_v <= max_v,
    ensures
        r as int == spec_clamp(value as int, min_v as int, max_v as int),
{
    if value < min_v {
        min_v
    } else if value > max_v {
        max_v
    } else {
        value
    }
}

/// Truncating division of a wide intermediate by a positive divisor.
pub fn tdiv128(n: i128, d: i128) -> (r: i128)
    requires
        d > 0,
        i128::MIN < n,
    ensures
        r as int == tdiv(n as int, d as int),
        abs_i(r as int) <= abs_i(n as int),
{
    proof {
        lemma_div_pos_is_pos(abs_i(n as int), d as int);
        lemma_div_is_ordered_by_denom(abs_i(n as int), d as int);
    }
    if n >= 0 {
        let q: u128 = (n as u128) / (d as u128);
        q as i128
    } else {
        let m: i128 = -n;
        let q: u128 = (m as u128) / (d as u128);
        -(q as i128)
    }
}

/// A quotient by a positive divisor is no larger than the dividend.
proof fn lemma_div_is_ordered_by_denom(x: int, d: int)
    requires
        0 <= x,
        1 <= d,
    ensures
        x / d <= x,
{
    vstd::arithmetic::div_mod::lemma_div_is_ordered_by_denominator(x, 1, d);
}

/// Saturates a wide intermediate into the `i64` sample range.
pub fn sat64(n: i128) -> (r: i64)
    ensures
        r as int == spec_sat(n as int),
{
    if n > i64::MAX as i128 {
        i64::MAX
    } else if n < i64::MIN as i128 {
        i64::MIN
    } else {
        n as i64
    }
}

/// The linear dry/wet blend in Q16: `dry` at `t == 0`, `wet` at
/// `t == SCALE`, a linear interpolation in between.
pub fn mix(dry: i64, wet: i64, t: i64) -> (r: i64)
    requires
        0 <= t <= SCALE,
    ensures
        r as int == spec_mix(dry as int, wet as int, t as int),
{
    let s = SCALE as i128;
    proof {
        lemma_mul_abs_bound(dry as int, (SCALE - t) as int, abs_i(dry as int), SCALE as int);
        lemma_mul_abs_bound(wet as int, t as int, abs_i(wet as int), SCALE as int);
        lemma_mul_inequality(abs_i(dry as int), i64::MAX as int + 1, SCALE as int);
        lemma_mul_inequality(abs_i(wet as int), i64::MAX as int + 1, SCALE as int);
        lemma_mix_bound(dry as int, wet as int, t as int);
    }
    let num: i128 = (dry as i128) * (s - t as i128) + (wet as i128) * (t as i128);
    let q = tdiv128(num, s);
    proof {
        assert(min_i(dry as int, wet as int) <= q as int <= max_i(dry as int, wet as int));
    }
    q as i64
}

} // verus!
