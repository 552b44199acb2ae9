//! The roll range model: the worst and best value a stat can roll, the value
//! an encoded roll stands for, and how good a value is within its range.
//!
//! All of it is exact integer arithmetic: `floor(b * 1.3)` is `(13 * b) / 10`
//! with division rounding towards negative infinity, and a roll quality is a
//! fraction of the range rather than a floating-point percentage.
use vstd::math::abs;
use vstd::prelude::*;

verus! {

/// Whether a stat with this base value has a range of rolls at all.
pub open spec fn has_range(base: int, fixed: bool) -> bool {
    !fixed && !(-1 <= base <= 1)
}

/// The best roll of a stat, the value with quality 100% before inversion.
pub open spec fn max_spec(base: int, fixed: bool) -> int {
    if !has_range(base, fixed) {
        base
    } else if base < 1 {
        (7 * base) / 10
    } else {
        (13 * base) / 10
    }
}

/// The worst roll of a stat, the value with quality 0% before inversion.
pub open spec fn min_spec(base: int, fixed: bool) -> int {
    if !has_range(base, fixed) {
        base
    } else if base < 1 {
        (13 * base) / 10
    } else {
        (3 * base) / 10
    }
}

/// `n / d` rounded to the nearest integer, halves away from zero.
pub open spec fn round_div(n: int, d: int) -> int
    recommends
        d > 0,
{
    if n >= 0 {
        (n + d / 2) / d
    } else {
        -((-n + d / 2) / d)
    }
}

/// `n / d` rounded towards zero, as integer division in Rust does.
pub open spec fn trunc_div(n: int, d: int) -> int
    recommends
        d > 0,
{
    if n >= 0 {
        n / d
    } else {
        -((-n) / d)
    }
}

/// Stats whose base value lies beyond this bound store their roll as a
/// percentage of the base value.
pub const WIDE_BASE: i32 = 100;

/// Offset added to a wide-range roll so that low rolls stay non-negative.
pub const WIDE_OFFSET: i64 = 30;

/// Whether a stat's roll is stored as a scaled percentage of its base value.
pub open spec fn is_wide(base: int) -> bool {
    base > 100 || base < -100
}

/// The value that the roll integer `r` stands for on a stat.
pub open spec fn value_spec(r: int, base: int, fixed: bool) -> int {
    if is_wide(base) {
        round_div((r + 30) * base, 100)
    } else {
        r + min_spec(base, fixed)
    }
}

/// The value of a stat's best roll: its best value, or for an inverted
/// stat, where a lower value is the better roll, its worst one.
pub open spec fn target_spec(base: int, fixed: bool, inverted: bool) -> int {
    if inverted {
        min_spec(base, fixed)
    } else {
        max_spec(base, fixed)
    }
}

/// The roll integer whose value is the best roll of a stat, the one with
/// quality 100% after inversion: the value formula solved for that value,
/// rounded for a wide-range stat.
pub open spec fn best_roll_spec(base: int, fixed: bool, inverted: bool) -> int {
    let t = target_spec(base, fixed, inverted);
    if base > 100 {
        round_div(100 * t - 30 * base, base)
    } else if base < -100 {
        round_div(30 * base - 100 * t, -base)
    } else {
        t - min_spec(base, fixed)
    }
}

/// How good a value is within its range: the percentage is
/// `100 * num / den`, with `den > 0`.
#[derive(Debug, PartialEq, Eq, Structural, Clone, Copy)]
pub struct RollQuality {
    pub num: i64,
    pub den: i64,
}

/// The quality of `value` on a stat with a range; for an inverted stat it is
/// `100% - percent`.
pub open spec fn quality_spec(value: int, base: int, fixed: bool, inverted: bool) -> RollQuality {
    let den = max_spec(base, fixed) - min_spec(base, fixed);
    let num = value - min_spec(base, fixed);
    RollQuality { num: (if inverted { den - num } else { num }) as i64, den: den as i64 }
}

/// `n / 10` rounded towards negative infinity.
fn floor_div10(n: i64) -> (r: i64)
    requires
        -0x1_0000_0000_0000 <= n <= 0x1_0000_0000_0000,
    ensures
        r == n / 10,
{
    if n >= 0 {
        n / 10
    } else {
        let m: i64 = -n;
        let q: i64 = (m + 9) / 10;
        assert(-q == n / 10) by (nonlinear_arith)
            requires
                m == -n,
                m > 0,
                q == (m + 9) / 10,
        {}
        -q
    }
}

/// The best roll of a stat with base value `base`.
pub fn max_id(base: i32, fixed: bool) -> (r: i64)
    ensures
        r == max_spec(base as int, fixed),
{
    if fixed || (-1 <= base && base <= 1) {
        base as i64
    } else if base < 1 {
        floor_div10(7 * (base as i64))
    } else {
        floor_div10(13 * (base as i64))
    }
}

/// The worst roll of a stat with base value `base`.
pub fn min_id(base: i32, fixed: bool) -> (r: i64)
    ensures
        r == min_spec(base as int, fixed),
{
    if fixed || (-1 <= base && base <= 1) {
        base as i64
    } else if base < 1 {
        floor_div10(13 * (base as i64))
    } else {
        floor_div10(3 * (base as i64))
    }
}

/// `n / d` rounded to the nearest integer, halves away from zero.
fn round_div_exec(n: i64, d: i64) -> (r: i64)
    requires
        d > 0,
        d <= 0x1_0000_0000,
        -0x4100_0000_0000_0000 <= n <= 0x4100_0000_0000_0000,
    ensures
        r == round_div(n as int, d as int),
{
    if n >= 0 {
        (n + d / 2) / d
    } else {
        -((-n + d / 2) / d)
    }
}

/// The value that the roll integer `r` stands for on a stat with base value
/// `base`.
pub fn value_from_roll(r: i32, base: i32, fixed: bool) -> (v: i64)
    ensures
        v == value_spec(r as int, base as int, fixed),
        -0x4000_0000_0000_0000 <= v <= 0x4000_0000_0000_0000,
{
    if base > WIDE_BASE || base < -WIDE_BASE {
        let a: i64 = r as i64 + WIDE_OFFSET;
        let b: i64 = base as i64;
        assert(-0x4100_0000_0000_0000 <= a * b <= 0x4100_0000_0000_0000) by (nonlinear_arith)
            requires
                -0x8000_0000 <= a <= 0x8000_0000 + 30,
                -0x8000_0000 <= b <= 0x8000_0000,
        {}
        round_div_exec(a * b, 100)
    } else {
        r as i64 + min_id(base, fixed)
    }
}

/// A stat with a range has a best roll strictly above its worst roll.
pub proof fn lemma_range_positive(base: int, fixed: bool)
    requires
        has_range(base, fixed),
    ensures
        max_spec(base, fixed) - min_spec(base, fixed) >= 1,
{
}

/// The best and the worst roll lie within 1.3 times the base value.
pub proof fn lemma_range_bounds(base: int, fixed: bool)
    ensures
        -2 * abs(base) <= min_spec(base, fixed) <= 2 * abs(base),
        -2 * abs(base) <= max_spec(base, fixed) <= 2 * abs(base),
{
}

/// The quality of `value` on a stat that has a range.
pub fn quality(value: i64, base: i32, fixed: bool, inverted: bool) -> (q: RollQuality)
    requires
        has_range(base as int, fixed),
        -0x4000_0000_0000_0000 <= value <= 0x4000_0000_0000_0000,
    ensures
        q == quality_spec(value as int, base as int, fixed, inverted),
        q.den > 0,
{
    proof {
        lemma_range_positive(base as int, fixed);
        lemma_range_bounds(base as int, fixed);
    }
    let lo = min_id(base, fixed);
    let den = max_id(base, fixed) - lo;
    let num = value - lo;
    if inverted {
        RollQuality { num: den - num, den }
    } else {
        RollQuality { num, den }
    }
}

/// For a positive base value the worst roll is not above the best; where
/// there is a range (base value 2 or more), the worst roll has quality 0%
/// and the best 100%, and the other way round for an inverted stat.
pub proof fn lemma_percent_extremes(base: int, inverted: bool)
    requires
        1 <= base < 0x8000_0000,
    ensures
        min_spec(base, false) <= max_spec(base, false),
        base >= 2 ==> {
            let lo = quality_spec(min_spec(base, false), base, false, inverted);
            let hi = quality_spec(max_spec(base, false), base, false, inverted);
            &&& lo.den > 0 && hi.den > 0
            &&& lo.num == (if inverted { lo.den } else { 0 })
            &&& hi.num == (if inverted { 0 } else { hi.den })
        },
{
    if base >= 2 {
        lemma_range_positive(base, false);
        lemma_range_bounds(base, false);
    }
}

/// The best roll lies in a small band, so its encoding is always a valid
/// character.
pub proof fn lemma_best_roll_bounds(base: int, fixed: bool, inverted: bool)
    requires
        -0x8000_0000 <= base < 0x8000_0000,
    ensures
        -1 <= best_roll_spec(base, fixed, inverted) <= 400,
{
    let t = target_spec(base, fixed, inverted);
    if base > 100 {
        let n = 100 * t - 30 * base;
        assert(3 * base - 10 <= 10 * t <= 13 * base);
        assert(-100 <= n <= 100 * base) by (nonlinear_arith)
            requires
                3 * base - 10 <= 10 * t <= 13 * base,
                n == 100 * t - 30 * base,
                base > 100,
        {}
        assert(-1 <= (n + base / 2) / base <= 101) by (nonlinear_arith)
            requires
                -100 <= n <= 100 * base,
                base > 100,
        {}
        if n < 0 {
            assert(-((-n + base / 2) / base) >= -1) by (nonlinear_arith)
                requires
                    0 < -n <= 100,
                    base > 100,
            {}
        }
    } else if base < -100 {
        let n = 30 * base - 100 * t;
        let d = -base;
        assert(13 * base - 10 <= 10 * t <= 3 * base);
        assert(0 <= n <= 100 * d + 100) by (nonlinear_arith)
            requires
                13 * base - 10 <= 10 * t <= 3 * base,
                n == 30 * base - 100 * t,
                d == -base,
                base < -100,
        {}
        assert(0 <= (n + d / 2) / d <= 102) by (nonlinear_arith)
            requires
                0 <= n <= 100 * d + 100,
                d > 100,
        {}
    } else {
        lemma_range_bounds(base, fixed);
    }
}

/// The roll integer that gives the best roll of a stat.
pub fn best_roll(base: i32, fixed: bool, inverted: bool) -> (r: i64)
    ensures
        r == best_roll_spec(base as int, fixed, inverted),
        -1 <= r <= 400,
{
    proof {
        lemma_best_roll_bounds(base as int, fixed, inverted);
        lemma_range_bounds(base as int, fixed);
    }
    let t = if inverted {
        min_id(base, fixed)
    } else {
        max_id(base, fixed)
    };
    let b = base as i64;
    if base > WIDE_BASE {
        round_div_exec(100 * t - WIDE_OFFSET * b, b)
    } else if base < -WIDE_BASE {
        round_div_exec(WIDE_OFFSET * b - 100 * t, -b)
    } else {
        t - min_id(base, fixed)
    }
}

} // verus!
