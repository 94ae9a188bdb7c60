//! The waveshapers: pure functions that bound a sample into the range from
//! -1.0 to 1.0, and the closed set that selects among them.
//!
//! Each function is specified by the exact value of its formula over the
//! rationals, rounded toward zero to the next billionth. The sine and the
//! cosine are specified by the series of the sine, in the arithmetic of the
//! format.

use crate::fixed::{
    abs_spec, clamp, clamp_spec, div_trunc, isqrt, lemma_div_trunc_at_least, lemma_div_trunc_odd,
    lemma_div_trunc_within, lemma_mul_ordered, lemma_mul_unit, lemma_sqrt_exists, magnitude,
    modulo, mul_div, mul_div_spec, multiply, multiply_spec, sqrt_spec, ONE,
};
use vstd::arithmetic::div_mod::{
    lemma_div_is_ordered, lemma_div_multiples_vanish, lemma_fundamental_div_mod,
    lemma_mod_add_multiples_vanish, lemma_mod_bound, lemma_mod_multiples_vanish, lemma_small_mod,
};
use vstd::prelude::*;

verus! {

/// The waveshaping curves, in the order of their ordinals.
#[derive(Clone, Copy, PartialEq, Eq, Structural, Debug)]
pub enum DistortionAlgorithm {
    SoftClip,
    HardClip,
    Radial,
    Chomper,
    Sine,
    Stepper,
    Humpback,
    Absolute,
}

/// The number of waveshaping curves.
pub const ALGORITHM_COUNT: usize = 8;

/// `x` limited to the range from -1.0 to 1.0.
pub open spec fn hard_clip_spec(x: int) -> int {
    clamp_spec(x, -(ONE as int), ONE as int)
}

/// `1.5 * (c - c^3 / 3)` for the clipped input `c`.
pub open spec fn soft_clip_spec(x: int) -> int {
    let c = hard_clip_spec(x);
    div_trunc(3 * c * ONE * ONE - c * c * c, 2 * ONE * ONE)
}

/// A quarter circle on each side of zero: `sign(c) * sqrt(1 - (c - sign(c))^2)`
/// for the clipped input `c`, and 0 at 0.
pub open spec fn radial_spec(x: int) -> int {
    let c = hard_clip_spec(x);
    if x == 0 {
        0
    } else if x > 0 {
        sqrt_spec(ONE * ONE - (c - ONE) * (c - ONE))
    } else {
        -sqrt_spec(ONE * ONE - (c + ONE) * (c + ONE))
    }
}

/// `1.5 * x - 0.7 * x^3`, clipped.
pub open spec fn chomper_spec(x: int) -> int {
    hard_clip_spec(div_trunc(15 * x * ONE * ONE - 7 * x * x * x, 10 * ONE * ONE))
}

/// Half of pi.
pub const HALF_PI: i64 = 1_570_796_327;

/// One factor of the nested series of the sine: `1 - y2 * inner / divisor`.
pub open spec fn series_step(y2: int, inner: int, divisor: int) -> int {
    ONE - mul_div_spec(y2, inner, divisor * ONE)
}

/// The sine of `t` quarter turns for `t` from 0 to 1.0, by the series of
/// the sine up to the 13th power of the angle `y = pi / 2 * t`:
/// `y * (1 - y^2/6 * (1 - y^2/20 * (1 - y^2/42 * (1 - y^2/72 * (1 - y^2/110
/// * (1 - y^2/156))))))`, kept between 0 and 1.0.
pub open spec fn quarter_wave_spec(t: int) -> int {
    let y = multiply_spec(t, HALF_PI as int);
    let y2 = multiply_spec(y, y);
    let v6 = series_step(y2, ONE as int, 156);
    let v5 = series_step(y2, v6, 110);
    let v4 = series_step(y2, v5, 72);
    let v3 = series_step(y2, v4, 42);
    let v2 = series_step(y2, v3, 20);
    let v1 = series_step(y2, v2, 6);
    clamp_spec(multiply_spec(y, v1), 0, ONE as int)
}

/// The sine of `t` quarter turns for `t` from 0 to 2.0: the second quarter
/// mirrors the first.
pub open spec fn half_wave_spec(t: int) -> int {
    if t <= ONE {
        quarter_wave_spec(t)
    } else {
        quarter_wave_spec(2 * ONE - t)
    }
}

/// `sin(pi / 2 * x)`: the sine of `x` quarter turns. The input is reduced
/// to one period of 4.0; the second half of the period mirrors the first.
pub open spec fn sine_spec(x: int) -> int {
    let m = x % (4 * ONE);
    if m <= 2 * ONE {
        half_wave_spec(m)
    } else {
        -half_wave_spec(m - 2 * ONE)
    }
}

/// `cos(2 * pi * x)`: the cosine of `x` turns, which is the sine of
/// `4 * x + 1` quarter turns.
pub open spec fn cosine_spec(x: int) -> int {
    sine_spec(4 * x + ONE)
}

/// `0.5 * (x * cos(2 * pi * x) + x)`, clipped.
pub open spec fn stepper_spec(x: int) -> int {
    hard_clip_spec(div_trunc(x * (cosine_spec(x) + ONE), 2 * ONE))
}

/// `0.14 * x^5 - 1.15 * x^3 + 1.9 * x`, clipped. The polynomial is taken as
/// `x * (0.14 * u^2 - 1.15 * u + 1.9)` with the square `u` of `x` rounded
/// to the next billionth first.
pub open spec fn humpback_spec(x: int) -> int {
    let u = (x * x) / (ONE as int);
    hard_clip_spec(
        div_trunc(x * (14 * u * u - 115 * u * ONE + 190 * ONE * ONE), 100 * ONE * ONE),
    )
}

/// The magnitude of `x`, clipped.
pub open spec fn absolute_spec(x: int) -> int {
    hard_clip_spec(abs_spec(x))
}

impl DistortionAlgorithm {
    /// The ordinal of the curve, from 0.
    pub open spec fn index_spec(self) -> int {
        match self {
            DistortionAlgorithm::SoftClip => 0,
            DistortionAlgorithm::HardClip => 1,
            DistortionAlgorithm::Radial => 2,
            DistortionAlgorithm::Chomper => 3,
            DistortionAlgorithm::Sine => 4,
            DistortionAlgorithm::Stepper => 5,
            DistortionAlgorithm::Humpback => 6,
            DistortionAlgorithm::Absolute => 7,
        }
    }

    /// The curve with the ordinal `id`; an ordinal out of range gives the
    /// first curve.
    pub open spec fn from_index_spec(id: int) -> DistortionAlgorithm {
        if id == 1 {
            DistortionAlgorithm::HardClip
        } else if id == 2 {
            DistortionAlgorithm::Radial
        } else if id == 3 {
            DistortionAlgorithm::Chomper
        } else if id == 4 {
            DistortionAlgorithm::Sine
        } else if id == 5 {
            DistortionAlgorithm::Stepper
        } else if id == 6 {
            DistortionAlgorithm::Humpback
        } else if id == 7 {
            DistortionAlgorithm::Absolute
        } else {
            DistortionAlgorithm::SoftClip
        }
    }

    /// What the curve makes of the sample `x`.
    pub open spec fn calculate_spec(self, x: int) -> int {
        match self {
            DistortionAlgorithm::SoftClip => soft_clip_spec(x),
            DistortionAlgorithm::HardClip => hard_clip_spec(x),
            DistortionAlgorithm::Radial => radial_spec(x),
            DistortionAlgorithm::Chomper => chomper_spec(x),
            DistortionAlgorithm::Sine => sine_spec(x),
            DistortionAlgorithm::Stepper => stepper_spec(x),
            DistortionAlgorithm::Humpback => humpback_spec(x),
            DistortionAlgorithm::Absolute => absolute_spec(x),
        }
    }

    /// The curve with the ordinal `id`; an ordinal out of range gives the
    /// first curve.
    pub fn from_index(id: usize) -> (a: DistortionAlgorithm)
        ensures
            a == Self::from_index_spec(id as int),
            id < ALGORITHM_COUNT ==> a.index_spec() == id,
    {
        if id == 1 {
            DistortionAlgorithm::HardClip
        } else if id == 2 {
            DistortionAlgorithm::Radial
        } else if id == 3 {
            DistortionAlgorithm::Chomper
        } else if id == 4 {
            DistortionAlgorithm::Sine
        } else if id == 5 {
            DistortionAlgorithm::Stepper
        } else if id == 6 {
            DistortionAlgorithm::Humpback
        } else if id == 7 {
            DistortionAlgorithm::Absolute
        } else {
            DistortionAlgorithm::SoftClip
        }
    }

    /// The ordinal of the curve, from 0.
    pub fn to_index(self) -> (id: usize)
        ensures
            id == self.index_spec(),
            id < ALGORITHM_COUNT,
            Self::from_index_spec(id as int) == self,
    {
        match self {
            DistortionAlgorithm::SoftClip => 0,
            DistortionAlgorithm::HardClip => 1,
            DistortionAlgorithm::Radial => 2,
            DistortionAlgorithm::Chomper => 3,
            DistortionAlgorithm::Sine => 4,
            DistortionAlgorithm::Stepper => 5,
            DistortionAlgorithm::Humpback => 6,
            DistortionAlgorithm::Absolute => 7,
        }
    }
}

impl From<usize> for DistortionAlgorithm {
    /// The curve with the ordinal `id`; an ordinal out of range gives the
    /// first curve.
    fn from(id: usize) -> (algorithm: DistortionAlgorithm) {
        DistortionAlgorithm::from_index(id)
    }
}

impl vstd::std_specs::convert::FromSpecImpl<usize> for DistortionAlgorithm {
    open spec fn obeys_from_spec() -> bool {
        true
    }

    open spec fn from_spec(id: usize) -> DistortionAlgorithm {
        DistortionAlgorithm::from_index_spec(id as int)
    }
}

impl From<DistortionAlgorithm> for usize {
    /// The ordinal of the curve, from 0.
    fn from(algorithm: DistortionAlgorithm) -> (id: usize) {
        algorithm.to_index()
    }
}

impl vstd::std_specs::convert::FromSpecImpl<DistortionAlgorithm> for usize {
    open spec fn obeys_from_spec() -> bool {
        true
    }

    open spec fn from_spec(algorithm: DistortionAlgorithm) -> usize {
        algorithm.index_spec() as usize
    }
}

/// `x` limited to the range from -1.0 to 1.0.
pub fn hard_clip(x: i64) -> (y: i64)
    ensures
        y == hard_clip_spec(x as int),
        -ONE <= y <= ONE,
{
    clamp(x, -ONE, ONE)
}

/// The magnitude of `x`, clipped.
pub fn absolute(x: i64) -> (y: i64)
    ensures
        y == absolute_spec(x as int),
        0 <= y <= ONE,
{
    let m: u64 = magnitude(x);
    if m > ONE as u64 {
        ONE
    } else {
        m as i64
    }
}

/// `(s - c)^2 * (2 * s + c)` multiplied out: `2 * s^3 - 3 * s^2 * c + c^3`.
proof fn lemma_cubic_factors(c: int, s: int)
    ensures
        (s - c) * (s - c) * (2 * s + c) == s * (2 * s * s) - (3 * c * s * s - c * c * c),
{
    let ss = s * s;
    let sc = s * c;
    let cc = c * c;
    assert((s - c) * (s - c) == ss - 2 * sc + cc) by (nonlinear_arith)
        requires
            ss == s * s,
            sc == s * c,
            cc == c * c,
    ;
    assert((ss - 2 * sc + cc) * (2 * s + c) == 2 * (ss * s) + ss * c - 4 * (sc * s) - 2 * (sc * c)
        + 2 * (cc * s) + cc * c) by (nonlinear_arith);
    assert(sc * s == ss * c) by (nonlinear_arith)
        requires
            ss == s * s,
            sc == s * c,
    ;
    assert(sc * c == cc * s) by (nonlinear_arith)
        requires
            cc == c * c,
            sc == s * c,
    ;
    assert(s * (2 * s * s) == 2 * (ss * s)) by (nonlinear_arith)
        requires
            ss == s * s,
    ;
    assert(3 * c * s * s == 3 * (ss * c)) by (nonlinear_arith)
        requires
            ss == s * s,
    ;
    assert(c * c * c == cc * c);
}

/// The cubic of the soft clipper stays within 2.0 on the clipped range.
proof fn lemma_soft_cubic(c: int, s: int)
    requires
        s > 0,
        -s <= c <= s,
    ensures
        -(s * (2 * s * s)) <= 3 * c * s * s - c * c * c <= s * (2 * s * s),
{
    lemma_cubic_factors(c, s);
    assert((s - c) * (s - c) >= 0) by (nonlinear_arith);
    assert((s - c) * (s - c) * (2 * s + c) >= 0) by (nonlinear_arith)
        requires
            (s - c) * (s - c) >= 0,
            2 * s + c >= 0,
    ;
    lemma_cubic_factors(-c, s);
    assert(3 * (-c) * s * s - (-c) * (-c) * (-c) == -(3 * c * s * s - c * c * c))
        by (nonlinear_arith);
    assert((s + c) * (s + c) >= 0) by (nonlinear_arith);
    assert((s - (-c)) * (s - (-c)) * (2 * s + (-c)) >= 0) by (nonlinear_arith)
        requires
            (s + c) * (s + c) >= 0,
            2 * s - c >= 0,
    ;
}

/// `1.5 * (c - c^3 / 3)` for the clipped input `c`.
pub fn soft_clip(x: i64) -> (y: i64)
    ensures
        y == soft_clip_spec(x as int),
        -ONE <= y <= ONE,
{
    let c: i128 = hard_clip(x) as i128;
    proof {
        lemma_soft_cubic(c as int, ONE as int);
        assert(0 <= c * c <= 1_000_000_000_000_000_000) by (nonlinear_arith)
            requires
                -1_000_000_000 <= c <= 1_000_000_000,
        ;
        assert(-1_000_000_000_000_000_000_000_000_000 <= c * c * c
            <= 1_000_000_000_000_000_000_000_000_000) by (nonlinear_arith)
            requires
                -1_000_000_000 <= c <= 1_000_000_000,
                0 <= c * c <= 1_000_000_000_000_000_000,
        ;
        lemma_div_trunc_within(
            3 * c * ONE * ONE - c * c * c,
            2 * ONE * ONE,
            ONE as int,
        );
    }
    let cube: i128 = c * c * c;
    let num: i128 = 3_000_000_000_000_000_000 * c - cube;
    let y: i128 = num / 2_000_000_000_000_000_000;
    y as i64
}

/// Beyond 2.0 the cubic of the chomper is below -1.0.
proof fn lemma_chomper_tail(x: int, s: int)
    requires
        s > 0,
        x >= 2 * s,
    ensures
        15 * x * s * s - 7 * x * x * x <= -(s * (10 * s * s)),
{
    assert(7 * x * x - 15 * s * s >= 13 * s * s) by (nonlinear_arith)
        requires
            x >= 2 * s,
            s > 0,
    ;
    assert(x * (7 * x * x - 15 * s * s) >= (2 * s) * (13 * s * s)) by (nonlinear_arith)
        requires
            x >= 2 * s,
            s > 0,
            7 * x * x - 15 * s * s >= 13 * s * s,
    ;
    assert(x * (7 * x * x - 15 * s * s) == 7 * x * x * x - 15 * x * s * s) by (nonlinear_arith);
    assert((2 * s) * (13 * s * s) >= s * (10 * s * s)) by (nonlinear_arith)
        requires
            s > 0,
    ;
}

/// From 2.0 on the chomper gives -1.0, and up to -2.0 it gives 1.0.
proof fn lemma_chomper_saturated(x: int)
    ensures
        x >= 2 * ONE ==> chomper_spec(x) == -ONE,
        x <= -2 * ONE ==> chomper_spec(x) == ONE,
{
    let d = 10 * ONE * ONE;
    if x >= 2 * ONE {
        lemma_chomper_tail(x, ONE as int);
        let num = 15 * x * ONE * ONE - 7 * x * x * x;
        lemma_div_trunc_at_least(-num, d, ONE as int);
        lemma_div_trunc_odd(num, d);
    } else if x <= -2 * ONE {
        lemma_chomper_tail(-x, ONE as int);
        let num = 15 * x * ONE * ONE - 7 * x * x * x;
        assert(15 * (-x) * ONE * ONE - 7 * (-x) * (-x) * (-x) == -num) by (nonlinear_arith)
            requires
                num == 15 * x * ONE * ONE - 7 * x * x * x,
        ;
        lemma_div_trunc_at_least(num, d, ONE as int);
    }
}

/// `1.5 * x - 0.7 * x^3`, clipped.
pub fn chomper(x: i64) -> (y: i64)
    ensures
        y == chomper_spec(x as int),
        -ONE <= y <= ONE,
{
    proof {
        lemma_chomper_saturated(x as int);
    }
    if x >= 2 * ONE {
        -ONE
    } else if x <= -2 * ONE {
        ONE
    } else {
        let c: i128 = x as i128;
        proof {
            assert(0 <= c * c <= 4_000_000_000_000_000_000) by (nonlinear_arith)
                requires
                    -2_000_000_000 <= c <= 2_000_000_000,
            ;
            assert(-8_000_000_000_000_000_000_000_000_000 <= c * c * c
                <= 8_000_000_000_000_000_000_000_000_000) by (nonlinear_arith)
                requires
                    -2_000_000_000 <= c <= 2_000_000_000,
                    0 <= c * c <= 4_000_000_000_000_000_000,
            ;
            assert(7 * c * c * c == 7 * (c * c * c)) by (nonlinear_arith);
        }
        let cube: i128 = c * c * c;
        let num: i128 = 15_000_000_000_000_000_000 * c - 7 * cube;
        let q: i128 = num / 10_000_000_000_000_000_000;
        if q > ONE as i128 {
            ONE
        } else if q < -(ONE as i128) {
            -ONE
        } else {
            q as i64
        }
    }
}

/// A quarter circle on each side of zero: `sign(c) * sqrt(1 - (c - sign(c))^2)`
/// for the clipped input `c`, and 0 at 0.
pub fn radial(x: i64) -> (y: i64)
    ensures
        y == radial_spec(x as int),
        -ONE <= y <= ONE,
{
    if x == 0 {
        return 0;
    }
    let c: i64 = hard_clip(x);
    let d: u64 = if x > 0 {
        (ONE - c) as u64
    } else {
        (c + ONE) as u64
    };
    proof {
        assert(0 <= d * d < 1_000_000_000_000_000_000) by (nonlinear_arith)
            requires
                0 <= d < 1_000_000_000,
        ;
        assert((c - ONE) * (c - ONE) == (ONE - c) * (ONE - c)) by (nonlinear_arith);
    }
    let n: u64 = 1_000_000_000_000_000_000 - d * d;
    let r: u64 = isqrt(n);
    proof {
        assert(r <= 1_000_000_000) by (nonlinear_arith)
            requires
                0 <= r,
                r * r <= 1_000_000_000_000_000_000,
        ;
    }
    if x > 0 {
        r as i64
    } else {
        -(r as i64)
    }
}

/// A factor of the series stays between 0.5 and 1.0 as long as the square
/// of the angle is at most 3.0.
proof fn lemma_series_step(y2: int, inner: int, divisor: int)
    requires
        0 <= y2 <= 3 * ONE,
        0 <= inner <= ONE,
        divisor >= 6,
    ensures
        ONE / 2 <= series_step(y2, inner, divisor) <= ONE,
{
    let half = ONE / 2;
    assert(0 <= y2 * inner <= half * (divisor * ONE)) by (nonlinear_arith)
        requires
            0 <= y2 <= 3 * ONE,
            0 <= inner <= ONE,
            divisor >= 6,
            half == 500_000_000,
            ONE == 1_000_000_000,
    ;
    lemma_div_trunc_within(y2 * inner, divisor * ONE, half);
    lemma_div_is_ordered(0, y2 * inner, divisor * ONE);
}

/// For a quarter turn at most, the angle is at most half of pi and its
/// square at most 3.0.
proof fn lemma_angle_range(t: int)
    requires
        0 <= t <= ONE,
    ensures
        0 <= multiply_spec(t, HALF_PI as int) <= HALF_PI,
        0 <= multiply_spec(multiply_spec(t, HALF_PI as int), multiply_spec(t, HALF_PI as int)) <= 3
            * ONE,
{
    let y = multiply_spec(t, HALF_PI as int);
    lemma_mul_ordered(t, HALF_PI as int, ONE as int, HALF_PI as int);
    lemma_mul_ordered(0, 0, t, HALF_PI as int);
    lemma_mul_unit(HALF_PI as int);
    lemma_mul_ordered(y, y, HALF_PI as int, HALF_PI as int);
    lemma_mul_ordered(0, 0, y, y);
    assert(multiply_spec(HALF_PI as int, HALF_PI as int) == 2_467_401_100);
}

/// The sine of `t` quarter turns for `t` from 0 to 1.0.
fn quarter_wave(t: i64) -> (y: i64)
    requires
        0 <= t <= ONE,
    ensures
        y == quarter_wave_spec(t as int),
        0 <= y <= ONE,
{
    let angle: i64 = multiply(t, HALF_PI);
    let square: i64 = multiply(angle, angle);
    proof {
        lemma_angle_range(t as int);
        lemma_series_step(square as int, ONE as int, 156);
    }
    let v6: i64 = ONE - mul_div(square, ONE, 156 * ONE);
    proof {
        lemma_series_step(square as int, v6 as int, 110);
    }
    let v5: i64 = ONE - mul_div(square, v6, 110 * ONE);
    proof {
        lemma_series_step(square as int, v5 as int, 72);
    }
    let v4: i64 = ONE - mul_div(square, v5, 72 * ONE);
    proof {
        lemma_series_step(square as int, v4 as int, 42);
    }
    let v3: i64 = ONE - mul_div(square, v4, 42 * ONE);
    proof {
        lemma_series_step(square as int, v3 as int, 20);
    }
    let v2: i64 = ONE - mul_div(square, v3, 20 * ONE);
    proof {
        lemma_series_step(square as int, v2 as int, 6);
    }
    let v1: i64 = ONE - mul_div(square, v2, 6 * ONE);
    clamp(multiply(angle, v1), 0, ONE)
}

/// The sine of `t` quarter turns for `t` from 0 to 2.0.
fn half_wave(t: i64) -> (y: i64)
    requires
        0 <= t <= 2 * ONE,
    ensures
        y == half_wave_spec(t as int),
        0 <= y <= ONE,
{
    if t <= ONE {
        quarter_wave(t)
    } else {
        quarter_wave(2 * ONE - t)
    }
}

/// `sin(pi / 2 * x)`: the sine of `x` quarter turns.
pub fn sine(x: i64) -> (y: i64)
    ensures
        y == sine_spec(x as int),
        -ONE <= y <= ONE,
{
    let m: i64 = modulo(x, 4 * ONE);
    if m <= 2 * ONE {
        half_wave(m)
    } else {
        -half_wave(m - 2 * ONE)
    }
}

/// `cos(2 * pi * x)`: the cosine of `x` turns.
pub fn cosine(x: i64) -> (y: i64)
    ensures
        y == cosine_spec(x as int),
        -ONE <= y <= ONE,
{
    let turn: i64 = modulo(x, ONE);
    proof {
        let k = (x as int) / (ONE as int);
        vstd::arithmetic::div_mod::lemma_fundamental_div_mod(x as int, ONE as int);
        assert(4 * x + ONE == (4 * ONE) * k + (4 * turn + ONE)) by (nonlinear_arith)
            requires
                x == ONE * k + turn,
        ;
        lemma_mod_multiples_vanish(k, 4 * turn + ONE, 4 * ONE);
    }
    sine(4 * turn + ONE)
}

/// `0.5 * (x * cos(2 * pi * x) + x)`, clipped.
pub fn stepper(x: i64) -> (y: i64)
    ensures
        y == stepper_spec(x as int),
        -ONE <= y <= ONE,
{
    let lift: i128 = (cosine(x) + ONE) as i128;
    let wide: i128 = x as i128;
    proof {
        assert(-0x8000_0000_0000_0000 * 2_000_000_000 <= wide * lift <= 0x8000_0000_0000_0000
            * 2_000_000_000) by (nonlinear_arith)
            requires
                -0x8000_0000_0000_0000 <= wide <= 0x8000_0000_0000_0000,
                0 <= lift <= 2_000_000_000,
        ;
    }
    let q: i128 = (wide * lift) / 2_000_000_000;
    if q > ONE as i128 {
        ONE
    } else if q < -(ONE as i128) {
        -ONE
    } else {
        q as i64
    }
}

/// From a square of 9.0 on, the even factor of the humpback polynomial is
/// at least 2.89.
proof fn lemma_humpback_factor(u: int, s: int)
    requires
        s > 0,
        u >= 9 * s,
    ensures
        14 * u * u - 115 * u * s + 190 * s * s >= 289 * s * s,
{
    assert(u * (14 * u - 115 * s) >= (9 * s) * (11 * s)) by (nonlinear_arith)
        requires
            u >= 9 * s,
            s > 0,
            14 * u - 115 * s >= 11 * s,
    ;
    assert(14 * u * u - 115 * u * s + 190 * s * s >= 289 * s * s) by (nonlinear_arith)
        requires
            u * (14 * u - 115 * s) >= (9 * s) * (11 * s),
    ;
}

/// From 3.0 on the humpback gives 1.0, and up to -3.0 it gives -1.0.
proof fn lemma_humpback_saturated(x: int)
    ensures
        x >= 3 * ONE ==> humpback_spec(x) == ONE,
        x <= -3 * ONE ==> humpback_spec(x) == -ONE,
{
    let s = ONE as int;
    let d = 100 * ONE * ONE;
    let u = (x * x) / s;
    let q = 14 * u * u - 115 * u * ONE + 190 * ONE * ONE;
    if x >= 3 * ONE || x <= -3 * ONE {
        assert(x * x >= s * (9 * s)) by (nonlinear_arith)
            requires
                x >= 3 * s || x <= -3 * s,
                s > 0,
        ;
        lemma_div_is_ordered(s * (9 * s), x * x, s);
        lemma_div_multiples_vanish(9 * s, s);
        lemma_humpback_factor(u, s);
        if x >= 3 * ONE {
            assert(x * q >= s * d) by (nonlinear_arith)
                requires
                    x >= 3 * s,
                    q >= 289 * s * s,
                    d == 100 * s * s,
                    s > 0,
            ;
            lemma_div_trunc_at_least(x * q, d, s);
        } else {
            assert((-x) * q >= s * d) by (nonlinear_arith)
                requires
                    -x >= 3 * s,
                    q >= 289 * s * s,
                    d == 100 * s * s,
                    s > 0,
            ;
            assert((-x) * q == -(x * q)) by (nonlinear_arith);
            lemma_div_trunc_at_least(-(x * q), d, s);
            lemma_div_trunc_odd(x * q, d);
        }
    }
}

/// `0.14 * x^5 - 1.15 * x^3 + 1.9 * x`, clipped.
pub fn humpback(x: i64) -> (y: i64)
    ensures
        y == humpback_spec(x as int),
        -ONE <= y <= ONE,
{
    proof {
        lemma_humpback_saturated(x as int);
    }
    if x >= 3 * ONE {
        ONE
    } else if x <= -3 * ONE {
        -ONE
    } else {
        let wide: i128 = x as i128;
        proof {
            assert(0 <= wide * wide < 9_000_000_000_000_000_000) by (nonlinear_arith)
                requires
                    -3_000_000_000 < wide < 3_000_000_000,
            ;
        }
        let u: i128 = (wide * wide) / 1_000_000_000;
        proof {
            assert(0 <= u * u < 81_000_000_000_000_000_000) by (nonlinear_arith)
                requires
                    0 <= u < 9_000_000_000,
            ;
        }
        let factor: i128 = 14 * (u * u) - 115_000_000_000 * u + 190_000_000_000_000_000_000;
        proof {
            assert(-3_000_000_000 * 2_000_000_000_000_000_000_000 <= wide * factor
                <= 3_000_000_000 * 2_000_000_000_000_000_000_000) by (nonlinear_arith)
                requires
                    -3_000_000_000 < wide < 3_000_000_000,
                    -2_000_000_000_000_000_000_000 <= factor <= 2_000_000_000_000_000_000_000,
            ;
            assert(14 * u * u == 14 * (u * u)) by (nonlinear_arith);
            assert(115 * u * ONE == 115_000_000_000 * u) by (nonlinear_arith)
                requires
                    ONE == 1_000_000_000,
            ;
        }
        let q: i128 = (wide * factor) / 100_000_000_000_000_000_000;
        if q > ONE as i128 {
            ONE
        } else if q < -(ONE as i128) {
            -ONE
        } else {
            q as i64
        }
    }
}

impl DistortionAlgorithm {
    /// What the curve makes of the sample `x`.
    pub fn calculate(self, x: i64) -> (y: i64)
        ensures
            y == self.calculate_spec(x as int),
            -ONE <= y <= ONE,
    {
        match self {
            DistortionAlgorithm::SoftClip => soft_clip(x),
            DistortionAlgorithm::HardClip => hard_clip(x),
            DistortionAlgorithm::Radial => radial(x),
            DistortionAlgorithm::Chomper => chomper(x),
            DistortionAlgorithm::Sine => sine(x),
            DistortionAlgorithm::Stepper => stepper(x),
            DistortionAlgorithm::Humpback => humpback(x),
            DistortionAlgorithm::Absolute => absolute(x),
        }
    }
}

/// The quarter circle stays between 0 and 1.0.
proof fn lemma_quarter_circle(d: int)
    requires
        -ONE <= d <= ONE,
    ensures
        0 <= sqrt_spec(ONE * ONE - d * d) <= ONE,
{
    let n = ONE * ONE - d * d;
    assert(0 <= d * d <= ONE * ONE) by (nonlinear_arith)
        requires
            -ONE <= d <= ONE,
    ;
    lemma_sqrt_exists(n as nat);
    let r = sqrt_spec(n);
    assert(r <= ONE) by (nonlinear_arith)
        requires
            0 <= r,
            r * r <= ONE * ONE,
    ;
}

/// Every curve keeps its output between -1.0 and 1.0, whatever the input.
pub proof fn lemma_output_bounded(algorithm: DistortionAlgorithm, x: int)
    ensures
        -ONE <= algorithm.calculate_spec(x) <= ONE,
{
    let c = hard_clip_spec(x);
    match algorithm {
        DistortionAlgorithm::SoftClip => {
            lemma_soft_cubic(c, ONE as int);
            lemma_div_trunc_within(3 * c * ONE * ONE - c * c * c, 2 * ONE * ONE, ONE as int);
        },
        DistortionAlgorithm::Radial => {
            if x > 0 {
                lemma_quarter_circle(c - ONE);
            } else if x < 0 {
                lemma_quarter_circle(c + ONE);
            }
        },
        DistortionAlgorithm::Sine => {},
        _ => {},
    }
}

/// The soft clipper is odd: the negated input gives the negated output.
pub proof fn lemma_soft_clip_odd(x: int)
    ensures
        soft_clip_spec(-x) == -soft_clip_spec(x),
{
    let c = hard_clip_spec(x);
    assert(3 * (-c) * ONE * ONE - (-c) * (-c) * (-c) == -(3 * c * ONE * ONE - c * c * c))
        by (nonlinear_arith);
    lemma_div_trunc_odd(3 * c * ONE * ONE - c * c * c, 2 * ONE * ONE);
}

/// The half wave is symmetric about the quarter turn.
proof fn lemma_half_wave_mirror(t: int)
    ensures
        half_wave_spec(2 * ONE - t) == half_wave_spec(t),
{
}

/// The quarter wave begins at 0 and ends at 1.0.
proof fn lemma_quarter_wave_ends()
    ensures
        quarter_wave_spec(0) == 0,
        quarter_wave_spec(ONE as int) == ONE,
{
    assert(quarter_wave_spec(0) == 0) by {
        assert(0 * (HALF_PI as int) == 0) by (nonlinear_arith);
        let y2 = multiply_spec(0, 0);
        let v1 = series_step(
            y2,
            series_step(
                y2,
                series_step(
                    y2,
                    series_step(y2, series_step(y2, series_step(y2, ONE as int, 156), 110), 72),
                    42,
                ),
                20,
            ),
            6,
        );
        assert(0 * v1 == 0) by (nonlinear_arith);
    }
    assert(quarter_wave_spec(ONE as int) == ONE) by {
        let y = multiply_spec(ONE as int, HALF_PI as int);
        assert(y == 1_570_796_327);
        let y2 = multiply_spec(y, y);
        assert(y2 == 2_467_401_100);
        let v6 = series_step(y2, ONE as int, 156);
        assert(v6 == 984_183_327);
        let v5 = series_step(y2, v6, 110);
        assert(v5 == 977_923_864);
        let v4 = series_step(y2, v5, 72);
        assert(v4 == 966_487_078);
        let v3 = series_step(y2, v4, 42);
        assert(v3 == 943_221_161);
        let v2 = series_step(y2, v3, 20);
        assert(v2 == 883_634_754);
        let v1 = series_step(y2, v2, 6);
        assert(v1 == 636_619_773);
        assert(multiply_spec(y, v1) == 1_000_000_001);
    }
}

/// The remainder of the negative of a number that is no multiple of the
/// divisor.
proof fn lemma_mod_of_shifted(x: int, shift: int, m: int)
    requires
        m > 0,
    ensures
        (shift - x) % m == (shift - x % m) % m,
{
    let q = x / m;
    lemma_fundamental_div_mod(x, m);
    assert(shift - x == m * (-q) + (shift - x % m)) by (nonlinear_arith)
        requires
            x == m * q + x % m,
    ;
    lemma_mod_multiples_vanish(-q, shift - x % m, m);
}

/// The sine has the symmetries of the sine: it repeats after four quarter
/// turns, it is odd, and it is mirrored at one quarter turn. It is 0 at 0
/// and 1.0 at one quarter turn.
pub proof fn lemma_sine_symmetries(x: int)
    ensures
        sine_spec(x + 4 * ONE) == sine_spec(x),
        sine_spec(-x) == -sine_spec(x),
        sine_spec(2 * ONE - x) == sine_spec(x),
        sine_spec(0) == 0,
        sine_spec(ONE as int) == ONE,
{
    let period = 4 * ONE;
    let m = x % period;
    lemma_mod_bound(x, period);
    lemma_mod_add_multiples_vanish(x, period);
    assert(sine_spec(x + 4 * ONE) == sine_spec(x)) by {
        assert(x + 4 * ONE == period + x);
    }
    lemma_quarter_wave_ends();
    assert(half_wave_spec(0) == 0);
    assert(half_wave_spec(2 * ONE) == 0);
    assert(sine_spec(0) == 0) by {
        lemma_small_mod(0, period as nat);
    }
    assert(sine_spec(ONE as int) == ONE) by {
        lemma_small_mod(ONE as nat, period as nat);
    }
    assert(sine_spec(-x) == -sine_spec(x)) by {
        lemma_mod_of_shifted(x, 0, period);
        if m == 0 {
            lemma_small_mod(0, period as nat);
        } else {
            lemma_mod_add_multiples_vanish(-m, period);
            lemma_small_mod((period - m) as nat, period as nat);
            assert((-x) % period == period - m);
            if m < 2 * ONE {
                lemma_half_wave_mirror(m);
            } else if m > 2 * ONE {
                lemma_half_wave_mirror(m - 2 * ONE);
            }
        }
    }
    assert(sine_spec(2 * ONE - x) == sine_spec(x)) by {
        lemma_mod_of_shifted(x, 2 * ONE, period);
        if m <= 2 * ONE {
            lemma_small_mod((2 * ONE - m) as nat, period as nat);
            lemma_half_wave_mirror(m);
        } else {
            lemma_mod_add_multiples_vanish(2 * ONE - m, period);
            lemma_small_mod((6 * ONE - m) as nat, period as nat);
            assert((2 * ONE - x) % period == 6 * ONE - m);
            lemma_half_wave_mirror(m - 2 * ONE);
        }
    }
}

/// Every curve but the absolute one is odd: the negated input gives the
/// negated output. The absolute curve is even.
pub proof fn lemma_curves_are_odd(algorithm: DistortionAlgorithm, x: int)
    ensures
        !(algorithm is Absolute) ==> algorithm.calculate_spec(-x) == -algorithm.calculate_spec(x),
        algorithm is Absolute ==> algorithm.calculate_spec(-x) == algorithm.calculate_spec(x),
{
    let c = hard_clip_spec(x);
    match algorithm {
        DistortionAlgorithm::SoftClip => {
            lemma_soft_clip_odd(x);
        },
        DistortionAlgorithm::Radial => {
            assert((-c + ONE) * (-c + ONE) == (c - ONE) * (c - ONE)) by (nonlinear_arith);
            assert((-c - ONE) * (-c - ONE) == (c + ONE) * (c + ONE)) by (nonlinear_arith);
        },
        DistortionAlgorithm::Chomper => {
            let num = 15 * x * ONE * ONE - 7 * x * x * x;
            assert(15 * (-x) * ONE * ONE - 7 * (-x) * (-x) * (-x) == -num) by (nonlinear_arith)
                requires
                    num == 15 * x * ONE * ONE - 7 * x * x * x,
            ;
            lemma_div_trunc_odd(num, 10 * ONE * ONE);
        },
        DistortionAlgorithm::Sine => {
            lemma_sine_symmetries(x);
        },
        DistortionAlgorithm::Stepper => {
            lemma_sine_symmetries(4 * x + ONE);
            assert(4 * (-x) + ONE == 2 * ONE - (4 * x + ONE));
            let lift = cosine_spec(x) + ONE;
            assert((-x) * lift == -(x * lift)) by (nonlinear_arith);
            lemma_div_trunc_odd(x * lift, 2 * ONE);
        },
        DistortionAlgorithm::Humpback => {
            assert((-x) * (-x) == x * x) by (nonlinear_arith);
            let u = (x * x) / (ONE as int);
            let factor = 14 * u * u - 115 * u * ONE + 190 * ONE * ONE;
            assert((-x) * factor == -(x * factor)) by (nonlinear_arith);
            lemma_div_trunc_odd(x * factor, 100 * ONE * ONE);
        },
        _ => {},
    }
}

/// Silence stays silence: every curve maps 0 to 0.
pub proof fn lemma_zero_fixed(algorithm: DistortionAlgorithm)
    ensures
        algorithm.calculate_spec(0) == 0,
{
    assert(humpback_spec(0) == 0) by {
        let u = (0int * 0int) / (ONE as int);
        assert(0 * (14 * u * u - 115 * u * ONE + 190 * ONE * ONE) == 0) by (nonlinear_arith);
    }
    assert(stepper_spec(0) == 0) by {
        assert(0 * (cosine_spec(0) + ONE) == 0) by (nonlinear_arith);
    }
}

/// The ordinals and the curves correspond one to one.
pub proof fn lemma_index_round_trip(algorithm: DistortionAlgorithm, id: int)
    ensures
        0 <= algorithm.index_spec() < ALGORITHM_COUNT,
        DistortionAlgorithm::from_index_spec(algorithm.index_spec()) == algorithm,
        0 <= id < ALGORITHM_COUNT ==> DistortionAlgorithm::from_index_spec(id).index_spec() == id,
{
}

} // verus!
