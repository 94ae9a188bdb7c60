//! The parameter smoother: a ramp generator that turns a step of a
//! parameter's target into a value that changes a little with every sample.
//!
//! A linear ramp adds the same increment with every step, a logarithmic ramp
//! multiplies by the same factor. Neither ever passes the target, and the
//! last step of a ramp lands on the target exactly.

use crate::fixed::{
    clamp_spec, div_trunc, mul_div, mul_div_spec, multiply, multiply_spec, root, root_spec,
    saturate, saturate_wide, ONE,
};
use vstd::prelude::*;

verus! {

/// How a parameter approaches a new target.
#[derive(Clone, Copy, PartialEq, Eq, Structural, Debug)]
pub enum SmoothingStyle {
    /// No smoothing: the value is the target at once.
    Off,
    /// A ramp of equal increments over so many milliseconds.
    Linear(u32),
    /// A ramp of equal factors over so many milliseconds, for gains. Both
    /// ends of such a ramp must be positive; where one is not, the value is
    /// the target at once.
    Logarithmic(u32),
}

impl SmoothingStyle {
    /// The duration of the ramp in milliseconds.
    pub open spec fn duration_spec(self) -> int {
        match self {
            SmoothingStyle::Off => 0,
            SmoothingStyle::Linear(ms) => ms as int,
            SmoothingStyle::Logarithmic(ms) => ms as int,
        }
    }

    /// The number of samples that a ramp takes at the given sample rate:
    /// `ceil(duration * sample_rate / 1000)`.
    pub open spec fn steps_spec(self, sample_rate: int) -> int {
        (self.duration_spec() * sample_rate + 999) / 1000
    }

    /// The duration of the ramp in milliseconds.
    pub fn duration(self) -> (ms: u32)
        ensures
            ms == self.duration_spec(),
    {
        match self {
            SmoothingStyle::Off => 0,
            SmoothingStyle::Linear(ms) => ms,
            SmoothingStyle::Logarithmic(ms) => ms,
        }
    }

    /// The number of samples that a ramp takes at the given sample rate in
    /// hertz.
    pub fn steps(self, sample_rate: u32) -> (n: u64)
        ensures
            n == self.steps_spec(sample_rate as int),
    {
        let ms: u64 = self.duration() as u64;
        assert(0 <= ms * sample_rate <= 0xffff_ffff * 0xffff_ffff) by (nonlinear_arith)
            requires
                0 <= ms <= 0xffff_ffff,
                0 <= sample_rate <= 0xffff_ffff,
        ;
        (ms * (sample_rate as u64) + 999) / 1000
    }
}

/// The state of a smoother, as the contracts see it.
pub struct SmootherState {
    /// The kind and duration of its ramps.
    pub style: SmoothingStyle,
    /// The value that the last step gave.
    pub current: int,
    /// The value that the ramp ends on.
    pub target: int,
    /// The number of steps until the value is the target.
    pub steps_left: nat,
    /// The increment of a linear ramp, or the factor of a logarithmic one.
    pub step: int,
}

/// `candidate` kept between `from` and `to`, whichever of the two is larger.
pub open spec fn toward(candidate: int, from: int, to: int) -> int {
    if from <= to {
        clamp_spec(candidate, from, to)
    } else {
        clamp_spec(candidate, to, from)
    }
}

/// The increment or factor of a ramp of `steps` steps from `current` to
/// `target`: the difference divided by the number of steps for a linear
/// ramp, the root of that degree of the ratio for a logarithmic one.
pub open spec fn ramp_step(style: SmoothingStyle, current: int, target: int, steps: nat) -> int {
    match style {
        SmoothingStyle::Logarithmic(_) => root_spec(mul_div_spec(target, ONE as int, current), steps),
        _ => saturate(div_trunc(target - current, steps as int)),
    }
}

impl SmootherState {
    /// Whether a ramp from the current value to `target` exists: there is a
    /// duration, and a logarithmic ramp has two positive ends.
    pub open spec fn ramps_to(self, sample_rate: int, target: int) -> bool {
        &&& self.style.steps_spec(sample_rate) > 0
        &&& (self.style is Logarithmic ==> self.current > 0 && target > 0)
    }

    /// The state after a new target was set.
    pub open spec fn retargeted(self, sample_rate: int, target: int) -> SmootherState {
        if self.ramps_to(sample_rate, target) {
            let steps = self.style.steps_spec(sample_rate) as nat;
            SmootherState {
                style: self.style,
                current: self.current,
                target: target,
                steps_left: steps,
                step: ramp_step(self.style, self.current, target, steps),
            }
        } else {
            SmootherState {
                style: self.style,
                current: target,
                target: target,
                steps_left: 0,
                step: self.step,
            }
        }
    }

    /// The value one increment or factor further, before it is held back at
    /// the target.
    pub open spec fn candidate(self) -> int {
        match self.style {
            SmoothingStyle::Logarithmic(_) => multiply_spec(self.current, self.step),
            _ => self.current + self.step,
        }
    }

    /// The state one sample later.
    pub open spec fn advanced(self) -> SmootherState {
        if self.steps_left <= 1 {
            SmootherState {
                style: self.style,
                current: self.target,
                target: self.target,
                steps_left: 0,
                step: self.step,
            }
        } else {
            SmootherState {
                style: self.style,
                current: toward(self.candidate(), self.current, self.target),
                target: self.target,
                steps_left: (self.steps_left - 1) as nat,
                step: self.step,
            }
        }
    }

    /// The state `count` samples later.
    pub open spec fn advanced_by(self, count: nat) -> SmootherState
        decreases count,
    {
        if count == 0 {
            self
        } else {
            self.advanced_by((count - 1) as nat).advanced()
        }
    }

    /// The state with both the value and the target at `value`.
    pub open spec fn settled_at(style: SmoothingStyle, value: int) -> SmootherState {
        SmootherState { style: style, current: value, target: value, steps_left: 0, step: 0 }
    }
}

/// A parameter's smoothed value.
pub struct Smoother {
    style: SmoothingStyle,
    current: i64,
    target: i64,
    steps_left: u64,
    step: i64,
}

impl View for Smoother {
    type V = SmootherState;

    closed spec fn view(&self) -> SmootherState {
        SmootherState {
            style: self.style,
            current: self.current as int,
            target: self.target as int,
            steps_left: self.steps_left as nat,
            step: self.step as int,
        }
    }
}

impl Smoother {
    /// A smoother at rest at `value`.
    pub fn new(style: SmoothingStyle, value: i64) -> (smoother: Smoother)
        ensures
            smoother@ == SmootherState::settled_at(style, value as int),
    {
        Smoother { style, current: value, target: value, steps_left: 0, step: 0 }
    }

    /// Puts the smoother at rest at `value`, dropping any ramp.
    pub fn reset(&mut self, value: i64)
        ensures
            final(self)@ == SmootherState::settled_at(old(self)@.style, value as int),
    {
        self.current = value;
        self.target = value;
        self.steps_left = 0;
        self.step = 0;
    }

    /// Sets a new target, which the next call of `advance` begins to
    /// approach. Without a ramp the value is the target at once.
    pub fn set_target(&mut self, sample_rate: u32, target: i64)
        ensures
            final(self)@ == old(self)@.retargeted(sample_rate as int, target as int),
    {
        let steps: u64 = self.style.steps(sample_rate);
        let geometric: bool = match self.style {
            SmoothingStyle::Logarithmic(_) => true,
            _ => false,
        };
        if steps == 0 || (geometric && (self.current <= 0 || target <= 0)) {
            self.current = target;
            self.target = target;
            self.steps_left = 0;
        } else {
            if geometric {
                let ratio: i64 = mul_div(target, ONE, self.current);
                proof {
                    assert(0 <= target * ONE) by (nonlinear_arith)
                        requires
                            target > 0,
                            ONE > 0,
                    ;
                    vstd::arithmetic::div_mod::lemma_div_is_ordered(
                        0,
                        target * ONE,
                        self.current as int,
                    );
                }
                self.step = root(ratio, steps);
            } else {
                let difference: i128 = (target as i128) - (self.current as i128);
                self.step = saturate_wide(difference / (steps as i128));
            }
            self.target = target;
            self.steps_left = steps;
        }
    }

    /// Moves the value one step toward the target and returns it.
    pub fn advance(&mut self) -> (value: i64)
        ensures
            final(self)@ == old(self)@.advanced(),
            value == final(self)@.current,
    {
        if self.steps_left <= 1 {
            self.current = self.target;
            self.steps_left = 0;
        } else {
            let candidate: i128 = match self.style {
                SmoothingStyle::Logarithmic(_) => multiply(self.current, self.step) as i128,
                _ => (self.current as i128) + (self.step as i128),
            };
            let low: i64 = if self.current <= self.target {
                self.current
            } else {
                self.target
            };
            let high: i64 = if self.current <= self.target {
                self.target
            } else {
                self.current
            };
            self.current = if candidate < low as i128 {
                low
            } else if candidate > high as i128 {
                high
            } else {
                candidate as i64
            };
            self.steps_left = self.steps_left - 1;
        }
        self.current
    }

    /// The value that the last step gave.
    pub fn current(&self) -> (value: i64)
        ensures
            value == self@.current,
    {
        self.current
    }

    /// The value that the ramp ends on.
    pub fn target(&self) -> (value: i64)
        ensures
            value == self@.target,
    {
        self.target
    }

    /// The number of steps until the value is the target.
    pub fn steps_left(&self) -> (steps: u64)
        ensures
            steps == self@.steps_left,
    {
        self.steps_left
    }

    /// The kind and duration of the ramps.
    pub fn style(&self) -> (style: SmoothingStyle)
        ensures
            style == self@.style,
    {
        self.style
    }

    /// Whether a ramp is under way.
    pub fn is_smoothing(&self) -> (smoothing: bool)
        ensures
            smoothing == (self@.steps_left > 0),
    {
        self.steps_left > 0
    }
}

/// Steps change neither the target nor the style, and count the steps that
/// are left down to zero.
pub proof fn lemma_steps_count_down(state: SmootherState, count: nat)
    ensures
        state.advanced_by(count).target == state.target,
        state.advanced_by(count).style == state.style,
        state.advanced_by(count).step == state.step,
        state.advanced_by(count).steps_left == if count >= state.steps_left {
            0
        } else {
            state.steps_left - count
        },
    decreases count,
{
    if count > 0 {
        lemma_steps_count_down(state, (count - 1) as nat);
    }
}

/// Once as many steps were taken as the ramp has, and at least one, the
/// value is the target, and further steps leave it there.
pub proof fn lemma_reaches_target(state: SmootherState, count: nat)
    requires
        count >= state.steps_left,
        count >= 1,
    ensures
        state.advanced_by(count).current == state.target,
        state.advanced_by(count).steps_left == 0,
{
    lemma_steps_count_down(state, (count - 1) as nat);
}

/// A smoother that was given the target `target` at the sample rate
/// `sample_rate` holds exactly `target` after
/// `ceil(duration * sample_rate / 1000)` steps, and after any larger number
/// of steps.
pub proof fn lemma_ramp_completes(
    state: SmootherState,
    sample_rate: int,
    target: int,
    count: nat,
)
    requires
        count >= state.style.steps_spec(sample_rate),
    ensures
        state.retargeted(sample_rate, target).advanced_by(count).current == target,
        state.retargeted(sample_rate, target).advanced_by(count).target == target,
{
    let begun = state.retargeted(sample_rate, target);
    lemma_steps_count_down(begun, count);
    if count >= 1 {
        lemma_reaches_target(begun, count);
    }
}

/// Without smoothing, setting a target sets the value.
pub proof fn lemma_unsmoothed_snaps(state: SmootherState, sample_rate: int, target: int)
    requires
        state.style is Off,
    ensures
        state.retargeted(sample_rate, target).current == target,
        state.retargeted(sample_rate, target).steps_left == 0,
{
}

/// A step never moves the value away from the target and never past it:
/// the new value lies between the old one and the target.
pub proof fn lemma_moves_toward_target(state: SmootherState)
    ensures
        state.current <= state.target ==> state.current <= state.advanced().current
            <= state.target,
        state.current >= state.target ==> state.current >= state.advanced().current
            >= state.target,
{
}

/// A linear ramp whose increment points at the target moves by exactly
/// that increment with every step but the last, as long as the target is
/// not reached.
pub proof fn lemma_linear_step(state: SmootherState)
    requires
        state.style is Linear,
        state.steps_left > 1,
        state.current <= state.current + state.step <= state.target || state.target
            <= state.current + state.step <= state.current,
    ensures
        state.advanced().current == state.current + state.step,
{
}

} // verus!
