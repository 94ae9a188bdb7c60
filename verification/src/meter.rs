//! The peak meter: an envelope follower with instant attack and
//! exponential release.
//!
//! An amplitude above the level becomes the level at once. Any other
//! amplitude pulls the level toward itself by the decay weight `w`, which
//! is derived once from the sample rate: `level * w + amplitude * (1 - w)`.

use crate::fixed::{
    clamp, clamp_spec, div_trunc, lemma_div_trunc_ordered, lemma_mul_unit, lemma_pow_fixed_points,
    lemma_pow_ordered, lemma_pow_shrinks, lemma_root_at_least, lemma_root_below,
    lemma_root_exists, multiply_spec, pow, pow_spec, root, root_spec, LIMIT, ONE,
};
use vstd::prelude::*;

verus! {

/// The time in milliseconds in which a level without input falls to a
/// quarter.
pub const PEAK_METER_DECAY_MS: u64 = 150;

/// The degree of the root in the decay weight, per hertz of the sample
/// rate: the decay time over 1000 in lowest terms is 3 over 20.
pub const DECAY_ROOT_PER_HERTZ: u64 = 3;

/// The power in the decay weight.
pub const DECAY_POWER: u64 = 20;

/// The decay weight at a sample rate:
/// `0.25^(1 / (sample_rate * PEAK_METER_DECAY_MS / 1000))`, which is
/// `0.25^(20 / (3 * sample_rate))`: the root of the degree `3 * sample_rate`
/// of a quarter, raised to the 20th power. Without a sample rate it is 0.
pub open spec fn decay_weight_spec(sample_rate: int) -> int {
    if sample_rate <= 0 {
        0
    } else {
        pow_spec(
            root_spec(ONE / 4, (DECAY_ROOT_PER_HERTZ * sample_rate) as nat),
            DECAY_POWER as nat,
        )
    }
}

/// `level` after `count` updates with the amplitude 0: the level times the
/// `count`-th power of the weight, rounded after each multiplication.
pub open spec fn decayed_spec(level: int, weight: int, count: nat) -> int
    decreases count,
{
    if count == 0 {
        level
    } else {
        multiply_spec(decayed_spec(level, weight, (count - 1) as nat), weight)
    }
}

/// The state of a meter, as the contracts see it.
pub struct MeterState {
    /// The level, as a linear amplitude.
    pub level: int,
    /// The decay weight, from 0 to 1.0.
    pub weight: int,
}

impl MeterState {
    /// Whether the weight is one that a meter can have.
    pub open spec fn wf(self) -> bool {
        0 <= self.weight <= ONE
    }

    /// The state after the amplitude `amplitude` was fed in.
    pub open spec fn updated(self, amplitude: int) -> MeterState {
        if amplitude > self.level {
            MeterState { level: amplitude, weight: self.weight }
        } else {
            MeterState {
                level: div_trunc(
                    self.level * self.weight + amplitude * (ONE - self.weight),
                    ONE as int,
                ),
                weight: self.weight,
            }
        }
    }

    /// The state after the amplitudes of `amplitudes` were fed in, in their
    /// order.
    pub open spec fn fed(self, amplitudes: Seq<int>) -> MeterState
        decreases amplitudes.len(),
    {
        if amplitudes.len() == 0 {
            self
        } else {
            self.fed(amplitudes.drop_last()).updated(amplitudes.last())
        }
    }
}

/// The exponent of the decay weight is the reciprocal of the number of
/// samples in the decay time.
pub proof fn lemma_decay_exponent(sample_rate: int)
    ensures
        DECAY_POWER * (sample_rate * PEAK_METER_DECAY_MS) == (DECAY_ROOT_PER_HERTZ * sample_rate)
            * 1000,
{
    assert(20 * (sample_rate * 150) == (3 * sample_rate) * 1000) by (nonlinear_arith);
}

/// The powers of 0.625 that bound the decay weight: its cube is below a
/// quarter, and its 20th power is above 0.
proof fn lemma_powers_of_five_eighths()
    ensures
        pow_spec(625_000_000, 3) == 244_140_625,
        pow_spec(625_000_000, 20) == 82_718,
{
    let low: int = 625_000_000;
    assert(pow_spec(low, 0) == ONE);
    assert(pow_spec(low, 1) == low);
    assert(pow_spec(low, 2) == 390_625_000);
    assert(pow_spec(low, 3) == 244_140_625);
    assert(pow_spec(low, 4) == 152_587_890);
    assert(pow_spec(low, 5) == 95_367_431);
    assert(pow_spec(low, 10) == 9_094_946);
    assert(pow_spec(low, 20) == 82_718);
}

/// For every sample rate above 0 the decay weight lies strictly between 0
/// and 1.0: a level decays, and it does not vanish at once.
pub proof fn lemma_decay_weight_range(sample_rate: int)
    requires
        sample_rate > 0,
    ensures
        0 < decay_weight_spec(sample_rate) < ONE,
{
    let degree = (DECAY_ROOT_PER_HERTZ * sample_rate) as nat;
    let quarter = ONE / 4;
    let base = root_spec(quarter, degree);
    let low: int = 625_000_000;
    lemma_root_exists(quarter, degree);
    lemma_pow_fixed_points(degree);
    lemma_root_below(quarter, degree, base, ONE as int);
    lemma_pow_shrinks(base, DECAY_POWER as nat);
    lemma_pow_shrinks(low, degree);
    lemma_powers_of_five_eighths();
    lemma_root_at_least(quarter, degree, base, low);
    lemma_pow_ordered(low, base, DECAY_POWER as nat);
}

/// The decay weight at a sample rate in hertz.
pub fn decay_weight(sample_rate: u32) -> (weight: i64)
    ensures
        weight == decay_weight_spec(sample_rate as int),
        0 <= weight <= ONE,
        sample_rate > 0 ==> 0 < weight < ONE,
{
    if sample_rate == 0 {
        0
    } else {
        proof {
            lemma_decay_weight_range(sample_rate as int);
        }
        let base: i64 = root(ONE / 4, DECAY_ROOT_PER_HERTZ * (sample_rate as u64));
        pow(base, DECAY_POWER)
    }
}

/// A decaying measure of the amplitude of a signal.
pub struct PeakMeter {
    level: i64,
    decay_weight: i64,
}

impl View for PeakMeter {
    type V = MeterState;

    closed spec fn view(&self) -> MeterState {
        MeterState { level: self.level as int, weight: self.decay_weight as int }
    }
}

impl PeakMeter {
    #[verifier::type_invariant]
    spec fn weight_in_range(self) -> bool {
        0 <= self.decay_weight <= ONE
    }

    /// A meter at the level 0 for the given sample rate in hertz.
    pub fn new(sample_rate: u32) -> (meter: PeakMeter)
        ensures
            meter@.level == 0,
            meter@.weight == decay_weight_spec(sample_rate as int),
            meter@.wf(),
    {
        PeakMeter { level: 0, decay_weight: decay_weight(sample_rate) }
    }

    /// A meter at the level 0 with the given decay weight, which is limited
    /// to the range from 0 to 1.0.
    pub fn with_weight(weight: i64) -> (meter: PeakMeter)
        ensures
            meter@.level == 0,
            meter@.weight == clamp_spec(weight as int, 0, ONE as int),
            meter@.wf(),
    {
        PeakMeter { level: 0, decay_weight: clamp(weight, 0, ONE) }
    }

    /// Derives the decay weight anew for a sample rate in hertz and keeps
    /// the level.
    pub fn retune(&mut self, sample_rate: u32)
        ensures
            final(self)@.level == old(self)@.level,
            final(self)@.weight == decay_weight_spec(sample_rate as int),
            final(self)@.wf(),
    {
        self.decay_weight = decay_weight(sample_rate);
    }

    /// Feeds one amplitude in and returns the new level.
    pub fn update(&mut self, amplitude: i64) -> (level: i64)
        ensures
            final(self)@ == old(self)@.updated(amplitude as int),
            level == final(self)@.level,
            final(self)@.wf(),
    {
        proof {
            use_type_invariant(&*self);
        }
        if amplitude > self.level {
            self.level = amplitude;
        } else {
            let weight: i128 = self.decay_weight as i128;
            let held: i128 = self.level as i128;
            let fresh: i128 = amplitude as i128;
            proof {
                lemma_weighted_mean(held as int, fresh as int, weight as int);
                assert(-0x8000_0000_0000_0000 * 1_000_000_000 <= held * weight
                    <= 0x8000_0000_0000_0000 * 1_000_000_000) by (nonlinear_arith)
                    requires
                        -0x8000_0000_0000_0000 <= held <= 0x8000_0000_0000_0000,
                        0 <= weight <= 1_000_000_000,
                ;
                assert(-0x8000_0000_0000_0000 * 1_000_000_000 <= fresh * (1_000_000_000 - weight)
                    <= 0x8000_0000_0000_0000 * 1_000_000_000) by (nonlinear_arith)
                    requires
                        -0x8000_0000_0000_0000 <= fresh <= 0x8000_0000_0000_0000,
                        0 <= 1_000_000_000 - weight <= 1_000_000_000,
                ;
            }
            let sum: i128 = held * weight + fresh * (1_000_000_000 - weight);
            self.level = (sum / 1_000_000_000) as i64;
        }
        self.level
    }

    /// The level, as a linear amplitude.
    pub fn level(&self) -> (level: i64)
        ensures
            level == self@.level,
    {
        self.level
    }

    /// The decay weight.
    pub fn decay_weight(&self) -> (weight: i64)
        ensures
            weight == self@.weight,
            self@.wf(),
    {
        proof {
            use_type_invariant(self);
        }
        self.decay_weight
    }
}

/// A mean of `held` and `fresh` with the weights `weight` and
/// `1 - weight` lies between the two, also after the rounding.
pub proof fn lemma_weighted_mean(held: int, fresh: int, weight: int)
    requires
        0 <= weight <= ONE,
        fresh <= held,
    ensures
        fresh * ONE <= held * weight + fresh * (ONE - weight) <= held * ONE,
        fresh <= div_trunc(held * weight + fresh * (ONE - weight), ONE as int) <= held,
{
    let sum = held * weight + fresh * (ONE - weight);
    assert(sum - fresh * ONE == (held - fresh) * weight) by (nonlinear_arith)
        requires
            sum == held * weight + fresh * (ONE - weight),
    ;
    assert(held * ONE - sum == (held - fresh) * (ONE - weight)) by (nonlinear_arith)
        requires
            sum == held * weight + fresh * (ONE - weight),
    ;
    assert((held - fresh) * weight >= 0) by (nonlinear_arith)
        requires
            held - fresh >= 0,
            weight >= 0,
    ;
    assert((held - fresh) * (ONE - weight) >= 0) by (nonlinear_arith)
        requires
            held - fresh >= 0,
            ONE - weight >= 0,
    ;
    lemma_div_trunc_ordered(fresh * ONE, sum, ONE as int);
    lemma_div_trunc_ordered(sum, held * ONE, ONE as int);
    lemma_div_trunc_exact(fresh);
    lemma_div_trunc_exact(held);
}

/// A whole number of units divided by the unit is that number.
proof fn lemma_div_trunc_exact(value: int)
    ensures
        div_trunc(value * ONE, ONE as int) == value,
{
    if value >= 0 {
        assert(value * ONE == ONE * value) by (nonlinear_arith);
        vstd::arithmetic::div_mod::lemma_div_multiples_vanish(value, ONE as int);
    } else {
        assert(-(value * ONE) == ONE * (-value)) by (nonlinear_arith);
        vstd::arithmetic::div_mod::lemma_div_multiples_vanish(-value, ONE as int);
    }
}

/// An update never raises the level above the larger of the level and the
/// amplitude, and never lowers it below the amplitude: the attack is
/// instant, the release gradual.
pub proof fn lemma_update_between(state: MeterState, amplitude: int)
    requires
        state.wf(),
    ensures
        state.updated(amplitude).wf(),
        amplitude > state.level ==> state.updated(amplitude).level == amplitude,
        amplitude <= state.level ==> amplitude <= state.updated(amplitude).level <= state.level,
{
    if amplitude <= state.level {
        lemma_weighted_mean(state.level, amplitude, state.weight);
    }
}

/// An update with the amplitude 0 multiplies a level that is not negative
/// by the decay weight.
pub proof fn lemma_silent_update_decays(state: MeterState)
    requires
        state.wf(),
        0 <= state.level <= LIMIT,
    ensures
        state.updated(0).level == multiply_spec(state.level, state.weight),
{
    assert(0 * (ONE - state.weight) == 0) by (nonlinear_arith);
    assert(0 <= state.level * state.weight <= state.level * ONE) by (nonlinear_arith)
        requires
            0 <= state.level,
            0 <= state.weight <= ONE,
    ;
    lemma_div_trunc_exact(state.level);
    lemma_div_trunc_ordered(state.level * state.weight, state.level * ONE, ONE as int);
    lemma_div_trunc_ordered(0, state.level * state.weight, ONE as int);
}

/// A meter whose level is at most 1.0, fed the amplitude 1.0 and then
/// `count` times the amplitude 0, shows the level `w^count` for its decay
/// weight `w`: 1.0, `w`, `w * w`, and so on.
pub proof fn lemma_impulse_response(state: MeterState, count: nat)
    requires
        state.wf(),
        state.level <= ONE,
    ensures
        state.updated(ONE as int).fed(Seq::new(count, |i: int| 0int)).level == decayed_spec(
            ONE as int,
            state.weight,
            count,
        ),
        state.updated(ONE as int).fed(Seq::new(count, |i: int| 0int)).weight == state.weight,
        0 <= decayed_spec(ONE as int, state.weight, count) <= ONE,
        count == 1 ==> decayed_spec(ONE as int, state.weight, count) == state.weight,
    decreases count,
{
    let struck = state.updated(ONE as int);
    lemma_update_between(state, ONE as int);
    assert(struck.level == ONE);
    let zeros = Seq::new(count, |i: int| 0int);
    if count == 0 {
    } else {
        let fewer = Seq::new((count - 1) as nat, |i: int| 0int);
        assert(zeros.drop_last() =~= fewer);
        lemma_impulse_response(state, (count - 1) as nat);
        let before = struck.fed(fewer);
        lemma_silent_update_decays(before);
        lemma_update_between(before, 0);
        if count == 1 {
            lemma_mul_unit(state.weight);
        }
    }
}

} // verus!
