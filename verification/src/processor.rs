//! The signal processor: the pipeline that every sample of a block goes
//! through, and the metering and the snapshot that go with it.
//!
//! For each sample-frame the three smoothers take one step and one noise
//! value is drawn, whatever the number of channels. Each sample of the frame
//! is then multiplied by the gain of the noise and by the drive, shaped by
//! the selected algorithm and multiplied by the gain. While the editor is
//! open, the mean magnitude of the frame before and after the effect feeds
//! the two peak meters, and the block ends with a new snapshot.

use crate::algorithms::DistortionAlgorithm;
use crate::data::UIData;
use crate::fixed::{abs_spec, magnitude, multiply, multiply_spec, saturate, LIMIT, ONE};
use crate::meter::{decay_weight_spec, MeterState, PeakMeter};
use crate::noise::{
    lemma_sample_in_range, noise_gain, noise_gain_spec, sample_of_word, seeded_words,
    NoiseInjector, NOISE_SEED,
};
use crate::smoother::{Smoother, SmootherState, SmoothingStyle};
use vstd::prelude::*;

verus! {

/// The duration of the ramps of gain, drive and noise amount, in
/// milliseconds.
pub const SMOOTHING_MS: u32 = 50;

/// The output gain before the host sets one.
pub const DEFAULT_GAIN: i64 = ONE;

/// The drive before the host sets one.
pub const DEFAULT_DRIVE: i64 = ONE;

/// The noise amount before the host sets one.
pub const DEFAULT_NOISE: i64 = 0;

/// How the processing of a block ended.
#[derive(Clone, Copy, PartialEq, Eq, Structural, Debug)]
pub enum ProcessStatus {
    /// The block was processed.
    Normal,
}

/// What the pipeline makes of one sample: the noise gain, the drive, the
/// algorithm and the gain, in this order.
pub open spec fn shaped_spec(
    sample: int,
    noise: int,
    amount: int,
    drive: int,
    algorithm: DistortionAlgorithm,
    gain: int,
) -> int {
    let noisy = multiply_spec(sample, noise_gain_spec(noise, amount));
    let driven = multiply_spec(noisy, drive);
    multiply_spec(algorithm.calculate_spec(driven), gain)
}

/// The samples of `samples` as integers.
pub open spec fn as_ints(samples: Seq<i64>) -> Seq<int> {
    Seq::new(samples.len(), |i: int| samples[i] as int)
}

/// The sum of the magnitudes of `samples`.
pub open spec fn sum_magnitude(samples: Seq<int>) -> int
    decreases samples.len(),
{
    if samples.len() == 0 {
        0
    } else {
        sum_magnitude(samples.drop_last()) + abs_spec(samples.last())
    }
}

/// The mean of the magnitudes of `samples`, rounded down; 0 for no samples.
pub open spec fn mean_magnitude(samples: Seq<int>) -> int {
    if samples.len() == 0 {
        0
    } else {
        saturate(sum_magnitude(samples) / (samples.len() as int))
    }
}

/// The state of a signal processor, as the contracts see it.
pub struct ProcessorState {
    /// The output gain.
    pub gain: SmootherState,
    /// The gain in front of the waveshaper.
    pub drive: SmootherState,
    /// The noise amount.
    pub noise: SmootherState,
    /// The selected waveshaper.
    pub algorithm: DistortionAlgorithm,
    /// The meter of the input.
    pub pre_peak_meter: MeterState,
    /// The meter of the output.
    pub peak_meter: MeterState,
    /// The snapshot for the visualization.
    pub ui_data: UIData,
    /// The sample rate in hertz.
    pub sample_rate: int,
}

impl ProcessorState {
    /// The state with each smoother one step further.
    pub open spec fn stepped(self) -> ProcessorState {
        ProcessorState {
            gain: self.gain.advanced(),
            drive: self.drive.advanced(),
            noise: self.noise.advanced(),
            ..self
        }
    }

    /// What the pipeline makes of `sample` with the current values of the
    /// smoothers and the noise value `noise`.
    pub open spec fn output(self, noise: int, sample: int) -> int {
        shaped_spec(
            sample,
            noise,
            self.noise.current,
            self.drive.current,
            self.algorithm,
            self.gain.current,
        )
    }

    /// What the pipeline makes of each sample of `frame`.
    pub open spec fn outputs(self, noise: int, frame: Seq<int>) -> Seq<int> {
        Seq::new(frame.len(), |i: int| self.output(noise, frame[i]))
    }

    /// The state with the two amplitudes fed into the meters.
    pub open spec fn metered(self, before: int, after: int) -> ProcessorState {
        ProcessorState {
            pre_peak_meter: self.pre_peak_meter.updated(before),
            peak_meter: self.peak_meter.updated(after),
            ..self
        }
    }

    /// The state after the sample-frame `frame` was processed with the
    /// noise value `noise`.
    pub open spec fn after_frame(self, noise: int, frame: Seq<int>, observed: bool)
        -> ProcessorState {
        let stepped = self.stepped();
        if observed {
            stepped.metered(mean_magnitude(frame), mean_magnitude(stepped.outputs(noise, frame)))
        } else {
            stepped
        }
    }

    /// The state after the first `count` sample-frames of the interleaved
    /// block `input` were processed, the `k`-th of them with the noise
    /// value `noises[k]`.
    pub open spec fn after_frames(
        self,
        noises: Seq<int>,
        input: Seq<int>,
        channels: int,
        observed: bool,
        count: nat,
    ) -> ProcessorState
        decreases count,
    {
        if count == 0 {
            self
        } else {
            self.after_frames(noises, input, channels, observed, (count - 1) as nat).after_frame(
                noises[count - 1],
                input.subrange((count - 1) * channels, count * channels),
                observed,
            )
        }
    }

    /// What the block `input` holds at the index `i` after it was
    /// processed: the output of the sample there, with the smoothers as
    /// many steps further as its sample-frame says.
    pub open spec fn output_at(
        self,
        noises: Seq<int>,
        input: Seq<int>,
        channels: int,
        observed: bool,
        i: int,
    ) -> int {
        let frame = i / channels;
        self.after_frames(noises, input, channels, observed, frame as nat).stepped().output(
            noises[frame],
            input[i],
        )
    }

    /// The state with the algorithm and the current drive written to the
    /// snapshot.
    pub open spec fn published(self) -> ProcessorState {
        ProcessorState {
            ui_data: UIData { algorithm: self.algorithm, drive: self.drive.current as i64 },
            ..self
        }
    }

    /// The state after a block: the snapshot is written only while the
    /// editor is open.
    pub open spec fn closed_block(self, observed: bool) -> ProcessorState {
        if observed {
            self.published()
        } else {
            self
        }
    }
}

/// The pipeline of the effect with all its state.
pub struct SignalProcessor {
    gain: Smoother,
    drive: Smoother,
    noise: Smoother,
    algorithm: DistortionAlgorithm,
    injector: NoiseInjector,
    pre_peak_meter: PeakMeter,
    peak_meter: PeakMeter,
    ui_data: UIData,
    sample_rate: u32,
}

impl View for SignalProcessor {
    type V = ProcessorState;

    closed spec fn view(&self) -> ProcessorState {
        ProcessorState {
            gain: self.gain@,
            drive: self.drive@,
            noise: self.noise@,
            algorithm: self.algorithm,
            pre_peak_meter: self.pre_peak_meter@,
            peak_meter: self.peak_meter@,
            ui_data: self.ui_data,
            sample_rate: self.sample_rate as int,
        }
    }
}

impl Default for SignalProcessor {
    /// A processor that has not been given a sample rate yet: the
    /// parameters are as `new` sets them, targets are taken at once, and the
    /// meters hold their level.
    fn default() -> (processor: SignalProcessor)
        ensures
            processor@ == (ProcessorState {
                pre_peak_meter: MeterState { level: 0, weight: ONE as int },
                peak_meter: MeterState { level: 0, weight: ONE as int },
                ..SignalProcessor::initial_state(0)
            }),
            processor.noise_seeded_with(NOISE_SEED),
    {
        SignalProcessor {
            gain: Smoother::new(SmoothingStyle::Logarithmic(SMOOTHING_MS), DEFAULT_GAIN),
            drive: Smoother::new(SmoothingStyle::Linear(SMOOTHING_MS), DEFAULT_DRIVE),
            noise: Smoother::new(SmoothingStyle::Linear(SMOOTHING_MS), DEFAULT_NOISE),
            algorithm: DistortionAlgorithm::SoftClip,
            injector: NoiseInjector::new(NOISE_SEED),
            pre_peak_meter: PeakMeter::with_weight(ONE),
            peak_meter: PeakMeter::with_weight(ONE),
            ui_data: UIData { algorithm: DistortionAlgorithm::SoftClip, drive: DEFAULT_DRIVE },
            sample_rate: 0,
        }
    }
}

/// What a sample becomes in the pipeline.
pub fn shape(
    sample: i64,
    noise: i64,
    amount: i64,
    drive: i64,
    algorithm: DistortionAlgorithm,
    gain: i64,
) -> (out: i64)
    ensures
        out == shaped_spec(
            sample as int,
            noise as int,
            amount as int,
            drive as int,
            algorithm,
            gain as int,
        ),
{
    let noisy: i64 = multiply(sample, noise_gain(noise, amount));
    let driven: i64 = multiply(noisy, drive);
    multiply(algorithm.calculate(driven), gain)
}

/// The mean of `count` magnitudes whose sum is `sum`.
fn mean_of(sum: u128, count: usize) -> (mean: i64)
    requires
        count >= 1,
    ensures
        mean == saturate((sum as int) / (count as int)),
{
    let quotient: u128 = sum / (count as u128);
    if quotient > LIMIT as u128 {
        LIMIT
    } else {
        quotient as i64
    }
}

impl SignalProcessor {
    /// The noise value that the `k`-th sample-frame from now is processed
    /// with.
    pub closed spec fn upcoming_noise(&self, k: nat) -> int {
        self.injector.upcoming(k)
    }

    /// The noise values of the next `count` sample-frames.
    pub open spec fn upcoming_noises(&self, count: nat) -> Seq<int> {
        Seq::new(count, |k: int| self.upcoming_noise(k as nat))
    }

    /// Whether the noise is where the sequence of `seed` is after `drawn`
    /// draws: the noise values to come are those of that sequence from
    /// there on.
    pub open spec fn noise_at(&self, seed: u64, drawn: nat) -> bool {
        forall|k: nat| #[trigger]
            self.upcoming_noise(k) == sample_of_word(seeded_words(seed)[k + drawn])
    }

    /// Whether the noise is at the start of the sequence of `seed`.
    pub open spec fn noise_seeded_with(&self, seed: u64) -> bool {
        self.noise_at(seed, 0)
    }

    /// The state that `new` gives at a sample rate.
    pub open spec fn initial_state(sample_rate: int) -> ProcessorState {
        ProcessorState {
            gain: SmootherState::settled_at(
                SmoothingStyle::Logarithmic(SMOOTHING_MS),
                DEFAULT_GAIN as int,
            ),
            drive: SmootherState::settled_at(
                SmoothingStyle::Linear(SMOOTHING_MS),
                DEFAULT_DRIVE as int,
            ),
            noise: SmootherState::settled_at(
                SmoothingStyle::Linear(SMOOTHING_MS),
                DEFAULT_NOISE as int,
            ),
            algorithm: DistortionAlgorithm::SoftClip,
            pre_peak_meter: MeterState { level: 0, weight: decay_weight_spec(sample_rate) },
            peak_meter: MeterState { level: 0, weight: decay_weight_spec(sample_rate) },
            ui_data: UIData { algorithm: DistortionAlgorithm::SoftClip, drive: DEFAULT_DRIVE },
            sample_rate: sample_rate,
        }
    }

    /// A processor for the sample rate `sample_rate` in hertz: gain and
    /// drive at 1.0, no noise, the first algorithm, the meters at 0, and the
    /// noise at the start of its sequence.
    pub fn new(sample_rate: u32) -> (processor: SignalProcessor)
        ensures
            processor@ == Self::initial_state(sample_rate as int),
            processor.noise_seeded_with(NOISE_SEED),
    {
        SignalProcessor {
            gain: Smoother::new(SmoothingStyle::Logarithmic(SMOOTHING_MS), DEFAULT_GAIN),
            drive: Smoother::new(SmoothingStyle::Linear(SMOOTHING_MS), DEFAULT_DRIVE),
            noise: Smoother::new(SmoothingStyle::Linear(SMOOTHING_MS), DEFAULT_NOISE),
            algorithm: DistortionAlgorithm::SoftClip,
            injector: NoiseInjector::new(NOISE_SEED),
            pre_peak_meter: PeakMeter::new(sample_rate),
            peak_meter: PeakMeter::new(sample_rate),
            ui_data: UIData { algorithm: DistortionAlgorithm::SoftClip, drive: DEFAULT_DRIVE },
            sample_rate,
        }
    }

    /// Takes a new sample rate in hertz: the decay weights of the meters are
    /// derived anew, and ramps that begin from now on use the new rate.
    /// Always succeeds.
    pub fn initialize(&mut self, sample_rate: u32) -> (ready: bool)
        ensures
            ready,
            final(self)@ == (ProcessorState {
                pre_peak_meter: MeterState {
                    level: old(self)@.pre_peak_meter.level,
                    weight: decay_weight_spec(sample_rate as int),
                },
                peak_meter: MeterState {
                    level: old(self)@.peak_meter.level,
                    weight: decay_weight_spec(sample_rate as int),
                },
                sample_rate: sample_rate as int,
                ..old(self)@
            }),
            forall|k: nat| final(self).upcoming_noise(k) == old(self).upcoming_noise(k),
    {
        self.pre_peak_meter.retune(sample_rate);
        self.peak_meter.retune(sample_rate);
        self.sample_rate = sample_rate;
        true
    }

    /// Drops the ramps: every smoother rests at its target.
    pub fn reset(&mut self)
        ensures
            final(self)@ == (ProcessorState {
                gain: SmootherState::settled_at(old(self)@.gain.style, old(self)@.gain.target),
                drive: SmootherState::settled_at(old(self)@.drive.style, old(self)@.drive.target),
                noise: SmootherState::settled_at(old(self)@.noise.style, old(self)@.noise.target),
                ..old(self)@
            }),
            forall|k: nat| final(self).upcoming_noise(k) == old(self).upcoming_noise(k),
    {
        let gain: i64 = self.gain.target();
        self.gain.reset(gain);
        let drive: i64 = self.drive.target();
        self.drive.reset(drive);
        let noise: i64 = self.noise.target();
        self.noise.reset(noise);
    }

    /// Sets the target of the output gain.
    pub fn set_gain(&mut self, target: i64)
        ensures
            final(self)@ == (ProcessorState {
                gain: old(self)@.gain.retargeted(old(self)@.sample_rate, target as int),
                ..old(self)@
            }),
            forall|k: nat| final(self).upcoming_noise(k) == old(self).upcoming_noise(k),
    {
        self.gain.set_target(self.sample_rate, target);
    }

    /// Sets the target of the drive.
    pub fn set_drive(&mut self, target: i64)
        ensures
            final(self)@ == (ProcessorState {
                drive: old(self)@.drive.retargeted(old(self)@.sample_rate, target as int),
                ..old(self)@
            }),
            forall|k: nat| final(self).upcoming_noise(k) == old(self).upcoming_noise(k),
    {
        self.drive.set_target(self.sample_rate, target);
    }

    /// Sets the target of the noise amount.
    pub fn set_noise(&mut self, target: i64)
        ensures
            final(self)@ == (ProcessorState {
                noise: old(self)@.noise.retargeted(old(self)@.sample_rate, target as int),
                ..old(self)@
            }),
            forall|k: nat| final(self).upcoming_noise(k) == old(self).upcoming_noise(k),
    {
        self.noise.set_target(self.sample_rate, target);
    }

    /// Selects the algorithm; the next sample is shaped by it.
    pub fn set_algorithm(&mut self, algorithm: DistortionAlgorithm)
        ensures
            final(self)@ == (ProcessorState { algorithm: algorithm, ..old(self)@ }),
            forall|k: nat| final(self).upcoming_noise(k) == old(self).upcoming_noise(k),
    {
        self.algorithm = algorithm;
    }

    /// The level of the meter of the input.
    pub fn pre_peak_meter(&self) -> (level: i64)
        ensures
            level == self@.pre_peak_meter.level,
    {
        self.pre_peak_meter.level()
    }

    /// The level of the meter of the output.
    pub fn peak_meter(&self) -> (level: i64)
        ensures
            level == self@.peak_meter.level,
    {
        self.peak_meter.level()
    }

    /// The snapshot for the visualization.
    pub fn ui_data(&self) -> (data: UIData)
        ensures
            data == self@.ui_data,
    {
        self.ui_data
    }

    /// The selected algorithm.
    pub fn algorithm(&self) -> (algorithm: DistortionAlgorithm)
        ensures
            algorithm == self@.algorithm,
    {
        self.algorithm
    }

    /// The current value of the output gain.
    pub fn gain(&self) -> (value: i64)
        ensures
            value == self@.gain.current,
    {
        self.gain.current()
    }

    /// The current value of the drive.
    pub fn drive(&self) -> (value: i64)
        ensures
            value == self@.drive.current,
    {
        self.drive.current()
    }

    /// The current value of the noise amount.
    pub fn noise(&self) -> (value: i64)
        ensures
            value == self@.noise.current,
    {
        self.noise.current()
    }

    /// Writes the algorithm and the current drive to the snapshot.
    pub fn update_ui_data(&mut self)
        ensures
            final(self)@ == old(self)@.published(),
            final(self)@.ui_data.drive == old(self)@.drive.current,
            final(self)@.ui_data.algorithm == old(self)@.algorithm,
            forall|k: nat| final(self).upcoming_noise(k) == old(self).upcoming_noise(k),
    {
        self.ui_data.set_drive(self.drive.current());
        self.ui_data.set_algorithm(self.algorithm);
    }
}

/// The number of whole sample-frames in an interleaved block of `len`
/// samples; none where there are no channels.
pub open spec fn frame_count_spec(len: int, channels: int) -> int {
    if channels <= 0 {
        0
    } else {
        len / channels
    }
}

/// The whole sample-frames of a block fit into it.
proof fn lemma_frames_fit(len: int, channels: int, frame: int)
    requires
        channels > 0,
        0 <= len,
        0 <= frame < len / channels,
    ensures
        0 <= frame * channels,
        frame * channels + channels == (frame + 1) * channels,
        (frame + 1) * channels <= (len / channels) * channels <= len,
{
    vstd::arithmetic::div_mod::lemma_fundamental_div_mod(len, channels);
    vstd::arithmetic::div_mod::lemma_mod_bound(len, channels);
    let frames = len / channels;
    assert(frames * channels == channels * frames) by (nonlinear_arith);
    assert(frame * channels + channels == (frame + 1) * channels) by (nonlinear_arith);
    assert((frame + 1) * channels <= frames * channels) by (nonlinear_arith)
        requires
            frame + 1 <= frames,
            channels > 0,
    ;
    assert(0 <= frame * channels) by (nonlinear_arith)
        requires
            0 <= frame,
            channels > 0,
    ;
}

/// An index within the sample-frame `frame` lies in that frame.
proof fn lemma_index_in_frame(i: int, channels: int, frame: int)
    requires
        channels > 0,
        frame * channels <= i < frame * channels + channels,
    ensures
        i / channels == frame,
{
    vstd::arithmetic::div_mod::lemma_fundamental_div_mod_converse(
        i,
        channels,
        frame,
        i - frame * channels,
    );
}

impl SignalProcessor {
    /// Processes the sample-frame that begins at `start`.
    fn process_frame(
        &mut self,
        buffer: &mut Vec<i64>,
        start: usize,
        channels: usize,
        observed: bool,
    )
        requires
            channels >= 1,
            start + channels <= old(buffer)@.len(),
        ensures
            final(buffer)@.len() == old(buffer)@.len(),
            forall|j: int| 0 <= j < start ==> final(buffer)@[j] == old(buffer)@[j],
            forall|j: int|
                start + channels <= j < old(buffer)@.len() ==> final(buffer)@[j] == old(
                    buffer,
                )@[j],
            forall|j: int|
                start <= j < start + channels ==> final(buffer)@[j] == old(
                    self,
                )@.stepped().output(old(self).upcoming_noise(0), old(buffer)@[j] as int),
            final(self)@ == old(self)@.after_frame(
                old(self).upcoming_noise(0),
                as_ints(old(buffer)@.subrange(start as int, start + channels)),
                observed,
            ),
            forall|k: nat| final(self).upcoming_noise(k) == old(self).upcoming_noise(k + 1),
    {
        let ghost input = buffer@;
        let ghost stepped = self@.stepped();
        let ghost frame = as_ints(input.subrange(start as int, start + channels));
        let gain: i64 = self.gain.advance();
        let drive: i64 = self.drive.advance();
        let amount: i64 = self.noise.advance();
        let noise: i64 = self.injector.next_sample();
        let algorithm: DistortionAlgorithm = self.algorithm;
        let ghost shaped = stepped.outputs(noise as int, frame);
        let len: usize = buffer.len();
        let mut before_sum: u128 = 0;
        let mut after_sum: u128 = 0;
        let mut channel: usize = 0;
        while channel < channels
            invariant
                channel <= channels,
                start + channels <= input.len(),
                buffer@.len() == input.len(),
                input.len() == len,
                frame == as_ints(input.subrange(start as int, start + channels)),
                shaped == stepped.outputs(noise as int, frame),
                stepped.gain.current == gain,
                stepped.drive.current == drive,
                stepped.noise.current == amount,
                stepped.algorithm == algorithm,
                forall|j: int| 0 <= j < start ==> buffer@[j] == input[j],
                forall|j: int| start + channel <= j < input.len() ==> buffer@[j] == input[j],
                forall|j: int|
                    start <= j < start + channel ==> buffer@[j] == stepped.output(
                        noise as int,
                        input[j] as int,
                    ),
                before_sum == sum_magnitude(frame.subrange(0, channel as int)),
                after_sum == sum_magnitude(shaped.subrange(0, channel as int)),
                before_sum <= channel * 0x8000_0000_0000_0000,
                after_sum <= channel * 0x8000_0000_0000_0000,
            decreases channels - channel,
        {
            let sample: i64 = buffer[start + channel];
            let out: i64 = shape(sample, noise, amount, drive, algorithm, gain);
            proof {
                assert(frame.subrange(0, channel + 1).drop_last() =~= frame.subrange(
                    0,
                    channel as int,
                ));
                assert(shaped.subrange(0, channel + 1).drop_last() =~= shaped.subrange(
                    0,
                    channel as int,
                ));
                assert(frame[channel as int] == sample);
                assert(shaped[channel as int] == out);
                assert((channel + 1) * 0x8000_0000_0000_0000 == channel * 0x8000_0000_0000_0000
                    + 0x8000_0000_0000_0000) by (nonlinear_arith);
                assert(channel * 0x8000_0000_0000_0000 < 0x1_0000_0000_0000_0000
                    * 0x8000_0000_0000_0000) by (nonlinear_arith)
                    requires
                        channel < 0x1_0000_0000_0000_0000,
                ;
            }
            before_sum = before_sum + magnitude(sample) as u128;
            after_sum = after_sum + magnitude(out) as u128;
            buffer.set(start + channel, out);
            channel = channel + 1;
        }
        proof {
            assert(frame.subrange(0, channels as int) =~= frame);
            assert(shaped.subrange(0, channels as int) =~= shaped);
        }
        if observed {
            let before: i64 = mean_of(before_sum, channels);
            let after: i64 = mean_of(after_sum, channels);
            self.pre_peak_meter.update(before);
            self.peak_meter.update(after);
        }
    }

    /// Processes a block in place and returns how that ended.
    ///
    /// The block holds its sample-frames one after the other, each with one
    /// sample per channel. Samples behind the last whole sample-frame are
    /// left as they are, and so is the whole block where `channels` is 0.
    /// The meters and the snapshot change only while the editor is open.
    pub fn process(
        &mut self,
        buffer: &mut Vec<i64>,
        channels: usize,
        editor_open: bool,
    ) -> (status: ProcessStatus)
        ensures
            status == ProcessStatus::Normal,
            final(buffer)@.len() == old(buffer)@.len(),
            forall|i: int|
                0 <= i < frame_count_spec(old(buffer)@.len() as int, channels as int) * channels
                    ==> final(buffer)@[i] == old(self)@.output_at(
                    old(self).upcoming_noises(
                        frame_count_spec(old(buffer)@.len() as int, channels as int) as nat,
                    ),
                    as_ints(old(buffer)@),
                    channels as int,
                    editor_open,
                    i,
                ),
            forall|i: int|
                frame_count_spec(old(buffer)@.len() as int, channels as int) * channels <= i < old(
                    buffer,
                )@.len() ==> final(buffer)@[i] == old(buffer)@[i],
            final(self)@ == old(self)@.after_frames(
                old(self).upcoming_noises(
                    frame_count_spec(old(buffer)@.len() as int, channels as int) as nat,
                ),
                as_ints(old(buffer)@),
                channels as int,
                editor_open,
                frame_count_spec(old(buffer)@.len() as int, channels as int) as nat,
            ).closed_block(editor_open),
            forall|k: nat|
                final(self).upcoming_noise(k) == old(self).upcoming_noise(
                    k + frame_count_spec(old(buffer)@.len() as int, channels as int) as nat,
                ),
            (forall|i: int| 0 <= i < old(buffer)@.len() ==> old(buffer)@[i] == 0) ==> (forall|
                i: int,
            |
                0 <= i < old(buffer)@.len() ==> final(buffer)@[i] == 0),
            editor_open ==> final(self)@.ui_data.drive == final(self)@.drive.current,
            editor_open ==> final(self)@.ui_data.algorithm == final(self)@.algorithm,
            !editor_open ==> final(self)@.ui_data == old(self)@.ui_data,
    {
        let ghost entry = *self;
        let ghost given = buffer@;
        let ghost input = as_ints(buffer@);
        let len: usize = buffer.len();
        let frames: usize = if channels == 0 {
            0
        } else {
            len / channels
        };
        let ghost noises = entry.upcoming_noises(frames as nat);
        let mut frame: usize = 0;
        let mut start: usize = 0;
        proof {
            assert(0 * channels == 0) by (nonlinear_arith);
        }
        while frame < frames
            invariant
                frame <= frames,
                frames == frame_count_spec(len as int, channels as int),
                len == given.len(),
                buffer@.len() == len,
                input == as_ints(given),
                noises == entry.upcoming_noises(frames as nat),
                start == frame * channels,
                forall|i: int|
                    0 <= i < start ==> buffer@[i] == entry@.output_at(
                        noises,
                        input,
                        channels as int,
                        editor_open,
                        i,
                    ),
                forall|i: int| start <= i < len ==> buffer@[i] == given[i],
                self@ == entry@.after_frames(
                    noises,
                    input,
                    channels as int,
                    editor_open,
                    frame as nat,
                ),
                forall|k: nat| self.upcoming_noise(k) == entry.upcoming_noise(k + frame as nat),
            decreases frames - frame,
        {
            proof {
                lemma_frames_fit(len as int, channels as int, frame as int);
            }
            let ghost current = self@;
            let ghost held = buffer@;
            self.process_frame(buffer, start, channels, editor_open);
            proof {
                assert(self.upcoming_noise(0) == self.upcoming_noise(0));
                assert(entry.upcoming_noise(0 + frame as nat) == noises[frame as int]);
                assert(as_ints(held.subrange(start as int, start + channels)) =~= input.subrange(
                    frame * channels,
                    (frame + 1) * channels,
                ));
                assert forall|i: int| start <= i < start + channels implies buffer@[i]
                    == entry@.output_at(noises, input, channels as int, editor_open, i) by {
                    lemma_index_in_frame(i, channels as int, frame as int);
                }
                assert forall|k: nat| self.upcoming_noise(k) == entry.upcoming_noise(
                    k + (frame + 1) as nat,
                ) by {
                    assert(entry.upcoming_noise((k + 1) + frame as nat) == entry.upcoming_noise(
                        k + (frame + 1) as nat,
                    ));
                }
            }
            start = start + channels;
            frame = frame + 1;
        }
        proof {
            lemma_one_step_per_frame(
                entry@,
                noises,
                input,
                channels as int,
                editor_open,
                frames as nat,
            );
        }
        if editor_open {
            self.update_ui_data();
        }
        proof {
            if forall|i: int| 0 <= i < given.len() ==> given[i] == 0 {
                assert forall|i: int| 0 <= i < given.len() implies buffer@[i] == 0 by {
                    assert(given[i] == 0);
                    assert(input[i] == 0);
                    if i < start {
                        let at = i / (channels as int);
                        assert(buffer@[i] == entry@.output_at(
                            noises,
                            input,
                            channels as int,
                            editor_open,
                            i,
                        ));
                        lemma_silence_stays_silence(
                            noises[at],
                            entry@.after_frames(
                                noises,
                                input,
                                channels as int,
                                editor_open,
                                at as nat,
                            ).stepped(),
                        );
                    }
                }
            }
        }
        ProcessStatus::Normal
    }
}

/// Every noise value that a processor will use lies from 0 up to 1.0.
pub proof fn lemma_noise_in_range(processor: SignalProcessor, k: nat)
    ensures
        0 <= processor.upcoming_noise(k) < ONE,
{
    lemma_sample_in_range(processor.injector.word(k));
}

/// Two processors whose noise is at the same place of the sequence of one
/// seed use the same noise values, frame for frame.
pub proof fn lemma_same_seed_same_noise(
    a: SignalProcessor,
    b: SignalProcessor,
    seed: u64,
    drawn: nat,
)
    requires
        a.noise_at(seed, drawn),
        b.noise_at(seed, drawn),
    ensures
        forall|k: nat| a.upcoming_noise(k) == b.upcoming_noise(k),
        forall|count: nat| a.upcoming_noises(count) == b.upcoming_noises(count),
{
    assert forall|count: nat| a.upcoming_noises(count) == b.upcoming_noises(count) by {
        assert(a.upcoming_noises(count) =~= b.upcoming_noises(count));
    }
}

/// A processor whose noise values to come are those of another, `frames`
/// draws further, is that much further in the sequence of the seed.
pub proof fn lemma_noise_moves_on(
    before: SignalProcessor,
    after: SignalProcessor,
    seed: u64,
    drawn: nat,
    frames: nat,
)
    requires
        before.noise_at(seed, drawn),
        forall|k: nat| after.upcoming_noise(k) == before.upcoming_noise(k + frames),
    ensures
        after.noise_at(seed, drawn + frames),
{
    assert forall|k: nat| #[trigger]
        after.upcoming_noise(k) == sample_of_word(
            seeded_words(seed)[k + (drawn + frames)],
        ) by {
        assert(after.upcoming_noise(k) == before.upcoming_noise(k + frames));
        assert((k + frames) + drawn == k + (drawn + frames));
    }
}

/// Two processors in the same state whose noise is at the same place of the
/// sequence of one seed make the same of the same block: every sample of
/// the output and the state afterwards agree.
pub proof fn lemma_same_seed_same_output(
    a: SignalProcessor,
    b: SignalProcessor,
    seed: u64,
    drawn: nat,
    input: Seq<int>,
    channels: int,
    observed: bool,
    frames: nat,
)
    requires
        a@ == b@,
        a.noise_at(seed, drawn),
        b.noise_at(seed, drawn),
    ensures
        a@.after_frames(a.upcoming_noises(frames), input, channels, observed, frames)
            == b@.after_frames(b.upcoming_noises(frames), input, channels, observed, frames),
        forall|i: int|
            a@.output_at(a.upcoming_noises(frames), input, channels, observed, i) == b@.output_at(
                b.upcoming_noises(frames),
                input,
                channels,
                observed,
                i,
            ),
{
    lemma_same_seed_same_noise(a, b, seed, drawn);
    assert(a.upcoming_noises(frames) == b.upcoming_noises(frames));
}

/// Silence stays silence: the pipeline makes 0 of the sample 0, whatever
/// the noise, the noise amount, the drive, the algorithm and the gain.
pub proof fn lemma_silence_is_fixed(
    noise: int,
    amount: int,
    drive: int,
    algorithm: DistortionAlgorithm,
    gain: int,
)
    ensures
        shaped_spec(0, noise, amount, drive, algorithm, gain) == 0,
{
    assert(0 * noise_gain_spec(noise, amount) == 0) by (nonlinear_arith);
    assert(0 * drive == 0) by (nonlinear_arith);
    assert(0 * gain == 0) by (nonlinear_arith);
    crate::algorithms::lemma_zero_fixed(algorithm);
}

/// The output is bounded whatever the input and the drive are: its
/// magnitude is at most that of the gain, since every algorithm keeps its
/// output within 1.0.
pub proof fn lemma_output_within_gain(
    sample: int,
    noise: int,
    amount: int,
    drive: int,
    algorithm: DistortionAlgorithm,
    gain: int,
)
    ensures
        -abs_spec(gain) <= shaped_spec(sample, noise, amount, drive, algorithm, gain) <= abs_spec(
            gain,
        ),
{
    let driven = multiply_spec(multiply_spec(sample, noise_gain_spec(noise, amount)), drive);
    let shaped = algorithm.calculate_spec(driven);
    crate::algorithms::lemma_output_bounded(algorithm, driven);
    let size = abs_spec(gain);
    assert(-(size * ONE) <= shaped * gain <= size * ONE) by (nonlinear_arith)
        requires
            -ONE <= shaped <= ONE,
            size == if gain < 0 { -gain } else { gain },
    ;
    crate::fixed::lemma_div_trunc_within(shaped * gain, ONE as int, size);
}

/// A processor in any state makes 0 of the sample 0.
pub proof fn lemma_silence_stays_silence(noise: int, state: ProcessorState)
    ensures
        state.output(noise, 0) == 0,
{
    lemma_silence_is_fixed(
        noise,
        state.noise.current,
        state.drive.current,
        state.algorithm,
        state.gain.current,
    );
}

/// The smoothers take one step per sample-frame, whatever the number of
/// channels, and a block changes nothing else of them. The algorithm and
/// the sample rate stay.
pub proof fn lemma_one_step_per_frame(
    state: ProcessorState,
    noises: Seq<int>,
    input: Seq<int>,
    channels: int,
    observed: bool,
    count: nat,
)
    ensures
        state.after_frames(noises, input, channels, observed, count).gain
            == state.gain.advanced_by(count),
        state.after_frames(noises, input, channels, observed, count).drive
            == state.drive.advanced_by(count),
        state.after_frames(noises, input, channels, observed, count).noise
            == state.noise.advanced_by(count),
        state.after_frames(noises, input, channels, observed, count).algorithm == state.algorithm,
        state.after_frames(noises, input, channels, observed, count).sample_rate
            == state.sample_rate,
        state.after_frames(noises, input, channels, observed, count).ui_data == state.ui_data,
    decreases count,
{
    if count > 0 {
        lemma_one_step_per_frame(state, noises, input, channels, observed, (count - 1) as nat);
    }
}

/// While the editor is closed a block leaves the meters and the snapshot
/// as they are.
pub proof fn lemma_unobserved_block(
    state: ProcessorState,
    noises: Seq<int>,
    input: Seq<int>,
    channels: int,
    count: nat,
)
    ensures
        state.after_frames(noises, input, channels, false, count).closed_block(false).pre_peak_meter
            == state.pre_peak_meter,
        state.after_frames(noises, input, channels, false, count).closed_block(false).peak_meter
            == state.peak_meter,
        state.after_frames(noises, input, channels, false, count).closed_block(false).ui_data
            == state.ui_data,
    decreases count,
{
    if count > 0 {
        lemma_unobserved_block(state, noises, input, channels, (count - 1) as nat);
    }
}

} // verus!
