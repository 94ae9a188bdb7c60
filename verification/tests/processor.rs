use distortoise::algorithms::DistortionAlgorithm;
use distortoise::data::UIData;
use distortoise::fixed::{magnitude, ONE};
use distortoise::meter::PeakMeter;
use distortoise::noise::{NoiseInjector, NOISE_SEED};
use distortoise::processor::{shape, ProcessStatus, SignalProcessor, SMOOTHING_MS};
use distortoise::smoother::{Smoother, SmoothingStyle};

const ALL: [DistortionAlgorithm; 8] = [
    DistortionAlgorithm::SoftClip,
    DistortionAlgorithm::HardClip,
    DistortionAlgorithm::Radial,
    DistortionAlgorithm::Chomper,
    DistortionAlgorithm::Sine,
    DistortionAlgorithm::Stepper,
    DistortionAlgorithm::Humpback,
    DistortionAlgorithm::Absolute,
];

fn settled(algorithm: DistortionAlgorithm, gain: i64, drive: i64, noise: i64) -> SignalProcessor {
    let mut processor = SignalProcessor::new(48_000);
    processor.set_algorithm(algorithm);
    processor.set_gain(gain);
    processor.set_drive(drive);
    processor.set_noise(noise);
    processor.reset();
    processor
}

fn some_block(len: usize) -> Vec<i64> {
    (0..len).map(|i| ((i as i64 * 287_654_321) % (3 * ONE)) - 1_500_000_000).collect()
}

#[test]
fn shape_exact_values() {
    assert_eq!(
        shape(500_000_000, 500_000_000, ONE, ONE, DistortionAlgorithm::SoftClip, 500_000_000),
        350_722_167
    );
    assert_eq!(
        shape(400_000_000, 500_000_000, ONE, 2 * ONE, DistortionAlgorithm::HardClip, 700_000_000),
        574_000_000
    );
    assert_eq!(shape(ONE, 0, 0, ONE, DistortionAlgorithm::HardClip, ONE), ONE);
    assert_eq!(shape(-ONE, 0, 0, ONE, DistortionAlgorithm::Absolute, -ONE), -ONE);
}

#[test]
fn driven_sample_clamps_to_one() {
    assert_eq!(shape(600_000_000, 0, 0, 2 * ONE, DistortionAlgorithm::HardClip, ONE), ONE);
    assert_eq!(
        shape(600_000_000, 999_999_940, ONE, 2 * ONE, DistortionAlgorithm::HardClip, ONE),
        ONE
    );
    let mut processor = settled(DistortionAlgorithm::HardClip, ONE, 2 * ONE, 0);
    let mut buffer = vec![600_000_000];
    assert_eq!(processor.process(&mut buffer, 1, false), ProcessStatus::Normal);
    assert_eq!(buffer, vec![ONE]);
}

#[test]
fn silence_stays_silence() {
    for algorithm in ALL {
        for (gain, drive) in [(ONE, ONE), (0, 10 * ONE), (500_000_000, 3 * ONE), (-ONE, -ONE)] {
            for noise in [0, ONE] {
                for channels in [1usize, 2, 3] {
                    let mut processor = SignalProcessor::new(48_000);
                    processor.set_algorithm(algorithm);
                    processor.set_gain(gain);
                    processor.set_drive(drive);
                    processor.set_noise(noise);
                    let mut buffer = vec![0i64; 96];
                    processor.process(&mut buffer, channels, true);
                    assert_eq!(buffer, vec![0i64; 96]);
                }
            }
        }
    }
}

#[test]
fn new_processor_has_the_default_parameters() {
    let processor = SignalProcessor::new(44_100);
    assert_eq!(SMOOTHING_MS, 50);
    assert_eq!(processor.gain(), ONE);
    assert_eq!(processor.drive(), ONE);
    assert_eq!(processor.noise(), 0);
    assert_eq!(processor.algorithm(), DistortionAlgorithm::SoftClip);
    assert_eq!(processor.pre_peak_meter(), 0);
    assert_eq!(processor.peak_meter(), 0);
    assert_eq!(processor.ui_data(), UIData::default());
}

#[test]
fn block_goes_through_the_pipeline_frame_by_frame() {
    for channels in [1usize, 2, 5] {
        for algorithm in ALL {
            let mut processor = SignalProcessor::new(48_000);
            processor.set_algorithm(algorithm);
            processor.set_gain(300_000_000);
            processor.set_drive(7 * ONE);
            processor.set_noise(ONE);
            let mut gain = Smoother::new(SmoothingStyle::Logarithmic(50), ONE);
            gain.set_target(48_000, 300_000_000);
            let mut drive = Smoother::new(SmoothingStyle::Linear(50), ONE);
            drive.set_target(48_000, 7 * ONE);
            let mut amount = Smoother::new(SmoothingStyle::Linear(50), 0);
            amount.set_target(48_000, ONE);
            let mut injector = NoiseInjector::new(NOISE_SEED);
            let input = some_block(channels * 40);
            let mut buffer = input.clone();
            processor.process(&mut buffer, channels, false);
            for frame in 0..40 {
                let g = gain.advance();
                let d = drive.advance();
                let a = amount.advance();
                let n = injector.next_sample();
                for channel in 0..channels {
                    let i = frame * channels + channel;
                    assert_eq!(buffer[i], shape(input[i], n, a, d, algorithm, g));
                }
            }
            assert_eq!(processor.gain(), gain.current());
            assert_eq!(processor.drive(), drive.current());
            assert_eq!(processor.noise(), amount.current());
        }
    }
}

#[test]
fn smoothers_step_once_per_frame() {
    let mut mono = SignalProcessor::new(48_000);
    let mut stereo = SignalProcessor::new(48_000);
    mono.set_drive(10 * ONE);
    stereo.set_drive(10 * ONE);
    let mut one = vec![0i64; 100];
    let mut two = vec![0i64; 200];
    mono.process(&mut one, 1, false);
    stereo.process(&mut two, 2, false);
    assert_eq!(mono.drive(), ONE + 100 * 3_750_000);
    assert_eq!(stereo.drive(), ONE + 100 * 3_750_000);
}

#[test]
fn drive_ramp_completes_after_its_duration() {
    let mut processor = SignalProcessor::new(48_000);
    processor.set_drive(10 * ONE);
    processor.set_gain(500_000_000);
    processor.set_noise(ONE);
    let mut buffer = vec![0i64; 2 * 2399];
    processor.process(&mut buffer, 2, false);
    assert!(processor.drive() < 10 * ONE);
    assert!(processor.gain() > 500_000_000);
    let mut last = vec![0i64; 2];
    processor.process(&mut last, 2, false);
    assert_eq!(processor.drive(), 10 * ONE);
    assert_eq!(processor.gain(), 500_000_000);
    assert_eq!(processor.noise(), ONE);
    let mut more = vec![0i64; 64];
    processor.process(&mut more, 2, false);
    assert_eq!(processor.drive(), 10 * ONE);
    assert_eq!(processor.gain(), 500_000_000);
    assert_eq!(processor.noise(), ONE);
}

#[test]
fn noise_is_drawn_once_per_frame() {
    let mut mono = settled(DistortionAlgorithm::HardClip, ONE, ONE, ONE);
    let mut stereo = settled(DistortionAlgorithm::HardClip, ONE, ONE, ONE);
    let mut one = vec![500_000_000i64; 50];
    let mut two = vec![500_000_000i64; 100];
    mono.process(&mut one, 1, false);
    stereo.process(&mut two, 2, false);
    for frame in 0..50 {
        assert_eq!(two[2 * frame], one[frame]);
        assert_eq!(two[2 * frame + 1], one[frame]);
    }
    let mut next_one = vec![500_000_000i64; 8];
    let mut next_two = vec![500_000_000i64; 8];
    mono.process(&mut next_one, 1, false);
    stereo.process(&mut next_two, 1, false);
    assert_eq!(next_one, next_two);
    assert!(one.iter().any(|v| *v != one[0]));
}

#[test]
fn noise_scales_each_sample_by_at_most_its_ceiling() {
    let mut processor = settled(DistortionAlgorithm::HardClip, ONE, ONE, ONE);
    let mut buffer = vec![500_000_000i64; 500];
    processor.process(&mut buffer, 1, false);
    for sample in buffer {
        assert!(500_000_000 <= sample && sample < 525_000_000);
    }
}

#[test]
fn two_processors_give_the_same_output() {
    let input = some_block(512);
    let mut first = settled(DistortionAlgorithm::Humpback, 800_000_000, 4 * ONE, ONE);
    let mut second = settled(DistortionAlgorithm::Humpback, 800_000_000, 4 * ONE, ONE);
    let mut a = input.clone();
    let mut b = input.clone();
    first.process(&mut a, 2, true);
    second.process(&mut b, 2, true);
    assert_eq!(a, b);
    assert_ne!(a, input);
    assert_eq!(first.peak_meter(), second.peak_meter());
}

#[test]
fn closed_editor_leaves_meters_and_snapshot() {
    let mut processor = settled(DistortionAlgorithm::Sine, ONE, 3 * ONE, 0);
    let mut buffer = some_block(256);
    processor.process(&mut buffer, 2, false);
    assert_eq!(processor.pre_peak_meter(), 0);
    assert_eq!(processor.peak_meter(), 0);
    assert_eq!(processor.ui_data(), UIData::default());
}

#[test]
fn open_editor_gets_meters_and_snapshot() {
    let mut processor = settled(DistortionAlgorithm::HardClip, 500_000_000, 4 * ONE, 0);
    let mut buffer = vec![500_000_000, -300_000_000];
    processor.process(&mut buffer, 2, true);
    assert_eq!(buffer, vec![500_000_000, -500_000_000]);
    assert_eq!(processor.pre_peak_meter(), 400_000_000);
    assert_eq!(processor.peak_meter(), 500_000_000);
    assert_eq!(
        processor.ui_data(),
        UIData { algorithm: DistortionAlgorithm::HardClip, drive: 4 * ONE }
    );
}

#[test]
fn meters_follow_the_mean_magnitude_of_each_frame() {
    let mut processor = settled(DistortionAlgorithm::SoftClip, 700_000_000, 2 * ONE, 0);
    let mut before = PeakMeter::new(48_000);
    let mut after = PeakMeter::new(48_000);
    let input = some_block(3 * 200);
    let mut buffer = input.clone();
    processor.process(&mut buffer, 3, true);
    for frame in 0..200 {
        let mut sum_in: u128 = 0;
        let mut sum_out: u128 = 0;
        for channel in 0..3 {
            sum_in += magnitude(input[3 * frame + channel]) as u128;
            sum_out += magnitude(buffer[3 * frame + channel]) as u128;
        }
        before.update((sum_in / 3) as i64);
        after.update((sum_out / 3) as i64);
    }
    assert_eq!(processor.pre_peak_meter(), before.level());
    assert_eq!(processor.peak_meter(), after.level());
    assert!(processor.pre_peak_meter() > 0);
    assert!(processor.peak_meter() > 0);
}

#[test]
fn meter_decays_over_silent_frames() {
    let mut processor = settled(DistortionAlgorithm::HardClip, ONE, ONE, 0);
    let mut buffer = vec![ONE];
    buffer.extend(vec![0i64; 7200]);
    processor.process(&mut buffer, 1, true);
    assert_eq!(processor.pre_peak_meter(), 249_989_663);
    assert_eq!(processor.peak_meter(), 249_989_663);
}

#[test]
fn snapshot_holds_the_smoothed_drive() {
    let mut processor = SignalProcessor::new(48_000);
    processor.set_drive(10 * ONE);
    processor.set_algorithm(DistortionAlgorithm::Radial);
    let mut buffer = vec![0i64; 10];
    processor.process(&mut buffer, 1, true);
    assert_eq!(processor.drive(), ONE + 10 * 3_750_000);
    assert_eq!(
        processor.ui_data(),
        UIData { algorithm: DistortionAlgorithm::Radial, drive: ONE + 10 * 3_750_000 }
    );
    assert_eq!(processor.ui_data().get_drive(), processor.drive());
}

#[test]
fn update_ui_data_publishes_without_a_step() {
    let mut processor = SignalProcessor::new(48_000);
    processor.set_drive(10 * ONE);
    processor.set_algorithm(DistortionAlgorithm::Chomper);
    processor.update_ui_data();
    assert_eq!(processor.ui_data(), UIData { algorithm: DistortionAlgorithm::Chomper, drive: ONE });
    assert_eq!(processor.drive(), ONE);
}

#[test]
fn samples_behind_the_last_whole_frame_are_left() {
    let mut processor = settled(DistortionAlgorithm::HardClip, 500_000_000, ONE, 0);
    let mut buffer = vec![ONE, ONE, ONE, ONE, ONE];
    processor.process(&mut buffer, 2, false);
    assert_eq!(buffer, vec![500_000_000, 500_000_000, 500_000_000, 500_000_000, ONE]);
    let mut short = vec![ONE, ONE];
    processor.process(&mut short, 3, false);
    assert_eq!(short, vec![ONE, ONE]);
}

#[test]
fn no_channels_means_no_processing() {
    let mut processor = settled(DistortionAlgorithm::HardClip, 500_000_000, ONE, 0);
    processor.set_drive(10 * ONE);
    let mut buffer = vec![ONE, -ONE, 7];
    assert_eq!(processor.process(&mut buffer, 0, true), ProcessStatus::Normal);
    assert_eq!(buffer, vec![ONE, -ONE, 7]);
    assert_eq!(processor.drive(), ONE);
    let mut empty: Vec<i64> = Vec::new();
    assert_eq!(processor.process(&mut empty, 2, true), ProcessStatus::Normal);
    assert!(empty.is_empty());
}

#[test]
fn algorithm_switch_takes_effect_at_once() {
    let mut processor = settled(DistortionAlgorithm::HardClip, ONE, ONE, 0);
    let mut buffer = vec![-500_000_000];
    processor.process(&mut buffer, 1, false);
    assert_eq!(buffer, vec![-500_000_000]);
    processor.set_algorithm(DistortionAlgorithm::Absolute);
    let mut next = vec![-500_000_000];
    processor.process(&mut next, 1, false);
    assert_eq!(next, vec![500_000_000]);
}

#[test]
fn initialize_takes_the_sample_rate() {
    let mut processor = SignalProcessor::new(48_000);
    let mut block = vec![ONE];
    processor.process(&mut block, 1, true);
    assert!(processor.initialize(1000));
    assert_eq!(processor.pre_peak_meter(), ONE);
    processor.set_drive(2 * ONE);
    let mut buffer = vec![0i64; 49];
    processor.process(&mut buffer, 1, false);
    assert!(processor.drive() < 2 * ONE);
    let mut last = vec![0i64; 1];
    processor.process(&mut last, 1, false);
    assert_eq!(processor.drive(), 2 * ONE);
}

#[test]
fn reset_settles_the_smoothers_at_their_targets() {
    let mut processor = SignalProcessor::new(48_000);
    processor.set_gain(250_000_000);
    processor.set_drive(5 * ONE);
    processor.set_noise(ONE);
    assert_eq!(processor.gain(), ONE);
    assert_eq!(processor.drive(), ONE);
    processor.reset();
    assert_eq!(processor.gain(), 250_000_000);
    assert_eq!(processor.drive(), 5 * ONE);
    assert_eq!(processor.noise(), ONE);
}

#[test]
fn output_is_bounded_by_the_gain() {
    for algorithm in ALL {
        let mut processor = settled(algorithm, 800_000_000, 10 * ONE, ONE);
        let mut buffer: Vec<i64> = vec![i64::MAX, i64::MIN, 1, -1, 50 * ONE, -50 * ONE];
        buffer.extend(some_block(300));
        processor.process(&mut buffer, 2, true);
        for sample in buffer {
            assert!(-800_000_000 <= sample && sample <= 800_000_000);
        }
    }
}

#[test]
fn default_processor_waits_for_a_sample_rate() {
    let mut processor = SignalProcessor::default();
    assert_eq!(processor.gain(), ONE);
    assert_eq!(processor.drive(), ONE);
    assert_eq!(processor.noise(), 0);
    assert_eq!(processor.algorithm(), DistortionAlgorithm::SoftClip);
    assert_eq!(processor.ui_data(), UIData::default());
    processor.set_drive(3 * ONE);
    assert_eq!(processor.drive(), 3 * ONE);
    let mut buffer = vec![ONE, 0, 0, 0];
    processor.process(&mut buffer, 1, true);
    assert_eq!(processor.pre_peak_meter(), ONE);
    assert!(processor.initialize(48_000));
    let mut silent = vec![0i64; 1];
    processor.process(&mut silent, 1, true);
    assert_eq!(processor.pre_peak_meter(), 999_807_473);
}

#[test]
fn default_processors_give_the_same_noisy_output() {
    let input = some_block(600);
    let mut first = SignalProcessor::default();
    let mut second = SignalProcessor::default();
    let mut outputs = Vec::new();
    for processor in [&mut first, &mut second] {
        processor.initialize(48_000);
        processor.set_noise(ONE);
        processor.set_drive(3 * ONE);
        let mut head = input[..200].to_vec();
        let mut tail = input[200..].to_vec();
        processor.process(&mut head, 2, true);
        processor.process(&mut tail, 2, false);
        head.extend(tail);
        outputs.push(head);
    }
    assert_eq!(outputs[0], outputs[1]);
    assert_ne!(outputs[0], input);
    assert_eq!(first.ui_data(), second.ui_data());
    assert_eq!(first.peak_meter(), second.peak_meter());
}

#[test]
fn snapshot_drive_is_the_current_drive() {
    let mut processor = SignalProcessor::new(48_000);
    processor.set_drive(7 * ONE);
    let mut buffer = vec![0i64; 33];
    processor.process(&mut buffer, 1, true);
    assert_eq!(processor.ui_data().drive, processor.drive());
    assert_eq!(processor.ui_data().algorithm, processor.algorithm());
    processor.process(&mut buffer, 1, false);
    assert!(processor.ui_data().drive < processor.drive());
    processor.update_ui_data();
    assert_eq!(processor.ui_data().drive, processor.drive());
}

#[test]
fn initialize_gives_a_decay_weight_within_the_unit_range() {
    for rate in [1u32, 3, 6, 7, 44_100, 192_000] {
        let mut processor = SignalProcessor::default();
        assert!(processor.initialize(rate));
        let mut buffer = vec![ONE, 0];
        processor.process(&mut buffer, 1, true);
        let level = processor.pre_peak_meter();
        assert!(0 < level && level < ONE);
    }
}
