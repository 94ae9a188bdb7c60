use distortoise::fixed::{multiply, pow, root, ONE};
use distortoise::meter::{
    decay_weight, PeakMeter, DECAY_POWER, DECAY_ROOT_PER_HERTZ, PEAK_METER_DECAY_MS,
};

#[test]
fn impulse_decays_by_powers_of_the_weight() {
    let mut meter = PeakMeter::with_weight(900_000_000);
    assert_eq!(meter.level(), 0);
    assert_eq!(meter.update(ONE), ONE);
    assert_eq!(meter.update(0), 900_000_000);
    assert_eq!(meter.update(0), 810_000_000);
    assert_eq!(meter.update(0), 729_000_000);
    assert_eq!(meter.update(0), 656_100_000);
    assert_eq!(meter.level(), 656_100_000);
}

#[test]
fn impulse_response_for_many_weights() {
    for weight in [0i64, 1, 250_000_000, 999_807_473, ONE] {
        let mut meter = PeakMeter::with_weight(weight);
        let mut expected = ONE;
        assert_eq!(meter.update(ONE), expected);
        for _ in 0..500 {
            expected = multiply(expected, weight);
            assert_eq!(meter.update(0), expected);
        }
    }
}

#[test]
fn attack_is_instant() {
    let mut meter = PeakMeter::with_weight(999_000_000);
    assert_eq!(meter.update(300_000_000), 300_000_000);
    assert_eq!(meter.update(800_000_000), 800_000_000);
    assert_eq!(meter.update(5 * ONE), 5 * ONE);
}

#[test]
fn release_moves_toward_the_amplitude() {
    let mut half = PeakMeter::with_weight(500_000_000);
    assert_eq!(half.update(ONE), ONE);
    assert_eq!(half.update(500_000_000), 750_000_000);
    assert_eq!(half.update(500_000_000), 625_000_000);
    let mut quarter = PeakMeter::with_weight(250_000_000);
    assert_eq!(quarter.update(800_000_000), 800_000_000);
    assert_eq!(quarter.update(400_000_000), 500_000_000);
    let mut held = PeakMeter::with_weight(ONE);
    assert_eq!(held.update(ONE), ONE);
    assert_eq!(held.update(0), ONE);
    let mut follower = PeakMeter::with_weight(0);
    assert_eq!(follower.update(ONE), ONE);
    assert_eq!(follower.update(123), 123);
}

#[test]
fn equal_amplitude_keeps_the_level() {
    let mut meter = PeakMeter::with_weight(333_333_333);
    assert_eq!(meter.update(ONE), ONE);
    assert_eq!(meter.update(ONE), ONE);
}

#[test]
fn decay_weight_exact_values() {
    assert_eq!(PEAK_METER_DECAY_MS, 150);
    assert_eq!(DECAY_POWER * PEAK_METER_DECAY_MS, DECAY_ROOT_PER_HERTZ * 1000);
    assert_eq!(decay_weight(48_000), 999_807_473);
    assert_eq!(decay_weight(44_100), 999_790_434);
    assert_eq!(decay_weight(22_050), 999_580_931);
    assert_eq!(decay_weight(0), 0);
    assert_eq!(decay_weight(1), 96_887);
    assert_eq!(decay_weight(3), 45_929_202);
    assert_eq!(decay_weight(6), 214_310_990);
    assert_eq!(decay_weight(7), 267_060_421);
    assert_eq!(decay_weight(10), 396_850_258);
    assert_eq!(decay_weight(14), 516_778_890);
    assert_eq!(decay_weight(u32::MAX), 999_999_980);
}

#[test]
fn decay_weight_follows_its_formula() {
    for rate in [1u32, 2, 3, 6, 7, 10, 14, 100, 8_000, 22_050, 44_100, 48_000, 96_000, 192_000] {
        let weight = decay_weight(rate);
        assert!(0 < weight && weight < ONE);
        let expected = 0.25f64.powf(1.0 / (rate as f64 * 150.0 / 1000.0));
        assert!((weight as f64 / ONE as f64 - expected).abs() < 0.00000005);
    }
}

#[test]
fn decay_weight_is_a_power_of_a_root() {
    for rate in [3u32, 10, 44_100, 48_000] {
        let base = root(250_000_000, 3 * rate as u64);
        assert!(pow(base, 3 * rate as u64) <= 250_000_000);
        assert!(pow(base + 1, 3 * rate as u64) > 250_000_000);
        assert_eq!(decay_weight(rate), pow(base, 20));
    }
}

#[test]
fn decay_weight_grows_with_the_sample_rate() {
    let mut last = 0;
    for rate in [1u32, 2, 3, 6, 7, 10, 14, 100, 8_000, 22_050, 44_100, 48_000, 96_000, 192_000] {
        let weight = decay_weight(rate);
        assert!(weight > last);
        last = weight;
    }
}

#[test]
fn level_falls_to_a_quarter_in_the_decay_time() {
    let mut meter = PeakMeter::new(48_000);
    assert_eq!(meter.decay_weight(), 999_807_473);
    assert_eq!(meter.level(), 0);
    meter.update(ONE);
    let mut level = ONE;
    for _ in 0..7200 {
        level = meter.update(0);
    }
    assert_eq!(level, 249_989_663);
    assert!((level - 250_000_000).abs() < 20_000);
}

#[test]
fn weight_is_limited_to_the_unit_range() {
    assert_eq!(PeakMeter::with_weight(2 * ONE).decay_weight(), ONE);
    assert_eq!(PeakMeter::with_weight(-5).decay_weight(), 0);
    assert_eq!(PeakMeter::with_weight(123).decay_weight(), 123);
}

#[test]
fn retune_keeps_the_level() {
    let mut meter = PeakMeter::with_weight(ONE);
    meter.update(700_000_000);
    meter.retune(44_100);
    assert_eq!(meter.level(), 700_000_000);
    assert_eq!(meter.decay_weight(), 999_790_434);
}

#[test]
fn extreme_amplitudes_do_not_overflow() {
    let mut meter = PeakMeter::with_weight(500_000_000);
    assert_eq!(meter.update(i64::MAX), i64::MAX);
    assert_eq!(meter.update(i64::MAX), i64::MAX);
    assert_eq!(meter.update(i64::MIN), 0);
    let mut low = PeakMeter::with_weight(ONE);
    assert_eq!(low.update(i64::MIN), 0);
}
