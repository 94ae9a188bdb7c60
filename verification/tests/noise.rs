use distortoise::fixed::ONE;
use distortoise::noise::{
    noise_gain, sample_from_word, NoiseInjector, MAX_NOISE_VOLUME, NOISE_SEED,
};
use rand::rngs::StdRng;
use rand::{Rng, RngCore, SeedableRng};

#[test]
fn same_seed_gives_the_same_sequence() {
    for seed in [0u64, 1, 42, u64::MAX] {
        let mut a = NoiseInjector::new(seed);
        let mut b = NoiseInjector::new(seed);
        for _ in 0..5000 {
            assert_eq!(a.next_sample(), b.next_sample());
        }
    }
}

#[test]
fn noise_values_lie_below_one() {
    let mut injector = NoiseInjector::new(NOISE_SEED);
    for _ in 0..20_000 {
        let noise = injector.next_sample();
        assert!(0 <= noise && noise < ONE);
    }
}

#[test]
fn injector_gives_the_words_of_the_generator() {
    for seed in [0u64, 7, 1234567890123] {
        let mut rng = StdRng::seed_from_u64(seed);
        let mut injector = NoiseInjector::new(seed);
        for _ in 0..3000 {
            let word = rng.next_u32();
            assert_eq!(injector.next_sample(), sample_from_word(word));
        }
    }
}

#[test]
fn injector_follows_the_uniform_floats_of_the_generator() {
    let mut rng = StdRng::seed_from_u64(NOISE_SEED);
    let mut injector = NoiseInjector::new(NOISE_SEED);
    for _ in 0..3000 {
        let uniform: f32 = rng.gen();
        let expected = (uniform as f64 * ONE as f64).floor() as i64;
        let got = injector.next_sample();
        assert!((got - expected).abs() <= 1);
    }
}

#[test]
fn sequence_moves_on_and_depends_on_the_seed() {
    let mut a = NoiseInjector::new(0);
    let first: Vec<i64> = (0..16).map(|_| a.next_sample()).collect();
    let second: Vec<i64> = (0..16).map(|_| a.next_sample()).collect();
    assert_ne!(first, second);
    assert!(first.iter().any(|v| *v != first[0]));
    let mut b = NoiseInjector::new(1);
    let other: Vec<i64> = (0..16).map(|_| b.next_sample()).collect();
    assert_ne!(first, other);
}

#[test]
fn sample_from_word_takes_the_upper_bits() {
    assert_eq!(sample_from_word(0), 0);
    assert_eq!(sample_from_word(255), 0);
    assert_eq!(sample_from_word(256), 59);
    assert_eq!(sample_from_word(0x8000_0000), 500_000_000);
    assert_eq!(sample_from_word(0x4000_0000), 250_000_000);
    assert_eq!(sample_from_word(u32::MAX), 999_999_940);
}

#[test]
fn noise_gain_exact_values() {
    assert_eq!(MAX_NOISE_VOLUME, 50_000_000);
    assert_eq!(noise_gain(500_000_000, ONE), 1_025_000_000);
    assert_eq!(noise_gain(999_999_999, ONE), 1_049_999_999);
    assert_eq!(noise_gain(500_000_000, 2 * ONE), 1_050_000_000);
    assert_eq!(noise_gain(500_000_000, -ONE), 975_000_000);
    assert_eq!(noise_gain(0, ONE), ONE);
    assert_eq!(noise_gain(i64::MAX, i64::MAX), i64::MAX);
}

#[test]
fn no_noise_amount_means_unit_gain() {
    let mut injector = NoiseInjector::new(NOISE_SEED);
    for _ in 0..1000 {
        assert_eq!(noise_gain(injector.next_sample(), 0), ONE);
    }
}

#[test]
fn noise_gain_stays_below_the_ceiling() {
    let mut injector = NoiseInjector::new(NOISE_SEED);
    for _ in 0..1000 {
        let gain = noise_gain(injector.next_sample(), ONE);
        assert!(ONE <= gain && gain < ONE + MAX_NOISE_VOLUME);
    }
}
