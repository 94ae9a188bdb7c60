use distortoise::algorithms::{
    absolute, chomper, cosine, hard_clip, humpback, radial, sine, soft_clip, stepper,
    DistortionAlgorithm, ALGORITHM_COUNT,
};
use distortoise::fixed::ONE;

const ALL: [DistortionAlgorithm; 8] = [
    DistortionAlgorithm::SoftClip,
    DistortionAlgorithm::HardClip,
    DistortionAlgorithm::Radial,
    DistortionAlgorithm::Chomper,
    DistortionAlgorithm::Sine,
    DistortionAlgorithm::Stepper,
    DistortionAlgorithm::Humpback,
    DistortionAlgorithm::Absolute,
];

fn to_real(x: i64) -> f64 {
    x as f64 / ONE as f64
}

fn clip(x: f64) -> f64 {
    x.max(-1.0).min(1.0)
}

fn reference(algorithm: DistortionAlgorithm, x: f64) -> f64 {
    let pi = std::f64::consts::PI;
    match algorithm {
        DistortionAlgorithm::SoftClip => {
            let c = clip(x);
            1.5 * (c - c * c * c / 3.0)
        }
        DistortionAlgorithm::HardClip => clip(x),
        DistortionAlgorithm::Radial => {
            if x == 0.0 {
                0.0
            } else {
                let c = clip(x);
                let s = c.signum();
                s * (1.0 - (c - s) * (c - s)).sqrt()
            }
        }
        DistortionAlgorithm::Chomper => clip(1.5 * x - 0.7 * x * x * x),
        DistortionAlgorithm::Sine => (pi / 2.0 * x).sin(),
        DistortionAlgorithm::Stepper => clip(0.5 * (x * (2.0 * pi * x).cos() + x)),
        DistortionAlgorithm::Humpback => clip(0.14 * x.powi(5) - 1.15 * x.powi(3) + 1.9 * x),
        DistortionAlgorithm::Absolute => clip(x.abs()),
    }
}

#[test]
fn hard_clip_limits_to_unit_range() {
    assert_eq!(hard_clip(1_200_000_000), ONE);
    assert_eq!(hard_clip(-1_200_000_000), -ONE);
    assert_eq!(hard_clip(600_000_000), 600_000_000);
    assert_eq!(hard_clip(ONE), ONE);
    assert_eq!(hard_clip(-ONE), -ONE);
    assert_eq!(hard_clip(0), 0);
    assert_eq!(hard_clip(i64::MAX), ONE);
    assert_eq!(hard_clip(i64::MIN), -ONE);
}

#[test]
fn hard_clip_is_clamp_everywhere() {
    let mut x: i64 = -10 * ONE;
    while x <= 10 * ONE {
        assert_eq!(hard_clip(x), x.clamp(-ONE, ONE));
        x += 7_654_321;
    }
}

#[test]
fn soft_clip_exact_values() {
    assert_eq!(soft_clip(500_000_000), 687_500_000);
    assert_eq!(soft_clip(-500_000_000), -687_500_000);
    assert_eq!(soft_clip(300_000_000), 436_500_000);
    assert_eq!(soft_clip(ONE), ONE);
    assert_eq!(soft_clip(-1_700_000_000), -ONE);
    assert_eq!(soft_clip(2_500_000_000), ONE);
    assert_eq!(soft_clip(0), 0);
}

#[test]
fn soft_clip_is_odd() {
    let mut x: i64 = -10 * ONE;
    while x <= 10 * ONE {
        assert_eq!(soft_clip(-x), -soft_clip(x));
        x += 3_456_789;
    }
}

#[test]
fn radial_is_zero_at_zero() {
    assert_eq!(radial(0), 0);
    assert_eq!(DistortionAlgorithm::Radial.calculate(0), 0);
}

#[test]
fn radial_exact_values() {
    assert_eq!(radial(500_000_000), 866_025_403);
    assert_eq!(radial(-500_000_000), -866_025_403);
    assert_eq!(radial(300_000_000), 714_142_842);
    assert_eq!(radial(ONE), ONE);
    assert_eq!(radial(-ONE), -ONE);
    assert_eq!(radial(5 * ONE), ONE);
    assert_eq!(radial(-5 * ONE), -ONE);
    assert_eq!(radial(1), 44_721);
    assert_eq!(radial(-1), -44_721);
}

#[test]
fn chomper_exact_values() {
    assert_eq!(chomper(500_000_000), 662_500_000);
    assert_eq!(chomper(-500_000_000), -662_500_000);
    assert_eq!(chomper(ONE), 800_000_000);
    assert_eq!(chomper(300_000_000), 431_100_000);
    assert_eq!(chomper(-1_700_000_000), 889_100_000);
    assert_eq!(chomper(2 * ONE), -ONE);
    assert_eq!(chomper(-2 * ONE), ONE);
    assert_eq!(chomper(2_500_000_000), -ONE);
    assert_eq!(chomper(i64::MAX), -ONE);
    assert_eq!(chomper(i64::MIN), ONE);
    assert_eq!(chomper(0), 0);
}

#[test]
fn sine_exact_values() {
    assert_eq!(sine(0), 0);
    assert_eq!(sine(ONE), ONE);
    assert_eq!(sine(2 * ONE), 0);
    assert_eq!(sine(3 * ONE), -ONE);
    assert_eq!(sine(4 * ONE), 0);
    assert_eq!(sine(-ONE), -ONE);
    assert_eq!(sine(500_000_000), 707_106_781);
    assert_eq!(sine(-500_000_000), -707_106_781);
    assert_eq!(sine(300_000_000), 453_990_500);
    assert_eq!(sine(2_500_000_000), -707_106_781);
    assert_eq!(sine(-1_700_000_000), -453_990_500);
}

#[test]
fn sine_has_period_four() {
    let mut x: i64 = -9 * ONE;
    while x <= 9 * ONE {
        assert_eq!(sine(x + 4 * ONE), sine(x));
        assert_eq!(sine(2 * ONE - x), sine(x));
        x += 12_345_678;
    }
}

#[test]
fn sine_is_close_to_the_sine() {
    let mut x: i64 = -8 * ONE;
    while x <= 8 * ONE {
        let expected = reference(DistortionAlgorithm::Sine, to_real(x));
        assert!((to_real(sine(x)) - expected).abs() < 0.00000001);
        x += 1_234_567;
    }
}

#[test]
fn cosine_exact_values() {
    assert_eq!(cosine(0), ONE);
    assert_eq!(cosine(250_000_000), 0);
    assert_eq!(cosine(500_000_000), -ONE);
    assert_eq!(cosine(ONE), ONE);
    assert_eq!(cosine(-250_000_000), 0);
    assert_eq!(cosine(125_000_000), 707_106_781);
    assert_eq!(cosine(i64::MAX), cosine(i64::MAX % ONE));
}

#[test]
fn stepper_exact_values() {
    assert_eq!(stepper(0), 0);
    assert_eq!(stepper(250_000_000), 125_000_000);
    assert_eq!(stepper(500_000_000), 0);
    assert_eq!(stepper(ONE), ONE);
    assert_eq!(stepper(300_000_000), 103_647_450);
    assert_eq!(stepper(-1_700_000_000), -587_335_555);
    assert_eq!(stepper(2_500_000_000), 0);
    assert_eq!(stepper(3 * ONE), ONE);
    assert_eq!(stepper(-3 * ONE), -ONE);
}

#[test]
fn humpback_exact_values() {
    assert_eq!(humpback(0), 0);
    assert_eq!(humpback(500_000_000), 810_625_000);
    assert_eq!(humpback(-500_000_000), -810_625_000);
    assert_eq!(humpback(ONE), 890_000_000);
    assert_eq!(humpback(300_000_000), 539_290_200);
    assert_eq!(humpback(-1_700_000_000), 432_150_200);
    assert_eq!(humpback(2_500_000_000), 453_125_000);
    assert_eq!(humpback(3 * ONE), ONE);
    assert_eq!(humpback(-3 * ONE), -ONE);
    assert_eq!(humpback(i64::MAX), ONE);
    assert_eq!(humpback(i64::MIN), -ONE);
}

#[test]
fn absolute_exact_values() {
    assert_eq!(absolute(0), 0);
    assert_eq!(absolute(300_000_000), 300_000_000);
    assert_eq!(absolute(-300_000_000), 300_000_000);
    assert_eq!(absolute(-5 * ONE), ONE);
    assert_eq!(absolute(5 * ONE), ONE);
    assert_eq!(absolute(i64::MIN), ONE);
}

#[test]
fn every_algorithm_stays_within_unit_range() {
    for algorithm in ALL {
        let mut x: i64 = -10 * ONE;
        while x <= 10 * ONE {
            let y = algorithm.calculate(x);
            assert!(-ONE <= y && y <= ONE);
            x += 2_345_678;
        }
        for x in [i64::MIN, i64::MIN + 1, -1, 0, 1, i64::MAX - 1, i64::MAX] {
            let y = algorithm.calculate(x);
            assert!(-ONE <= y && y <= ONE);
        }
    }
}

#[test]
fn every_algorithm_maps_zero_to_zero() {
    for algorithm in ALL {
        assert_eq!(algorithm.calculate(0), 0);
    }
}

#[test]
fn every_algorithm_follows_its_formula() {
    for algorithm in ALL {
        let tolerance = 0.00000002;
        let mut x: i64 = -4 * ONE;
        while x <= 4 * ONE {
            let expected = reference(algorithm, to_real(x));
            let got = to_real(algorithm.calculate(x));
            assert!((got - expected).abs() < tolerance);
            x += 1_234_567;
        }
    }
}

#[test]
fn calculate_selects_the_function() {
    for x in [-1_700_000_000, -300_000_000, 0, 1, 450_000_000, 2_100_000_000] {
        assert_eq!(DistortionAlgorithm::SoftClip.calculate(x), soft_clip(x));
        assert_eq!(DistortionAlgorithm::HardClip.calculate(x), hard_clip(x));
        assert_eq!(DistortionAlgorithm::Radial.calculate(x), radial(x));
        assert_eq!(DistortionAlgorithm::Chomper.calculate(x), chomper(x));
        assert_eq!(DistortionAlgorithm::Sine.calculate(x), sine(x));
        assert_eq!(DistortionAlgorithm::Stepper.calculate(x), stepper(x));
        assert_eq!(DistortionAlgorithm::Humpback.calculate(x), humpback(x));
        assert_eq!(DistortionAlgorithm::Absolute.calculate(x), absolute(x));
    }
}

#[test]
fn ordinals_and_algorithms_correspond() {
    assert_eq!(ALGORITHM_COUNT, 8);
    for (id, algorithm) in ALL.iter().enumerate() {
        assert_eq!(algorithm.to_index(), id);
        assert_eq!(DistortionAlgorithm::from_index(id), *algorithm);
        assert_eq!(usize::from(*algorithm), id);
        assert_eq!(DistortionAlgorithm::from(id), *algorithm);
    }
}

#[test]
fn ordinal_out_of_range_gives_the_first_algorithm() {
    assert_eq!(DistortionAlgorithm::from_index(8), DistortionAlgorithm::SoftClip);
    assert_eq!(DistortionAlgorithm::from_index(usize::MAX), DistortionAlgorithm::SoftClip);
    assert_eq!(DistortionAlgorithm::from(8usize), DistortionAlgorithm::SoftClip);
}
