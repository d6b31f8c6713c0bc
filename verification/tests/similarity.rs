use astrolaunch::similarity::{name_similarity, Similarity, INFINITY_BITS, THRESHOLD_BITS};

fn value(s: Similarity) -> f64 {
    f64::from_bits(s.to_bits())
}

#[test]
fn similarity_is_the_jaro_winkler_score() {
    assert_eq!(value(name_similarity("cheeseburger", "cheese fries")), strsim::jaro_winkler("cheeseburger", "cheese fries"));
    assert!((value(name_similarity("cheeseburger", "cheese fries")) - 0.866).abs() < 0.001);
    assert_eq!(value(name_similarity("report", "report")), 1.0);
    assert_eq!(value(name_similarity("abc", "xyz")), 0.0);
    assert_eq!(value(name_similarity("", "")), 1.0);
    assert_eq!(value(name_similarity("", "name")), 0.0);
}

#[test]
fn similarity_depends_on_both_strings() {
    let near = name_similarity("report_final", "report_final.txt");
    let far = name_similarity("report_final", "holiday.png");
    assert!(near.to_bits() > far.to_bits());
    assert!(near.exceeds_threshold());
    assert!(!far.exceeds_threshold());
}

#[test]
fn threshold_constant_is_six_tenths() {
    assert_eq!(THRESHOLD_BITS, (0.6f64).to_bits());
    assert_eq!(INFINITY_BITS, f64::INFINITY.to_bits());
}

#[test]
fn threshold_is_strict() {
    assert!(!Similarity::from_bits((0.6f64).to_bits()).exceeds_threshold());
    assert!(Similarity::from_bits((0.6f64).to_bits() + 1).exceeds_threshold());
    assert!(!Similarity::from_bits((0.6f64).to_bits() - 1).exceeds_threshold());
    assert!(Similarity::from_bits((0.6000001f64).to_bits()).exceeds_threshold());
    assert!(Similarity::from_bits((1.0f64).to_bits()).exceeds_threshold());
    assert!(!Similarity::from_bits((0.0f64).to_bits()).exceeds_threshold());
}

#[test]
fn threshold_agrees_with_the_comparison_of_doubles() {
    let samples: [f64; 23] = [
        0.0, -0.0, 0.1, 0.5, 0.59, 0.5999999999999999, 0.6, 0.6000000000000001, 0.61, 0.7, 0.99,
        1.0, 1.5, 1e300, f64::MAX, f64::MIN_POSITIVE, -0.7, -1.0, -1e300, f64::INFINITY,
        f64::NEG_INFINITY, f64::NAN, -f64::NAN,
    ];
    for x in samples {
        assert_eq!(Similarity::from_bits(x.to_bits()).exceeds_threshold(), x > 0.6, "{}", x);
    }
}

#[test]
fn order_of_bits_is_order_of_scores_above_the_threshold() {
    let samples: [f64; 7] = [0.6000000000000001, 0.61, 0.7, 0.75, 0.8541666666666666, 0.99, 1.0];
    for a in samples {
        for b in samples {
            assert_eq!(a.to_bits() >= b.to_bits(), a >= b);
        }
    }
}

#[test]
fn bits_round_trip() {
    let s = Similarity::from_bits(0x3FEB_5555_5555_5555);
    assert_eq!(s.to_bits(), 0x3FEB_5555_5555_5555);
    assert_eq!(s.bits, 0x3FEB_5555_5555_5555);
}

#[test]
fn threshold_agrees_with_doubles_on_many_bit_patterns() {
    let mut x: u64 = 0x9E3779B97F4A7C15;
    for _ in 0..200000 {
        x ^= x << 13;
        x ^= x >> 7;
        x ^= x << 17;
        let value = f64::from_bits(x);
        assert_eq!(Similarity::from_bits(x).exceeds_threshold(), value > 0.6, "{:#x}", x);
        // Patterns near the cutoff and within the unit interval.
        let near = 0x3FE0_0000_0000_0000 + (x >> 12);
        assert_eq!(
            Similarity::from_bits(near).exceeds_threshold(),
            f64::from_bits(near) > 0.6,
            "{:#x}",
            near
        );
    }
}

#[test]
fn order_of_bits_is_order_of_doubles_on_many_admitted_scores() {
    let mut x: u64 = 0x2545F4914F6CDD1D;
    let mut previous = 1.0f64;
    for _ in 0..200000 {
        x ^= x << 13;
        x ^= x >> 7;
        x ^= x << 17;
        let bits = 0x3FE3_3333_3333_3334 + x % (0x3FF0_0000_0000_0000 - 0x3FE3_3333_3333_3333);
        let score = f64::from_bits(bits);
        assert!(score > 0.6 && score <= 1.0);
        assert_eq!(bits >= previous.to_bits(), score >= previous);
        assert_eq!(bits == previous.to_bits(), score == previous);
        previous = score;
    }
}
