use herdr::seconds::{round_half_even, Seconds};
use herdr::ui::figures::fmt_secs;

fn secs(n: f64) -> Seconds {
    Seconds::from_bits(n.to_bits()).expect("a number")
}

/// Numbers of many sizes, with all kinds of last bits.
fn samples() -> Vec<f64> {
    let mut bits: u64 = 0x9e37_79b9_7f4a_7c15;
    let mut out = vec![
        0.0,
        -0.0,
        f64::MIN_POSITIVE,
        f64::from_bits(1),
        f64::MAX,
        1.0e-7,
        0.1,
        0.5,
        1.0,
        59.999_999_999_999_99,
        60.0,
        4_503_599_627_370_496.0,
        9_007_199_254_740_993.0,
        1.8e19,
        1_787_937_325.123_456,
        1_787_937_325.999_999_8,
    ];
    for i in 0..300u64 {
        bits = bits.wrapping_mul(6_364_136_223_846_793_005).wrapping_add(1_442_695_040_888_963_407);
        let exponent = 1023 - 70 + i % 200;
        out.push(f64::from_bits((bits >> 12) | (exponent << 52)));
    }
    out
}

#[test]
fn bits_that_are_no_number_are_refused() {
    assert!(Seconds::from_bits(f64::NAN.to_bits()).is_none());
    assert!(Seconds::from_bits(f64::INFINITY.to_bits()).is_none());
    assert!(Seconds::from_bits(f64::NEG_INFINITY.to_bits()).is_none());
    assert!(Seconds::from_bits(f64::MAX.to_bits()).is_some());
    assert_eq!(Seconds::from_bits(0), Some(Seconds::zero()));
}

#[test]
fn whole_seconds_are_those_of_the_double() {
    for n in samples() {
        assert_eq!(secs(n).whole(), n.max(0.0) as u64, "{n:?}");
        assert_eq!(secs(-n).whole(), (-n).max(0.0) as u64, "{n:?}");
        assert_eq!(secs(n).is_positive(), n > 0.0, "{n:?}");
        assert_eq!(secs(-n).is_positive(), -n > 0.0, "{n:?}");
    }
    assert_eq!(secs(1.0e300).whole(), u64::MAX);
    assert_eq!(secs(1_234.999).whole(), 1_234);
    assert_eq!(secs(-3.5).whole(), 0);
}

#[test]
fn seconds_are_ordered_as_the_doubles_are() {
    let all = samples();
    for a in &all {
        for b in &all {
            assert_eq!(secs(*a).exceeds(secs(*b)), a > b, "{a:?} {b:?}");
            assert_eq!(secs(-a).exceeds(secs(*b)), -a > *b, "{a:?} {b:?}");
            assert_eq!(secs(*a).exceeds(secs(-b)), *a > -b, "{a:?} {b:?}");
            assert_eq!(secs(-a).exceeds(secs(-b)), -a > -b, "{a:?} {b:?}");
        }
    }
}

#[test]
fn differences_are_those_of_the_doubles() {
    let all = samples();
    for a in &all {
        for b in &all {
            if a > b {
                let out = secs(*a).minus(secs(*b));
                assert_eq!(out, secs(a - b), "{a:?} {b:?}");
                assert_eq!(out.whole(), (a - b) as u64, "{a:?} {b:?}");
            }
        }
    }
    // far smaller than the last bit, a time changes nothing
    let late = 1_787_937_325.123_456;
    assert_eq!(secs(late).minus(secs(1.0e-30)), secs(late));
    // a power of two loses its last bit first
    assert_eq!(secs(4_503_599_627_370_496.0).minus(secs(0.5)), secs(4_503_599_627_370_495.5));
    assert_eq!(secs(4_503_599_627_370_497.0).minus(secs(0.5)), secs(4_503_599_627_370_496.0));
    assert_eq!(fmt_secs(secs(1_787_937_385.0).minus(secs(1_787_937_325.000_000_2))), "59s");
    assert_eq!(fmt_secs(secs(1_787_937_385.0).minus(secs(1_787_937_325.000_000_05))), "1m");
}

#[test]
fn halves_go_to_the_even_number() {
    assert_eq!(round_half_even(5, 2), 2);
    assert_eq!(round_half_even(7, 2), 4);
    assert_eq!(round_half_even(8, 3), 3);
    assert_eq!(round_half_even(7, 3), 2);
}
