//! The bit-level scalar operations against the machine's own f32 semantics.

use hillnet::scalar::{abs_bits, le_bits, lt_bits, relu_bits, unit_bits, INFINITY_BITS, ONE_BITS};

fn samples() -> Vec<f32> {
    vec![
        0.0,
        -0.0,
        1.0,
        -1.0,
        0.5,
        -0.5,
        3.25,
        -3.25,
        1.0e-40,
        -1.0e-40,
        3.4e38,
        -3.4e38,
        f32::INFINITY,
        f32::NEG_INFINITY,
        0.055731735,
        123456.78,
        -123456.78,
        f32::MIN_POSITIVE,
        -f32::MIN_POSITIVE,
    ]
}

#[test]
fn lt_bits_matches_f32_order() {
    for &a in &samples() {
        for &b in &samples() {
            assert_eq!(
                lt_bits(a.to_bits(), b.to_bits()),
                a < b,
                "comparison of {a} and {b} disagrees"
            );
        }
    }
}

#[test]
fn le_bits_matches_f32_order() {
    for &a in &samples() {
        for &b in &samples() {
            assert_eq!(
                le_bits(a.to_bits(), b.to_bits()),
                a <= b,
                "comparison of {a} and {b} disagrees"
            );
        }
    }
    // The two zeros tie in value though their patterns differ.
    assert!(le_bits(0.0f32.to_bits(), (-0.0f32).to_bits()));
    assert!(le_bits((-0.0f32).to_bits(), 0.0f32.to_bits()));
}

#[test]
fn comparisons_are_false_on_nan() {
    let nan = f32::NAN.to_bits();
    for &a in &samples() {
        assert!(!lt_bits(a.to_bits(), nan));
        assert!(!lt_bits(nan, a.to_bits()));
        assert!(!le_bits(a.to_bits(), nan));
        assert!(!le_bits(nan, a.to_bits()));
    }
    assert!(!lt_bits(nan, nan));
    assert!(!le_bits(nan, nan));
}

#[test]
fn abs_bits_matches_f32_abs() {
    for &a in &samples() {
        assert_eq!(abs_bits(a.to_bits()), a.abs().to_bits());
    }
    assert_eq!(abs_bits(f32::NAN.to_bits()), f32::NAN.to_bits() & 0x7FFF_FFFF);
}

#[test]
fn relu_bits_matches_f32_max_with_zero() {
    for &a in &samples() {
        if a != 0.0 {
            assert_eq!(relu_bits(a.to_bits()), a.max(0.0).to_bits(), "relu of {a}");
        }
    }
    // Both zeros map to positive zero, and NaN maps to zero as max does.
    assert_eq!(relu_bits(0.0f32.to_bits()), 0.0f32.to_bits());
    assert_eq!(relu_bits((-0.0f32).to_bits()), 0.0f32.to_bits());
    assert_eq!(relu_bits(f32::NAN.to_bits()), 0.0f32.to_bits());
}

#[test]
fn unit_bits_encodes_top_bits_exactly() {
    let raws = [
        0u32,
        1,
        255,
        256,
        257,
        1024,
        0x0000_FFFF,
        0x0001_0000,
        0x7FFF_FFFF,
        0x8000_0000,
        0xDEAD_BEEF,
        0xFFFF_FF00,
        0xFFFF_FFFF,
    ];
    for &raw in &raws {
        let expected = (raw / 256) as f32 / 16777216.0f32;
        let got = f32::from_bits(unit_bits(raw));
        assert_eq!(got, expected, "encoding of raw {raw}");
        assert!((0.0..1.0).contains(&got));
        assert!(unit_bits(raw) < ONE_BITS);
    }
}

#[test]
fn infinity_pattern_is_the_largest_finite_bound() {
    assert_eq!(INFINITY_BITS, f32::INFINITY.to_bits());
    assert_eq!(ONE_BITS, 1.0f32.to_bits());
}
