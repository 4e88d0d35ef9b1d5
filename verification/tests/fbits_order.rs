//! The bit-pattern order must agree with the IEEE-754 order of the encoded
//! floats on every non-NaN pair, and classify NaN and zero patterns exactly.

use bert_embed::fbits::{f32_lt_exec, is_nan_exec, is_zero_exec};

#[test]
fn order_matches_ieee_less_than() {
    let samples: Vec<f32> = vec![
        f32::NEG_INFINITY,
        -3.4e38,
        -2.5,
        -1.0,
        -1e-40, // subnormal
        -0.0,
        0.0,
        1e-40,
        0.5,
        1.0,
        2.5,
        3.4e38,
        f32::INFINITY,
    ];
    for &a in &samples {
        for &b in &samples {
            assert_eq!(
                f32_lt_exec(a.to_bits(), b.to_bits()),
                a < b,
                "order disagrees on {a} < {b}"
            );
        }
    }
}

#[test]
fn nan_patterns_are_recognized() {
    assert!(is_nan_exec(f32::NAN.to_bits()));
    assert!(is_nan_exec((-f32::NAN).to_bits()));
    assert!(!is_nan_exec(f32::INFINITY.to_bits()));
    assert!(!is_nan_exec(0.0f32.to_bits()));
    assert!(!is_nan_exec(1.5f32.to_bits()));
}

#[test]
fn zero_patterns_of_both_signs_are_recognized() {
    assert!(is_zero_exec(0.0f32.to_bits()));
    assert!(is_zero_exec((-0.0f32).to_bits()));
    assert!(!is_zero_exec(1e-40f32.to_bits()));
    assert!(!is_zero_exec(1.0f32.to_bits()));
}

#[test]
fn neither_zero_is_below_the_other() {
    let pz = 0.0f32.to_bits();
    let nz = (-0.0f32).to_bits();
    assert!(!f32_lt_exec(pz, nz));
    assert!(!f32_lt_exec(nz, pz));
}
