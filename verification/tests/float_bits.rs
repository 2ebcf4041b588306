use fath::float_bits::{log2_exponent, log2_mantissa_bits, sin_parity_apply};

#[test]
fn mantissa_bits_force_unit_exponent() {
    // 8.0 carries the mantissa of 1.0, so the decomposition yields 1.0
    assert_eq!(log2_mantissa_bits(8.0f32.to_bits()), 1.0f32.to_bits());
    // 12.0 carries the mantissa of 1.5
    assert_eq!(log2_mantissa_bits(12.0f32.to_bits()), 1.5f32.to_bits());
    // 0.375 carries the mantissa of 1.5 as well
    assert_eq!(log2_mantissa_bits(0.375f32.to_bits()), 1.5f32.to_bits());
}

#[test]
fn exponent_field_values() {
    assert_eq!(log2_exponent(8.0f32.to_bits()), 3);
    assert_eq!(log2_exponent(1.0f32.to_bits()), 0);
    assert_eq!(log2_exponent(0.5f32.to_bits()), -1);
    assert_eq!(log2_exponent(3.0e38f32.to_bits()), 128 - 1);
}

#[test]
fn parity_sign_flip() {
    let one = 1.0f32.to_bits();
    assert_eq!(f32::from_bits(sin_parity_apply(one, 0)), 1.0);
    assert_eq!(f32::from_bits(sin_parity_apply(one, 1)), -1.0);
    assert_eq!(f32::from_bits(sin_parity_apply(one, 2)), 1.0);
    assert_eq!(f32::from_bits(sin_parity_apply(one, -1)), -1.0);
    assert_eq!(f32::from_bits(sin_parity_apply(one, -2)), 1.0);
}

/// The sine kernel assembled from the verified parity application: range
/// reduction and Horner evaluation on machine floats, the alternating sign
/// through `sin_parity_apply`.
fn sin_approx(x: f32, coeffs: &[f32]) -> f32 {
    let pi_multiples = x * std::f32::consts::FRAC_1_PI - 0.5;
    let rounded = pi_multiples.round_ties_even();
    let pi_fraction = pi_multiples - rounded;
    let s = pi_fraction * pi_fraction;
    let mut poly = coeffs[0];
    for &c in &coeffs[1..] {
        poly = s * poly + c;
    }
    f32::from_bits(sin_parity_apply(poly.to_bits(), rounded as i32))
}

/// The log2 kernel assembled from the verified bit decomposition.
fn log2_approx(x: f32, coeffs: &[f32]) -> f32 {
    let mantissa = f32::from_bits(log2_mantissa_bits(x.to_bits()));
    let mut poly = coeffs[0];
    for &c in &coeffs[1..] {
        poly = mantissa * poly + c;
    }
    let exponent = log2_exponent(x.to_bits() & 0x7FFF_FFFF) as f32;
    exponent + poly
}

const SIN_TIER0: [f32; 2] = [-4.0, 0.9719952];
const SIN_TIER1: [f32; 3] = [3.5838444, -4.8911867, 0.99940324];
const SIN_TIER2: [f32; 4] = [-1.2221271, 4.0412836, -4.933938, 0.9999933];
const SIN_TIER3: [f32; 5] = [0.2196968, -1.3318802, 4.058412, -4.934793, 0.99999994];
const LOG2_TIER3: [f32; 6] = [
    0.04487361,
    -0.4165637,
    1.6311488,
    -3.550793,
    5.091711,
    -2.800364,
];

#[test]
fn sin_tier0_at_zero() {
    assert!(sin_approx(0.0, &SIN_TIER0).abs() <= 2.9e-2);
}

#[test]
fn sin_tier_bounds_sweep() {
    let half_pi = std::f32::consts::FRAC_PI_2;
    let steps = 1000;
    for i in 0..=steps {
        let x = -half_pi + (2.0 * half_pi) * (i as f32) / (steps as f32);
        let exact = x.sin();
        assert!(
            (exact - sin_approx(x, &SIN_TIER0)).abs() <= 2.9e-2,
            "x={x}"
        );
        assert!(
            (exact - sin_approx(x, &SIN_TIER1)).abs() <= 6.0e-4,
            "x={x}"
        );
        assert!(
            (exact - sin_approx(x, &SIN_TIER2)).abs() <= 6.9e-6,
            "x={x}"
        );
        assert!(
            (exact - sin_approx(x, &SIN_TIER3)).abs() <= 2.7e-7,
            "x={x}"
        );
    }
}

#[test]
fn log2_tier3_at_eight() {
    assert!((log2_approx(8.0, &LOG2_TIER3) - 3.0).abs() <= 1.0e-4);
}
