use seamless::float_bits::{f32_gt, f32_neg, is_nan};

fn samples() -> Vec<f32> {
    vec![
        0.0, -0.0, 1.0, -1.0, 0.5, 100.0, -100.0, f32::MAX, f32::MIN, f32::INFINITY,
        f32::NEG_INFINITY, f32::NAN, 1e-40, -1e-40, 63.0, 62.99,
    ]
}

#[test]
fn f32_gt_agrees_with_float_comparison() {
    for a in samples() {
        for b in samples() {
            assert_eq!(f32_gt(a.to_bits(), b.to_bits()), a > b, "{} > {}", a, b);
        }
    }
}

#[test]
fn f32_neg_negates() {
    for a in samples() {
        assert_eq!(f32_neg(a.to_bits()), (-a).to_bits());
    }
}

#[test]
fn nan_patterns() {
    assert!(is_nan(f32::NAN.to_bits()));
    assert!(!is_nan(f32::INFINITY.to_bits()));
    assert!(!is_nan(1.0f32.to_bits()));
}
