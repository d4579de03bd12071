use ggml::ieee::{
    binary16_to_binary32, binary32_to_binary64, equal_binary32, equal_binary64,
    is_non_negative_finite, is_positive_finite,
};

/// Patterns from all over the binary32 range, and those at its edges.
fn binary32_samples() -> Vec<u32> {
    let mut samples: Vec<u32> = (0..=u32::MAX).step_by(65_521).collect();
    for edge in [
        0x0000_0000_u32,
        0x0000_0001,
        0x007f_ffff,
        0x0080_0000,
        0x3f80_0000,
        0x7f7f_ffff,
        0x7f80_0000,
    ] {
        samples.push(edge);
        samples.push(edge | 0x8000_0000);
    }
    samples
}

#[test]
fn every_binary16_pattern_widens_losslessly() {
    for bits in 0..=u16::MAX {
        let wide = binary16_to_binary32(bits);
        assert_eq!(wide, half::f16::from_bits(bits).to_f32().to_bits(), "bits {bits:#06x}");
    }
}

#[test]
fn known_binary16_numbers() {
    assert_eq!(binary16_to_binary32(0x3c00), 1.0_f32.to_bits());
    assert_eq!(binary16_to_binary32(0xc000), (-2.0_f32).to_bits());
    assert_eq!(binary16_to_binary32(0x7bff), 65504.0_f32.to_bits());
    assert_eq!(binary16_to_binary32(0x0001), (2.0_f32).powi(-24).to_bits());
    assert_eq!(binary16_to_binary32(0x8000), (-0.0_f32).to_bits());
    assert_eq!(binary16_to_binary32(0x7c00), f32::INFINITY.to_bits());
    assert_eq!(binary16_to_binary32(0xfc00), f32::NEG_INFINITY.to_bits());
    assert_eq!(binary16_to_binary32(0xfe01), 0xffc0_2000);
}

#[test]
fn binary32_widens_losslessly() {
    for bits in binary32_samples() {
        let number = f32::from_bits(bits);
        let wide = f64::from_bits(binary32_to_binary64(bits));
        if number.is_nan() {
            assert!(wide.is_nan(), "bits {bits:#010x}");
        } else {
            assert_eq!(wide.to_bits(), (number as f64).to_bits(), "bits {bits:#010x}");
        }
    }
}

#[test]
fn widening_keeps_sign_and_payload_of_nan() {
    assert_eq!(binary32_to_binary64(0x7fc0_0001), 0x7ff8_0000_2000_0000);
    assert_eq!(binary32_to_binary64(0xff80_0001), 0xfff8_0000_2000_0000);
}

#[test]
fn widening_separates_different_numbers() {
    let samples = binary32_samples();
    for pair in samples.windows(2) {
        let (a, b) = (pair[0], pair[1]);
        if a != b {
            assert_ne!(binary32_to_binary64(a), binary32_to_binary64(b));
        }
    }
}

#[test]
fn sign_and_finiteness_of_patterns() {
    for bits in binary32_samples() {
        let number = f32::from_bits(bits);
        assert_eq!(is_positive_finite(bits), number.is_finite() && number > 0.0);
        assert_eq!(is_non_negative_finite(bits), number.is_finite() && number >= 0.0);
    }
    assert!(!is_positive_finite(0.0_f32.to_bits()));
    assert!(!is_positive_finite((-1.0_f32).to_bits()));
    assert!(!is_non_negative_finite((-1e-5_f32).to_bits()));
    assert!(!is_non_negative_finite(f32::NAN.to_bits()));
    assert!(is_non_negative_finite((-0.0_f32).to_bits()));
}

#[test]
fn patterns_compare_as_numbers() {
    let singles = [0.0_f32, -0.0, 1.0, -1.0, f32::INFINITY, f32::NEG_INFINITY, f32::NAN, 1e-45];
    for a in singles {
        for b in singles {
            assert_eq!(equal_binary32(a.to_bits(), b.to_bits()), a == b, "{a} {b}");
        }
    }
    let doubles = [0.0_f64, -0.0, 1.0, -1.0, f64::INFINITY, f64::NEG_INFINITY, f64::NAN, 5e-324];
    for a in doubles {
        for b in doubles {
            assert_eq!(equal_binary64(a.to_bits(), b.to_bits()), a == b, "{a} {b}");
        }
    }
}
