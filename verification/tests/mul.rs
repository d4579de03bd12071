use ggml::arith::Arithmetic;

/// Single-precision arithmetic.
struct F32;

impl Arithmetic<f32> for F32 {
    fn zero(&self) -> f32 {
        0.0
    }
    fn one(&self) -> f32 {
        1.0
    }
    fn neg_infinity(&self) -> f32 {
        f32::NEG_INFINITY
    }
    fn from_usize(&self, n: usize) -> f32 {
        n as f32
    }
    fn from_i32(&self, n: i32) -> f32 {
        n as f32
    }
    fn from_bits(&self, bits: u32) -> f32 {
        f32::from_bits(bits)
    }
    fn add(&self, a: f32, b: f32) -> f32 {
        a + b
    }
    fn sub(&self, a: f32, b: f32) -> f32 {
        a - b
    }
    fn mul(&self, a: f32, b: f32) -> f32 {
        a * b
    }
    fn div(&self, a: f32, b: f32) -> f32 {
        a / b
    }
    fn neg(&self, a: f32) -> f32 {
        -a
    }
    fn exp(&self, a: f32) -> f32 {
        a.exp()
    }
    fn sqrt(&self, a: f32) -> f32 {
        a.sqrt()
    }
    fn powf(&self, a: f32, b: f32) -> f32 {
        a.powf(b)
    }
    fn sin_cos(&self, a: f32) -> (f32, f32) {
        a.sin_cos()
    }
    fn gt(&self, a: f32, b: f32) -> bool {
        a > b
    }
}

fn mul_inplace(dst: &mut [f32], src: &[f32]) {
    ggml::mul_inplace(&F32, dst, src)
}

#[test]
fn mul_hand_computed_small_slice() {
    let mut dst = [1.0_f32, 2.0, 3.0, 4.0];
    let src = [10.0_f32, 0.5, -1.0, 0.0];
    mul_inplace(&mut dst, &src);
    assert_eq!(dst, [10.0, 1.0, -3.0, 0.0]);
}

#[test]
fn mul_includes_sign_zero_and_infinity_cases() {
    let mut dst = [-0.0_f32, 2.0, f32::INFINITY, f32::INFINITY, 1.0];
    let src = [1.0_f32, -3.0, 0.5, 0.0, f32::NAN];
    mul_inplace(&mut dst, &src);
    assert_eq!(dst[0].to_bits(), (-0.0_f32).to_bits());
    assert_eq!(dst[1], -6.0);
    assert_eq!(dst[2], f32::INFINITY);
    assert!(dst[3].is_nan());
    assert!(dst[4].is_nan());
}

#[test]
fn mul_empty_slices_is_noop() {
    let mut dst: [f32; 0] = [];
    let src: [f32; 0] = [];
    mul_inplace(&mut dst, &src);
}

#[test]
fn mul_matches_scalar_reference_byte_exact() {
    let dst_init: Vec<f32> = (0..257).map(|i| (i as f32) * 0.125 - 7.5).collect();
    let src: Vec<f32> = (0..257).map(|i| (i as f32).cos()).collect();

    let mut dst = dst_init.clone();
    mul_inplace(&mut dst, &src);

    for i in 0..dst.len() {
        let expected = dst_init[i] * src[i];
        assert_eq!(
            dst[i].to_bits(),
            expected.to_bits(),
            "mismatch at index {i}",
        );
    }
}
