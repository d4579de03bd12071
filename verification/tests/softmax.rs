use ggml::arith::Arithmetic;
use rand::{RngExt, SeedableRng};
use rand_chacha::ChaCha20Rng;

/// Single-precision arithmetic.
struct F32;

impl Arithmetic<f32> for F32 {
    fn zero(&self) -> f32 {
        0.0
    }
    fn one(&self) -> f32 {
        1.0
    }
    fn neg_infinity(&self) -> f32 {
        f32::NEG_INFINITY
    }
    fn from_usize(&self, n: usize) -> f32 {
        n as f32
    }
    fn from_i32(&self, n: i32) -> f32 {
        n as f32
    }
    fn from_bits(&self, bits: u32) -> f32 {
        f32::from_bits(bits)
    }
    fn add(&self, a: f32, b: f32) -> f32 {
        a + b
    }
    fn sub(&self, a: f32, b: f32) -> f32 {
        a - b
    }
    fn mul(&self, a: f32, b: f32) -> f32 {
        a * b
    }
    fn div(&self, a: f32, b: f32) -> f32 {
        a / b
    }
    fn neg(&self, a: f32) -> f32 {
        -a
    }
    fn exp(&self, a: f32) -> f32 {
        a.exp()
    }
    fn sqrt(&self, a: f32) -> f32 {
        a.sqrt()
    }
    fn powf(&self, a: f32, b: f32) -> f32 {
        a.powf(b)
    }
    fn sin_cos(&self, a: f32) -> (f32, f32) {
        a.sin_cos()
    }
    fn gt(&self, a: f32, b: f32) -> bool {
        a > b
    }
}

fn softmax_inplace(x: &mut [f32]) {
    ggml::softmax_inplace(&F32, x)
}

/// Scalar reference using the same Kahan-compensated `f32` sum as
/// `softmax_inplace`. Should be byte-exact with the in-place
/// kernel under identical inputs.
fn softmax_reference(x: &[f32]) -> Vec<f32> {
    if x.is_empty() {
        return Vec::new();
    }
    let mut max = f32::NEG_INFINITY;
    for &v in x.iter() {
        if v > max {
            max = v;
        }
    }
    let mut out: Vec<f32> = x.iter().map(|&v| (v - max).exp()).collect();
    let mut sum = 0.0_f32;
    let mut c = 0.0_f32;
    for &v in out.iter() {
        let y = v - c;
        let t = sum + y;
        c = (t - sum) - y;
        sum = t;
    }
    let inv = 1.0_f32 / sum;
    for v in out.iter_mut() {
        *v *= inv;
    }
    out
}

fn ulp_distance(a: f32, b: f32) -> u32 {
    if a == b {
        return 0;
    }
    if a.is_nan() || b.is_nan() {
        return u32::MAX;
    }
    let map = |i: i32| {
        if i < 0 {
            (i32::MIN ^ i) as u32 ^ 0x80000000
        } else {
            i as u32
        }
    };
    map(a.to_bits() as i32).abs_diff(map(b.to_bits() as i32))
}

fn assert_within_ulps(actual: &[f32], expected: &[f32], tol: u32, label: &str) {
    assert_eq!(actual.len(), expected.len(), "{label}: length mismatch");
    for (i, (&a, &e)) in actual.iter().zip(expected.iter()).enumerate() {
        let d = ulp_distance(a, e);
        assert!(
            d <= tol,
            "{label}: idx {i}: actual={a:e} (bits=0x{:08x}) expected={e:e} (bits=0x{:08x}) ulps={d}",
            a.to_bits(),
            e.to_bits(),
        );
    }
}

fn rand_vec(rng: &mut ChaCha20Rng, n: usize, range: f32) -> Vec<f32> {
    (0..n).map(|_| rng.random_range(-range..range)).collect()
}

#[test]
fn softmax_empty_input_is_noop() {
    let mut x: [f32; 0] = [];
    softmax_inplace(&mut x);
}

#[test]
fn single_element_is_one() {
    for &v in &[-1e30_f32, -1.0, 0.0, 1.0, 1e30] {
        let mut x = [v];
        softmax_inplace(&mut x);
        assert_eq!(x[0].to_bits(), 1.0_f32.to_bits());
    }
}

#[test]
fn two_element_hand_computed() {
    let mut x = [0.0_f32, 0.0];
    softmax_inplace(&mut x);
    assert_eq!(x[0].to_bits(), 0.5_f32.to_bits());
    assert_eq!(x[1].to_bits(), 0.5_f32.to_bits());
}

/// Kahan-compensated `f32` sum, so the verification doesn't itself
/// accumulate ~`sqrt(n) * eps` of naive-summation error and mask the
/// algorithm's actual sum-to-1 behavior.
fn kahan_sum_f32(xs: &[f32]) -> f32 {
    let mut sum = 0.0_f32;
    let mut c = 0.0_f32;
    for &v in xs {
        let y = v - c;
        let t = sum + y;
        c = (t - sum) - y;
        sum = t;
    }
    sum
}

#[test]
fn output_sums_to_one_within_tolerance_at_all_required_lengths() {
    let mut rng = ChaCha20Rng::seed_from_u64(0x50F7_4A1E);
    for &n in &[1_usize, 2, 17, 1024, 32_000] {
        let mut x = rand_vec(&mut rng, n, 5.0);
        softmax_inplace(&mut x);
        let sum = kahan_sum_f32(&x);
        assert!(
            (sum - 1.0).abs() <= 1e-6,
            "len={n}: sum={sum}, error={}",
            (sum - 1.0).abs(),
        );
    }
}

#[test]
fn matches_reference_within_4_ulps_for_random_inputs() {
    let mut rng = ChaCha20Rng::seed_from_u64(0x500F_7A88);
    for &n in &[2_usize, 17, 1024, 32_000] {
        let x_in = rand_vec(&mut rng, n, 5.0);
        let expected = softmax_reference(&x_in);
        let mut x = x_in;
        softmax_inplace(&mut x);
        assert_within_ulps(&x, &expected, 4, &format!("softmax_n={n}"));
    }
}

#[test]
fn stable_for_extreme_inputs_no_overflow() {
    let mut x = [1000.0_f32, 1000.0, 1000.0, 1000.0];
    softmax_inplace(&mut x);
    for &v in &x {
        assert_eq!(v.to_bits(), 0.25_f32.to_bits());
    }
}

#[test]
fn dominant_element_concentrates_mass() {
    let mut x = [-1000.0_f32, 0.0, -1000.0];
    softmax_inplace(&mut x);
    assert_eq!(x[1].to_bits(), 1.0_f32.to_bits());
    assert_eq!(x[0], 0.0);
    assert_eq!(x[2], 0.0);
}

#[test]
fn output_is_non_negative_for_finite_input() {
    let mut rng = ChaCha20Rng::seed_from_u64(0xBADD_F00D);
    let mut x = rand_vec(&mut rng, 1024, 10.0);
    softmax_inplace(&mut x);
    for &v in &x {
        assert!(v >= 0.0 && v.is_finite(), "non-finite or negative: {v}");
    }
}

#[test]
fn equal_inputs_give_the_same_softmax() {
    let mut first = [0.5_f32, 2.0, -3.0, 2.0];
    let mut second = first;
    softmax_inplace(&mut first);
    softmax_inplace(&mut second);
    assert_eq!(first, second);
    assert_eq!(first[1].to_bits(), first[3].to_bits());
}

#[test]
fn not_a_number_propagates() {
    let mut x = [0.0_f32, f32::NAN, 1.0];
    softmax_inplace(&mut x);
    assert!(x.iter().all(|v| v.is_nan()));
}

#[test]
fn a_single_infinity_is_one() {
    for v in [f32::INFINITY, f32::NEG_INFINITY, f32::MAX, f32::MIN, -0.0] {
        let mut x = [v];
        softmax_inplace(&mut x);
        assert_eq!(x[0].to_bits(), 1.0_f32.to_bits());
    }
}

#[test]
fn a_single_nan_propagates() {
    let mut x = [f32::NAN];
    softmax_inplace(&mut x);
    assert!(x[0].is_nan());
}
