use ggml::arith::Arithmetic;
use rand::{RngExt, SeedableRng};
use rand_chacha::ChaCha20Rng;

/// Single-precision arithmetic.
struct F32;

impl Arithmetic<f32> for F32 {
    fn zero(&self) -> f32 {
        0.0
    }
    fn one(&self) -> f32 {
        1.0
    }
    fn neg_infinity(&self) -> f32 {
        f32::NEG_INFINITY
    }
    fn from_usize(&self, n: usize) -> f32 {
        n as f32
    }
    fn from_i32(&self, n: i32) -> f32 {
        n as f32
    }
    fn from_bits(&self, bits: u32) -> f32 {
        f32::from_bits(bits)
    }
    fn add(&self, a: f32, b: f32) -> f32 {
        a + b
    }
    fn sub(&self, a: f32, b: f32) -> f32 {
        a - b
    }
    fn mul(&self, a: f32, b: f32) -> f32 {
        a * b
    }
    fn div(&self, a: f32, b: f32) -> f32 {
        a / b
    }
    fn neg(&self, a: f32) -> f32 {
        -a
    }
    fn exp(&self, a: f32) -> f32 {
        a.exp()
    }
    fn sqrt(&self, a: f32) -> f32 {
        a.sqrt()
    }
    fn powf(&self, a: f32, b: f32) -> f32 {
        a.powf(b)
    }
    fn sin_cos(&self, a: f32) -> (f32, f32) {
        a.sin_cos()
    }
    fn gt(&self, a: f32, b: f32) -> bool {
        a > b
    }
}

fn silu_inplace(x: &mut [f32]) {
    ggml::silu_inplace(&F32, x)
}

fn silu_reference(x: &[f32]) -> Vec<f32> {
    x.iter().map(|&v| v / (1.0_f32 + (-v).exp())).collect()
}

fn ulp_distance(a: f32, b: f32) -> u32 {
    if a == b {
        return 0;
    }
    if a.is_nan() || b.is_nan() {
        return u32::MAX;
    }
    let map = |i: i32| {
        if i < 0 {
            (i32::MIN ^ i) as u32 ^ 0x80000000
        } else {
            i as u32
        }
    };
    map(a.to_bits() as i32).abs_diff(map(b.to_bits() as i32))
}

fn assert_within_ulps(actual: &[f32], expected: &[f32], tol: u32, label: &str) {
    assert_eq!(actual.len(), expected.len(), "{label}: length mismatch");
    for (i, (&a, &e)) in actual.iter().zip(expected.iter()).enumerate() {
        let d = ulp_distance(a, e);
        assert!(
            d <= tol,
            "{label}: idx {i}: actual={a:e} (bits=0x{:08x}) expected={e:e} (bits=0x{:08x}) ulps={d}",
            a.to_bits(),
            e.to_bits(),
        );
    }
}

fn rand_vec(rng: &mut ChaCha20Rng, n: usize, range: f32) -> Vec<f32> {
    (0..n).map(|_| rng.random_range(-range..range)).collect()
}

#[test]
fn silu_empty_input_is_noop() {
    let mut x: [f32; 0] = [];
    silu_inplace(&mut x);
}

#[test]
fn zero_maps_to_zero() {
    let mut x = [0.0_f32, -0.0];
    silu_inplace(&mut x);
    assert_eq!(x[0].to_bits(), 0.0_f32.to_bits());
    assert_eq!(x[1].to_bits(), (-0.0_f32).to_bits());
}

#[test]
fn large_positive_input_approaches_identity() {
    let mut x = [50.0_f32];
    silu_inplace(&mut x);
    assert!((x[0] - 50.0).abs() < 1e-5, "silu(50) ≈ 50, got {}", x[0]);
}

#[test]
fn large_negative_input_approaches_zero() {
    let mut x = [-50.0_f32];
    silu_inplace(&mut x);
    assert!(x[0].abs() < 1e-15, "silu(-50) ≈ 0, got {}", x[0]);
}

#[test]
fn matches_reference_within_2_ulps_random() {
    let mut rng = ChaCha20Rng::seed_from_u64(0x5170_1234);
    let x_in = rand_vec(&mut rng, 4096, 10.0);
    let expected = silu_reference(&x_in);
    let mut x = x_in;
    silu_inplace(&mut x);
    assert_within_ulps(&x, &expected, 2, "silu_random_4096");
}

#[test]
fn matches_reference_within_2_ulps_extended_range() {
    let mut rng = ChaCha20Rng::seed_from_u64(0x0BAD_CAFE);
    let x_in = rand_vec(&mut rng, 1024, 88.0);
    let expected = silu_reference(&x_in);
    let mut x = x_in;
    silu_inplace(&mut x);
    assert_within_ulps(&x, &expected, 2, "silu_extended_range");
}

#[test]
fn hand_computed_known_values() {
    let inputs = [1.0_f32, -1.0, 2.0, 0.5];
    let mut x = inputs;
    silu_inplace(&mut x);
    for (i, &v) in inputs.iter().enumerate() {
        let expected = v / (1.0 + (-v).exp());
        assert_eq!(x[i].to_bits(), expected.to_bits(), "idx {i}: input {v}");
    }
}

#[test]
fn activation_does_not_depend_on_the_neighbours() {
    let mut both = [1.5_f32, -2.25];
    silu_inplace(&mut both);
    for (i, v) in [1.5_f32, -2.25].into_iter().enumerate() {
        let mut alone = [v];
        silu_inplace(&mut alone);
        assert_eq!(both[i].to_bits(), alone[0].to_bits());
    }
}
