use ggml::arith::Arithmetic;
use ggml::ieee::is_non_negative_finite;
use rand::{RngExt, SeedableRng};
use rand_chacha::ChaCha20Rng;

/// Single-precision arithmetic.
struct F32;

impl Arithmetic<f32> for F32 {
    fn zero(&self) -> f32 {
        0.0
    }
    fn one(&self) -> f32 {
        1.0
    }
    fn neg_infinity(&self) -> f32 {
        f32::NEG_INFINITY
    }
    fn from_usize(&self, n: usize) -> f32 {
        n as f32
    }
    fn from_i32(&self, n: i32) -> f32 {
        n as f32
    }
    fn from_bits(&self, bits: u32) -> f32 {
        f32::from_bits(bits)
    }
    fn add(&self, a: f32, b: f32) -> f32 {
        a + b
    }
    fn sub(&self, a: f32, b: f32) -> f32 {
        a - b
    }
    fn mul(&self, a: f32, b: f32) -> f32 {
        a * b
    }
    fn div(&self, a: f32, b: f32) -> f32 {
        a / b
    }
    fn neg(&self, a: f32) -> f32 {
        -a
    }
    fn exp(&self, a: f32) -> f32 {
        a.exp()
    }
    fn sqrt(&self, a: f32) -> f32 {
        a.sqrt()
    }
    fn powf(&self, a: f32, b: f32) -> f32 {
        a.powf(b)
    }
    fn sin_cos(&self, a: f32) -> (f32, f32) {
        a.sin_cos()
    }
    fn gt(&self, a: f32, b: f32) -> bool {
        a > b
    }
}

fn rmsnorm(x: &mut [f32], weight: &[f32], eps: f32) {
    assert!(is_non_negative_finite(eps.to_bits()));
    ggml::rmsnorm(&F32, x, weight, eps.to_bits())
}

/// Scalar reference using the same accumulation order as
/// `rmsnorm` above (f32 sum-of-squares, f32 mean, scale = 1/sqrt,
/// `y = x * scale * w`).
fn rmsnorm_reference(x: &[f32], weight: &[f32], eps: f32) -> Vec<f32> {
    let n = weight.len();
    let inv_n = 1.0_f32 / (n as f32);
    let mut out = vec![0.0_f32; x.len()];
    for (row_x, row_y) in x.chunks_exact(n).zip(out.chunks_exact_mut(n)) {
        let mut sum = 0.0_f32;
        for &v in row_x.iter() {
            sum += v * v;
        }
        let mean = sum * inv_n;
        let scale = 1.0_f32 / (mean + eps).sqrt();
        for ((y, &v), &w) in row_y.iter_mut().zip(row_x.iter()).zip(weight.iter()) {
            *y = v * scale * w;
        }
    }
    out
}

fn ulp_distance(a: f32, b: f32) -> u32 {
    if a == b {
        return 0;
    }
    if a.is_nan() || b.is_nan() {
        return u32::MAX;
    }
    let ai = a.to_bits() as i32;
    let bi = b.to_bits() as i32;
    let map = |i: i32| {
        if i < 0 {
            (i32::MIN ^ i) as u32 ^ 0x80000000
        } else {
            i as u32
        }
    };
    map(ai).abs_diff(map(bi))
}

fn assert_within_ulps(actual: &[f32], expected: &[f32], tol_ulps: u32, label: &str) {
    assert_eq!(actual.len(), expected.len(), "{label}: length mismatch");
    for (i, (&a, &e)) in actual.iter().zip(expected.iter()).enumerate() {
        let d = ulp_distance(a, e);
        assert!(
            d <= tol_ulps,
            "{label}: idx {i}: actual={a:e} (bits=0x{:08x}) expected={e:e} (bits=0x{:08x}) ulps={d}",
            a.to_bits(),
            e.to_bits(),
        );
    }
}

fn rand_vec(rng: &mut ChaCha20Rng, n: usize, range: f32) -> Vec<f32> {
    (0..n).map(|_| rng.random_range(-range..range)).collect()
}

#[test]
fn matches_reference_within_4_ulps_4096_row() {
    let mut rng = ChaCha20Rng::seed_from_u64(0xC0FFEEF32);
    let n = 4096_usize;
    let weight = rand_vec(&mut rng, n, 1.0);
    let mut x = rand_vec(&mut rng, n, 3.0);
    let expected = rmsnorm_reference(&x, &weight, 1e-5);
    rmsnorm(&mut x, &weight, 1e-5);
    assert_within_ulps(&x, &expected, 4, "rmsnorm_4096");
}

#[test]
fn matches_reference_within_4_ulps_512_row() {
    let mut rng = ChaCha20Rng::seed_from_u64(0xBEEF0512);
    let n = 512_usize;
    let weight = rand_vec(&mut rng, n, 1.0);
    let mut x = rand_vec(&mut rng, n, 3.0);
    let expected = rmsnorm_reference(&x, &weight, 1e-6);
    rmsnorm(&mut x, &weight, 1e-6);
    assert_within_ulps(&x, &expected, 4, "rmsnorm_512");
}

#[test]
fn matches_reference_for_multi_row_input() {
    let mut rng = ChaCha20Rng::seed_from_u64(0xABCDEF12);
    let n_cols = 128_usize;
    let n_rows = 7_usize;
    let weight = rand_vec(&mut rng, n_cols, 0.5);
    let mut x = rand_vec(&mut rng, n_cols * n_rows, 2.0);
    let expected = rmsnorm_reference(&x, &weight, 1e-5);
    rmsnorm(&mut x, &weight, 1e-5);
    assert_within_ulps(&x, &expected, 4, "rmsnorm_multi_row");
}

#[test]
fn rms_of_normalized_row_is_close_to_one() {
    let mut rng = ChaCha20Rng::seed_from_u64(0xC0DEC0DE);
    let n = 1024_usize;
    let weight: Vec<f32> = vec![1.0; n];
    let mut x = rand_vec(&mut rng, n, 5.0);
    rmsnorm(&mut x, &weight, 0.0);
    let sum_sq: f32 = x.iter().map(|v| v * v).sum();
    let rms = (sum_sq / n as f32).sqrt();
    assert!((rms - 1.0).abs() < 1e-3, "rms={rms}, expected ~1.0");
}

#[test]
fn weight_acts_as_scale_when_input_is_normalized() {
    const N: usize = 8;
    let weight = [2.0_f32, -1.0, 0.5, 0.0, 1.0, 4.0, -2.0, 1.0];
    let mut x = [1.0_f32; N];
    rmsnorm(&mut x, &weight, 0.0);
    for (i, &w) in weight.iter().enumerate() {
        assert_eq!(
            x[i].to_bits(),
            w.to_bits(),
            "idx {i}: rmsnorm of all-ones should equal weight, got {}",
            x[i],
        );
    }
}

#[test]
fn rmsnorm_empty_input_is_noop() {
    let mut x: [f32; 0] = [];
    let w = [1.0_f32; 4];
    rmsnorm(&mut x, &w, 1e-5);
}

#[test]
fn normalization_of_known_rows() {
    let mut x = [3.0_f32, -3.0, 0.5, 0.5];
    rmsnorm(&mut x, &[2.0, 4.0], 0.0);
    assert_eq!(x, [2.0, -4.0, 2.0, 4.0]);
}

#[test]
fn rows_are_normalized_independently() {
    let weight = [1.0_f32, 0.5, -2.0];
    let rows = [[1.0_f32, 2.0, 3.0], [-0.5, 4.0, 0.25]];
    let mut both: Vec<f32> = rows.concat();
    rmsnorm(&mut both, &weight, 1e-5);
    for (i, row) in rows.iter().enumerate() {
        let mut alone = *row;
        rmsnorm(&mut alone, &weight, 1e-5);
        assert_eq!(&both[3 * i..3 * i + 3], &alone);
    }
}
