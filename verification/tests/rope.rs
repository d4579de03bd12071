use ggml::arith::Arithmetic;
use ggml::ieee::is_positive_finite;
use rand::{RngExt, SeedableRng};
use rand_chacha::ChaCha20Rng;

/// Single-precision arithmetic.
struct F32;

impl Arithmetic<f32> for F32 {
    fn zero(&self) -> f32 {
        0.0
    }
    fn one(&self) -> f32 {
        1.0
    }
    fn neg_infinity(&self) -> f32 {
        f32::NEG_INFINITY
    }
    fn from_usize(&self, n: usize) -> f32 {
        n as f32
    }
    fn from_i32(&self, n: i32) -> f32 {
        n as f32
    }
    fn from_bits(&self, bits: u32) -> f32 {
        f32::from_bits(bits)
    }
    fn add(&self, a: f32, b: f32) -> f32 {
        a + b
    }
    fn sub(&self, a: f32, b: f32) -> f32 {
        a - b
    }
    fn mul(&self, a: f32, b: f32) -> f32 {
        a * b
    }
    fn div(&self, a: f32, b: f32) -> f32 {
        a / b
    }
    fn neg(&self, a: f32) -> f32 {
        -a
    }
    fn exp(&self, a: f32) -> f32 {
        a.exp()
    }
    fn sqrt(&self, a: f32) -> f32 {
        a.sqrt()
    }
    fn powf(&self, a: f32, b: f32) -> f32 {
        a.powf(b)
    }
    fn sin_cos(&self, a: f32) -> (f32, f32) {
        a.sin_cos()
    }
    fn gt(&self, a: f32, b: f32) -> bool {
        a > b
    }
}

fn rope_inplace_neox(x: &mut [f32], head_dim: usize, n_heads: usize, pos: usize, theta: f32) {
    assert!(is_positive_finite(theta.to_bits()));
    ggml::rope_inplace_neox(&F32, x, head_dim, n_heads, pos, theta.to_bits())
}

fn rope_reference(
    x: &[f32],
    head_dim: usize,
    n_heads: usize,
    pos: usize,
    theta: f32,
) -> Vec<f32> {
    assert_eq!(x.len(), head_dim * n_heads);
    let half = head_dim / 2;
    let inv_head_dim = 1.0_f32 / (head_dim as f32);
    let pos_f = pos as f32;
    let mut out = x.to_vec();
    for head in out.chunks_exact_mut(head_dim) {
        for i in 0..half {
            let exponent = 2.0_f32 * (i as f32) * inv_head_dim;
            let freq = 1.0_f32 / theta.powf(exponent);
            let angle = pos_f * freq;
            let (sin, cos) = angle.sin_cos();
            let x0 = head[2 * i];
            let x1 = head[2 * i + 1];
            head[2 * i] = x0 * cos - x1 * sin;
            head[2 * i + 1] = x0 * sin + x1 * cos;
        }
    }
    out
}

fn ulp_distance(a: f32, b: f32) -> u32 {
    if a == b {
        return 0;
    }
    if a.is_nan() || b.is_nan() {
        return u32::MAX;
    }
    let map = |i: i32| {
        if i < 0 {
            (i32::MIN ^ i) as u32 ^ 0x80000000
        } else {
            i as u32
        }
    };
    map(a.to_bits() as i32).abs_diff(map(b.to_bits() as i32))
}

fn assert_within_ulps(actual: &[f32], expected: &[f32], tol: u32, label: &str) {
    assert_eq!(actual.len(), expected.len(), "{label}: length mismatch");
    for (i, (&a, &e)) in actual.iter().zip(expected.iter()).enumerate() {
        let d = ulp_distance(a, e);
        assert!(
            d <= tol,
            "{label}: idx {i}: actual={a:e} (bits=0x{:08x}) expected={e:e} (bits=0x{:08x}) ulps={d}",
            a.to_bits(),
            e.to_bits(),
        );
    }
}

fn rand_vec(rng: &mut ChaCha20Rng, n: usize, range: f32) -> Vec<f32> {
    (0..n).map(|_| rng.random_range(-range..range)).collect()
}

#[test]
fn matches_reference_llama3_params_within_4_ulps() {
    let head_dim = 64_usize;
    let n_heads = 32_usize;
    let theta = 500_000.0_f32;
    let pos = 37_usize;
    let mut rng = ChaCha20Rng::seed_from_u64(0x50FE_C0FE_1311);
    let x_in = rand_vec(&mut rng, head_dim * n_heads, 3.0);
    let expected = rope_reference(&x_in, head_dim, n_heads, pos, theta);
    let mut x = x_in;
    rope_inplace_neox(&mut x, head_dim, n_heads, pos, theta);
    assert_within_ulps(&x, &expected, 4, "rope_llama3");
}

#[test]
fn matches_reference_qwen25_params_within_4_ulps() {
    let head_dim = 64_usize;
    let n_heads = 32_usize;
    let theta = 1_000_000.0_f32;
    let pos = 37_usize;
    let mut rng = ChaCha20Rng::seed_from_u64(0x50FE_C0FE_0025);
    let x_in = rand_vec(&mut rng, head_dim * n_heads, 3.0);
    let expected = rope_reference(&x_in, head_dim, n_heads, pos, theta);
    let mut x = x_in;
    rope_inplace_neox(&mut x, head_dim, n_heads, pos, theta);
    assert_within_ulps(&x, &expected, 4, "rope_qwen25");
}

#[test]
fn theta_changes_output_for_same_input() {
    let head_dim = 64_usize;
    let n_heads = 4_usize;
    let pos = 37_usize;
    let mut rng = ChaCha20Rng::seed_from_u64(0xD1FF_5E75_0123_4567);
    let x_in = rand_vec(&mut rng, head_dim * n_heads, 1.0);

    let mut x_a = x_in.clone();
    rope_inplace_neox(&mut x_a, head_dim, n_heads, pos, 500_000.0);

    let mut x_b = x_in;
    rope_inplace_neox(&mut x_b, head_dim, n_heads, pos, 1_000_000.0);

    let mut differs = false;
    for (a, b) in x_a.iter().zip(x_b.iter()) {
        if a.to_bits() != b.to_bits() {
            differs = true;
            break;
        }
    }
    assert!(
        differs,
        "rope output should differ when theta differs (proves theta is parameter-driven)",
    );
}

#[test]
fn pos_zero_is_identity() {
    let head_dim = 16_usize;
    let n_heads = 3_usize;
    let mut rng = ChaCha20Rng::seed_from_u64(0x0050_0050_0050_0050);
    let x_in = rand_vec(&mut rng, head_dim * n_heads, 2.0);
    let mut x = x_in.clone();
    rope_inplace_neox(&mut x, head_dim, n_heads, 0, 500_000.0);
    for (i, (&a, &e)) in x.iter().zip(x_in.iter()).enumerate() {
        assert_eq!(
            a.to_bits(),
            e.to_bits(),
            "idx {i}: pos=0 should be identity"
        );
    }
}

#[test]
fn first_pair_uses_angle_pos_independent_of_theta() {
    let head_dim = 8_usize;
    let n_heads = 1_usize;
    let theta = 500_000.0_f32;
    let pos = 5_usize;
    let mut x = [1.0_f32, 0.0, 0.0, 0.0, 0.0, 0.0, 0.0, 0.0];
    rope_inplace_neox(&mut x, head_dim, n_heads, pos, theta);
    let (sin, cos) = (pos as f32).sin_cos();
    assert_eq!(x[0].to_bits(), cos.to_bits());
    assert_eq!(x[1].to_bits(), sin.to_bits());
}

#[test]
fn rotation_preserves_pair_magnitude_within_tolerance() {
    let head_dim = 64_usize;
    let n_heads = 8_usize;
    let pos = 42_usize;
    let theta = 500_000.0_f32;
    let mut rng = ChaCha20Rng::seed_from_u64(0x0BAD_5E75_0011_2233);
    let x_in = rand_vec(&mut rng, head_dim * n_heads, 2.0);
    let mut x = x_in.clone();
    rope_inplace_neox(&mut x, head_dim, n_heads, pos, theta);
    for head_idx in 0..n_heads {
        let base = head_idx * head_dim;
        for i in 0..head_dim / 2 {
            let a0 = x_in[base + 2 * i];
            let a1 = x_in[base + 2 * i + 1];
            let b0 = x[base + 2 * i];
            let b1 = x[base + 2 * i + 1];
            let before = (a0 * a0 + a1 * a1).sqrt();
            let after = (b0 * b0 + b1 * b1).sqrt();
            assert!(
                (before - after).abs() <= 1e-5 * before.max(1e-6),
                "head {head_idx} pair {i}: before={before}, after={after}",
            );
        }
    }
}

#[test]
fn rope_empty_input_is_noop() {
    let mut x: [f32; 0] = [];
    rope_inplace_neox(&mut x, 0, 0, 0, 500_000.0);
}

#[test]
fn rotation_of_known_pairs() {
    let mut x = [1.0_f32, 0.0, 0.0, 2.0];
    rope_inplace_neox(&mut x, 2, 2, 1, 10_000.0);
    let (sin, cos) = 1.0_f32.sin_cos();
    assert_eq!(x, [cos, sin, -(2.0 * sin), 2.0 * cos]);
}

#[test]
fn second_pair_uses_the_square_root_of_theta() {
    let mut x = [0.0_f32, 0.0, 1.0, 0.0];
    rope_inplace_neox(&mut x, 4, 1, 3, 16.0);
    let (sin, cos) = (3.0_f32 * (1.0 / 16.0_f32.powf(0.5))).sin_cos();
    assert_eq!(x, [0.0, 0.0, cos, sin]);
}

#[test]
fn heads_are_rotated_alike() {
    let head = [0.5_f32, -1.0, 2.0, 0.25];
    let mut both: Vec<f32> = [head, head].concat();
    rope_inplace_neox(&mut both, 4, 2, 7, 500_000.0);
    assert_eq!(both[..4], both[4..]);
}

#[test]
fn heads_without_elements_are_noops() {
    let mut x: [f32; 0] = [];
    rope_inplace_neox(&mut x, 0, 5, 3, 500_000.0);
    rope_inplace_neox(&mut x, 6, 0, 3, 500_000.0);
}
