use ggml::arith::Arithmetic;
use rand::{RngExt, SeedableRng};
use rand_chacha::ChaCha20Rng;
use std::hash::{Hash, Hasher};

/// Single-precision arithmetic.
struct F32;

impl Arithmetic<f32> for F32 {
    fn zero(&self) -> f32 {
        0.0
    }
    fn one(&self) -> f32 {
        1.0
    }
    fn neg_infinity(&self) -> f32 {
        f32::NEG_INFINITY
    }
    fn from_usize(&self, n: usize) -> f32 {
        n as f32
    }
    fn from_i32(&self, n: i32) -> f32 {
        n as f32
    }
    fn from_bits(&self, bits: u32) -> f32 {
        f32::from_bits(bits)
    }
    fn add(&self, a: f32, b: f32) -> f32 {
        a + b
    }
    fn sub(&self, a: f32, b: f32) -> f32 {
        a - b
    }
    fn mul(&self, a: f32, b: f32) -> f32 {
        a * b
    }
    fn div(&self, a: f32, b: f32) -> f32 {
        a / b
    }
    fn neg(&self, a: f32) -> f32 {
        -a
    }
    fn exp(&self, a: f32) -> f32 {
        a.exp()
    }
    fn sqrt(&self, a: f32) -> f32 {
        a.sqrt()
    }
    fn powf(&self, a: f32, b: f32) -> f32 {
        a.powf(b)
    }
    fn sin_cos(&self, a: f32) -> (f32, f32) {
        a.sin_cos()
    }
    fn gt(&self, a: f32, b: f32) -> bool {
        a > b
    }
}

fn matmul_f32(
    a: &[f32],
    a_shape: (usize, usize),
    b: &[f32],
    b_shape: (usize, usize),
    out: &mut [f32],
) {
    ggml::matmul_f32(&F32, a, a_shape, b, b_shape, out)
}

fn rand_vec(rng: &mut ChaCha20Rng, n: usize, range: f32) -> Vec<f32> {
    (0..n).map(|_| rng.random_range(-range..range)).collect()
}

/// Naive triple-loop reference using exactly the same per-row, per-col,
/// per-k accumulation order as `matmul_f32`.
fn matmul_reference(
    a: &[f32],
    a_shape: (usize, usize),
    b: &[f32],
    b_shape: (usize, usize),
) -> Vec<f32> {
    let (m, k) = a_shape;
    let (_, n) = b_shape;
    let mut out = vec![0.0_f32; m * n];
    for row in 0..m {
        for col in 0..n {
            let mut acc = 0.0_f32;
            for kk in 0..k {
                acc += a[row * k + kk] * b[kk * n + col];
            }
            out[row * n + col] = acc;
        }
    }
    out
}

fn assert_byte_exact(actual: &[f32], expected: &[f32], label: &str) {
    assert_eq!(actual.len(), expected.len(), "{label}: length mismatch");
    for (i, (&a, &e)) in actual.iter().zip(expected.iter()).enumerate() {
        assert_eq!(
            a.to_bits(),
            e.to_bits(),
            "{label}: idx {i}: actual={a:e} (bits=0x{:08x}) expected={e:e} (bits=0x{:08x})",
            a.to_bits(),
            e.to_bits(),
        );
    }
}

#[test]
fn bit_exact_vs_naive_37x19x41() {
    let (m, k, n) = (37, 19, 41);
    let mut rng = ChaCha20Rng::seed_from_u64(0xA11A_3719_4100);
    let a = rand_vec(&mut rng, m * k, 2.0);
    let b = rand_vec(&mut rng, k * n, 2.0);
    let expected = matmul_reference(&a, (m, k), &b, (k, n));
    let mut out = vec![0.0_f32; m * n];
    matmul_f32(&a, (m, k), &b, (k, n), &mut out);
    assert_byte_exact(&out, &expected, "matmul_37x19x41");
}

#[test]
fn bit_exact_vs_naive_128x256x64() {
    let (m, k, n) = (128, 256, 64);
    let mut rng = ChaCha20Rng::seed_from_u64(0xB22B_1282_5664);
    let a = rand_vec(&mut rng, m * k, 1.5);
    let b = rand_vec(&mut rng, k * n, 1.5);
    let expected = matmul_reference(&a, (m, k), &b, (k, n));
    let mut out = vec![0.0_f32; m * n];
    matmul_f32(&a, (m, k), &b, (k, n), &mut out);
    assert_byte_exact(&out, &expected, "matmul_128x256x64");
}

#[test]
fn handles_single_row_and_single_column() {
    let (m, k, n) = (1, 8, 1);
    let a = [1.0_f32, 2.0, 3.0, 4.0, 5.0, 6.0, 7.0, 8.0];
    let b = [0.5_f32, 0.25, 0.125, 0.0625, 0.5, 0.25, 0.125, 0.0625];
    let mut out = [0.0_f32];
    matmul_f32(&a, (m, k), &b, (k, n), &mut out);
    let mut expected = 0.0_f32;
    for i in 0..k {
        expected += a[i] * b[i];
    }
    assert_eq!(out[0].to_bits(), expected.to_bits());
}

#[test]
fn identity_matrix_yields_input() {
    let (m, k, n) = (4, 3, 3);
    let a = [
        1.0_f32, 2.0, 3.0, 4.0, 5.0, 6.0, 7.0, 8.0, 9.0, 10.0, 11.0, 12.0,
    ];
    let b = [1.0_f32, 0.0, 0.0, 0.0, 1.0, 0.0, 0.0, 0.0, 1.0];
    let mut out = vec![0.0_f32; m * n];
    matmul_f32(&a, (m, k), &b, (k, n), &mut out);
    for i in 0..a.len() {
        assert_eq!(out[i].to_bits(), a[i].to_bits(), "idx {i}");
    }
}

#[test]
fn thread_count_invariant() {
    let (m, k, n) = (128, 256, 64);
    let mut rng = ChaCha20Rng::seed_from_u64(0xDE7E_C0DE);
    let a = rand_vec(&mut rng, m * k, 1.5);
    let b = rand_vec(&mut rng, k * n, 1.5);

    let mut hashes = Vec::new();
    let mut outputs: Vec<Vec<f32>> = Vec::new();
    for &nt in &[1_usize, 2, 4, 8] {
        let pool = rayon::ThreadPoolBuilder::new()
            .num_threads(nt)
            .build()
            .expect("rayon pool build");
        let mut out = vec![0.0_f32; m * n];
        pool.install(|| matmul_f32(&a, (m, k), &b, (k, n), &mut out));
        let mut h = std::collections::hash_map::DefaultHasher::new();
        for &v in &out {
            v.to_bits().hash(&mut h);
        }
        hashes.push(h.finish());
        outputs.push(out);
    }
    for (i, h) in hashes.iter().enumerate().skip(1) {
        assert_eq!(
            *h,
            hashes[0],
            "hash mismatch at threads={} vs threads=1",
            [1, 2, 4, 8][i],
        );
    }
    for (i, out) in outputs.iter().enumerate().skip(1) {
        assert_byte_exact(out, &outputs[0], &format!("threads={}", [1, 2, 4, 8][i]));
    }
}

#[test]
fn serial_and_parallel_products_agree() {
    let (m, k, n) = (13, 7, 11);
    let mut rng = ChaCha20Rng::seed_from_u64(0x5E41_A100);
    let a = rand_vec(&mut rng, m * k, 1.0);
    let b = rand_vec(&mut rng, k * n, 1.0);
    let mut parallel = vec![0.0_f32; m * n];
    let mut serial = vec![1.0_f32; m * n];
    matmul_f32(&a, (m, k), &b, (k, n), &mut parallel);
    ggml::matmul_f32_serial(&F32, &a, (m, k), &b, (k, n), &mut serial);
    assert_byte_exact(&parallel, &serial, "serial_vs_parallel");
}

#[test]
fn product_of_known_matrices() {
    let a = [1.0_f32, 2.0, 3.0, 4.0, 5.0, 6.0];
    let b = [7.0_f32, 8.0, 9.0, 10.0, 11.0, 12.0];
    let mut out = [0.0_f32; 4];
    matmul_f32(&a, (2, 3), &b, (3, 2), &mut out);
    assert_eq!(out, [58.0, 64.0, 139.0, 154.0]);
}

#[test]
fn an_empty_inner_dimension_gives_zeros() {
    let mut out = [5.0_f32; 6];
    matmul_f32(&[], (2, 0), &[], (0, 3), &mut out);
    assert_eq!(out, [0.0; 6]);
    out = [5.0_f32; 6];
    ggml::matmul_f32_serial(&F32, &[], (2, 0), &[], (0, 3), &mut out);
    assert_eq!(out, [0.0; 6]);
}

#[test]
fn empty_products_are_noops() {
    let mut out: [f32; 0] = [];
    matmul_f32(&[1.0, 2.0], (2, 1), &[], (1, 0), &mut out);
    matmul_f32(&[], (0, 2), &[1.0, 2.0], (2, 1), &mut out);
    ggml::matmul_f32_serial(&F32, &[1.0, 2.0], (2, 1), &[], (1, 0), &mut out);
}

#[test]
fn the_output_does_not_depend_on_what_it_held() {
    let (m, k, n) = (5, 4, 3);
    let mut rng = ChaCha20Rng::seed_from_u64(0x0D1F_F0A7);
    let a = rand_vec(&mut rng, m * k, 1.0);
    let b = rand_vec(&mut rng, k * n, 1.0);
    let mut first = vec![0.0_f32; m * n];
    let mut second = vec![f32::NAN; m * n];
    matmul_f32(&a, (m, k), &b, (k, n), &mut first);
    matmul_f32(&a, (m, k), &b, (k, n), &mut second);
    assert_byte_exact(&first, &second, "initial_output");
}

#[test]
fn rows_are_computed_independently() {
    let (m, k, n) = (4, 3, 2);
    let mut rng = ChaCha20Rng::seed_from_u64(0x0120_3456);
    let a = rand_vec(&mut rng, m * k, 1.0);
    let b = rand_vec(&mut rng, k * n, 1.0);
    let mut whole = vec![0.0_f32; m * n];
    matmul_f32(&a, (m, k), &b, (k, n), &mut whole);
    for i in 0..m {
        let mut row = vec![0.0_f32; n];
        matmul_f32(&a[i * k..(i + 1) * k], (1, k), &b, (k, n), &mut row);
        assert_byte_exact(&whole[i * n..(i + 1) * n], &row, "row");
    }
}
