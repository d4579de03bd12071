use ggml::arith::Arithmetic;
use ggml::dequant::{Q4_0_BLOCK_BYTES, Q4_0_BLOCK_SIZE, Q8_0_BLOCK_BYTES, Q8_0_BLOCK_SIZE};
use half::f16;

/// Single-precision arithmetic.
struct F32;

impl Arithmetic<f32> for F32 {
    fn zero(&self) -> f32 {
        0.0
    }
    fn one(&self) -> f32 {
        1.0
    }
    fn neg_infinity(&self) -> f32 {
        f32::NEG_INFINITY
    }
    fn from_usize(&self, n: usize) -> f32 {
        n as f32
    }
    fn from_i32(&self, n: i32) -> f32 {
        n as f32
    }
    fn from_bits(&self, bits: u32) -> f32 {
        f32::from_bits(bits)
    }
    fn add(&self, a: f32, b: f32) -> f32 {
        a + b
    }
    fn sub(&self, a: f32, b: f32) -> f32 {
        a - b
    }
    fn mul(&self, a: f32, b: f32) -> f32 {
        a * b
    }
    fn div(&self, a: f32, b: f32) -> f32 {
        a / b
    }
    fn neg(&self, a: f32) -> f32 {
        -a
    }
    fn exp(&self, a: f32) -> f32 {
        a.exp()
    }
    fn sqrt(&self, a: f32) -> f32 {
        a.sqrt()
    }
    fn powf(&self, a: f32, b: f32) -> f32 {
        a.powf(b)
    }
    fn sin_cos(&self, a: f32) -> (f32, f32) {
        a.sin_cos()
    }
    fn gt(&self, a: f32, b: f32) -> bool {
        a > b
    }
}

fn dequant_f16(src: &[u8], dst: &mut [f32]) {
    ggml::dequant_f16(&F32, src, dst)
}

fn dequant_q8_0(src: &[u8], dst: &mut [f32]) {
    ggml::dequant_q8_0(&F32, src, dst)
}

fn dequant_q4_0(src: &[u8], dst: &mut [f32]) {
    ggml::dequant_q4_0(&F32, src, dst)
}

#[test]
fn f16_handles_zero_one_and_neg_one() {
    let src: [u8; 6] = [
        0x00, 0x00, // +0.0
        0x00, 0x3C, // 1.0
        0x00, 0xBC, // -1.0
    ];
    let mut dst = [0.0f32; 3];
    dequant_f16(&src, &mut dst);
    assert_eq!(dst[0].to_bits(), 0.0f32.to_bits());
    assert_eq!(dst[1].to_bits(), 1.0f32.to_bits());
    assert_eq!(dst[2].to_bits(), (-1.0f32).to_bits());
}

#[test]
fn q8_0_single_block_matches_scalar_formula() {
    let mut src = [0u8; Q8_0_BLOCK_BYTES];
    let d_f16 = f16::from_f32(0.25);
    src[0..2].copy_from_slice(&d_f16.to_bits().to_le_bytes());
    for i in 0..Q8_0_BLOCK_SIZE {
        src[2 + i] = ((i as i32) - 16) as u8;
    }
    let mut dst = [0.0f32; Q8_0_BLOCK_SIZE];
    dequant_q8_0(&src, &mut dst);
    let d = d_f16.to_f32();
    for (i, &v) in dst.iter().enumerate() {
        let q = (i as i32 - 16) as i8;
        assert_eq!(v.to_bits(), (q as f32 * d).to_bits(), "elem {i}");
    }
}

#[test]
fn q4_0_single_block_matches_scalar_formula() {
    let mut src = [0u8; Q4_0_BLOCK_BYTES];
    let d_f16 = f16::from_f32(0.125);
    src[0..2].copy_from_slice(&d_f16.to_bits().to_le_bytes());
    for j in 0..16 {
        let low = (j as u8) & 0x0F;
        let high = ((j as u8).wrapping_mul(3)) & 0x0F;
        src[2 + j] = (high << 4) | low;
    }
    let mut dst = [0.0f32; Q4_0_BLOCK_SIZE];
    dequant_q4_0(&src, &mut dst);
    let d = d_f16.to_f32();
    for j in 0..16 {
        let low = (j as i32) & 0x0F;
        let high = ((j as i32) * 3) & 0x0F;
        assert_eq!(
            dst[j].to_bits(),
            ((low - 8) as f32 * d).to_bits(),
            "low nibble at elem {j}"
        );
        assert_eq!(
            dst[j + 16].to_bits(),
            ((high - 8) as f32 * d).to_bits(),
            "high nibble at elem {}",
            j + 16
        );
    }
}

#[test]
fn q4_0_zero_nibbles_produce_negative_eight_times_d() {
    let mut src = [0u8; Q4_0_BLOCK_BYTES];
    let d_f16 = f16::from_f32(1.0);
    src[0..2].copy_from_slice(&d_f16.to_bits().to_le_bytes());
    let mut dst = [0.0f32; Q4_0_BLOCK_SIZE];
    dequant_q4_0(&src, &mut dst);
    for v in dst {
        assert_eq!(v.to_bits(), (-8.0f32).to_bits());
    }
}

#[test]
fn f16_widens_infinities_and_subnormals() {
    let src = [0x00, 0x7c, 0x00, 0xfc, 0x01, 0x00, 0xff, 0x7b];
    let mut dst = [0.0_f32; 4];
    dequant_f16(&src, &mut dst);
    assert_eq!(dst, [f32::INFINITY, f32::NEG_INFINITY, 2.0_f32.powi(-24), 65504.0]);
}

#[test]
fn empty_rows_stay_empty() {
    let mut dst: [f32; 0] = [];
    dequant_f16(&[], &mut dst);
    dequant_q8_0(&[], &mut dst);
    dequant_q4_0(&[], &mut dst);
}

#[test]
fn q8_0_blocks_have_scales_of_their_own() {
    let mut src = vec![0_u8; 2 * Q8_0_BLOCK_BYTES];
    src[0..2].copy_from_slice(&f16::from_f32(0.5).to_bits().to_le_bytes());
    src[2] = 0x80;
    src[33] = 0x7f;
    src[34..36].copy_from_slice(&f16::from_f32(-2.0).to_bits().to_le_bytes());
    src[36] = 3;
    src[67] = 0xff;
    let mut dst = vec![9.0_f32; 2 * Q8_0_BLOCK_SIZE];
    dequant_q8_0(&src, &mut dst);
    assert_eq!(dst[0], -64.0);
    assert_eq!(dst[31], 63.5);
    assert_eq!(dst[32], -6.0);
    assert_eq!(dst[63], 2.0);
    assert!(dst[1..31].iter().all(|v| *v == 0.0));
    assert!(dst[33..63].iter().all(|v| *v == 0.0));
}

#[test]
fn q4_0_blocks_have_scales_of_their_own() {
    let mut src = vec![0x88_u8; 2 * Q4_0_BLOCK_BYTES];
    src[0..2].copy_from_slice(&f16::from_f32(0.5).to_bits().to_le_bytes());
    src[2] = 0xf0;
    src[18..20].copy_from_slice(&f16::from_f32(2.0).to_bits().to_le_bytes());
    src[35] = 0x0f;
    let mut dst = vec![9.0_f32; 2 * Q4_0_BLOCK_SIZE];
    dequant_q4_0(&src, &mut dst);
    assert_eq!(dst[0], -4.0);
    assert_eq!(dst[16], 3.5);
    assert_eq!(dst[47], 14.0);
    assert_eq!(dst[63], -16.0);
    assert!(dst[1..16].iter().all(|v| *v == 0.0));
    assert!(dst[17..47].iter().all(|v| *v == 0.0));
}

#[test]
fn unpacking_twice_gives_the_same_elements() {
    let src: Vec<u8> = (0..3 * Q8_0_BLOCK_BYTES).map(|i| (i * 37 % 251) as u8).collect();
    let mut first = vec![0.0_f32; 3 * Q8_0_BLOCK_SIZE];
    let mut second = vec![1.0_f32; 3 * Q8_0_BLOCK_SIZE];
    dequant_q8_0(&src, &mut first);
    dequant_q8_0(&src, &mut second);
    for (a, b) in first.iter().zip(&second) {
        assert_eq!(a.to_bits(), b.to_bits());
    }
}

#[test]
fn blocks_match_the_tensor_types() {
    assert_eq!(ggml::GgmlType::Q8_0.type_size(), Q8_0_BLOCK_BYTES);
    assert_eq!(ggml::GgmlType::Q8_0.block_size() as usize, Q8_0_BLOCK_SIZE);
    assert_eq!(ggml::GgmlType::Q4_0.type_size(), Q4_0_BLOCK_BYTES);
    assert_eq!(ggml::GgmlType::Q4_0.block_size() as usize, Q4_0_BLOCK_SIZE);
}
