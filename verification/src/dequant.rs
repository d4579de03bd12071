//! Dequantization kernels: unpack blocks of bytes into elements.
//!
//! A block starts with its scale, a little-endian binary16 number; its
//! quantized integers follow. An element is its integer times the scale.

use vstd::prelude::*;

use crate::arith;
use crate::arith::Arithmetic;
use crate::ieee;
use crate::rows;
use crate::types::GgmlType;

verus! {

/// Bytes per Q8_0 block: the scale and 32 signed bytes.
pub const Q8_0_BLOCK_BYTES: usize = 34;

/// Elements per Q8_0 block.
pub const Q8_0_BLOCK_SIZE: usize = 32;

/// Bytes per Q4_0 block: the scale and 16 pairs of nibbles.
pub const Q4_0_BLOCK_BYTES: usize = 18;

/// Elements per Q4_0 block.
pub const Q4_0_BLOCK_SIZE: usize = 32;

/// The pattern that two bytes hold, the low one first.
pub open spec fn half_pattern(low: u8, high: u8) -> u16 {
    (low + 256 * high) as u16
}

/// `r` can be the element that a binary16 pattern stands for: what `ops` gives
/// for the binary32 pattern of the same number.
pub open spec fn half_element<T, A: Arithmetic<T>>(ops: &A, half: u16, r: T) -> bool {
    exists|wide: u32|
        ieee::widens_to_binary32(half, wide) && #[trigger] arith::pattern(ops, wide, r)
}

/// `r` can be the integer `q` times the scale.
pub open spec fn scaled_integer<T, A: Arithmetic<T>>(ops: &A, q: i32, scale: T, r: T) -> bool {
    exists|f: T| arith::integer(ops, q, f) && #[trigger] arith::product(ops, f, scale, r)
}

/// Every element of `out` can be its integer times the scale.
pub open spec fn scaled_integers<T, A: Arithmetic<T>>(
    ops: &A,
    qs: Seq<i32>,
    scale: T,
    out: Seq<T>,
) -> bool {
    &&& out.len() == qs.len()
    &&& forall|i: int| 0 <= i < qs.len() ==> scaled_integer(ops, qs[i], scale, #[trigger] out[i])
}

/// `out` can be the block with these integers.
pub open spec fn unpacked<T, A: Arithmetic<T>>(
    ops: &A,
    block: Seq<u8>,
    qs: Seq<i32>,
    out: Seq<T>,
) -> bool {
    exists|scale: T|
        {
            &&& half_element(ops, half_pattern(block[0], block[1]), scale)
            &&& #[trigger] scaled_integers(ops, qs, scale, out)
        }
}

/// The integers of a Q8_0 block: its bytes behind the scale, in two's
/// complement.
pub open spec fn q8_0_integers(block: Seq<u8>) -> Seq<i32> {
    Seq::new(
        32,
        |i: int|
            if block[2 + i] < 128 {
                block[2 + i] as i32
            } else {
                (block[2 + i] - 256) as i32
            },
    )
}

/// The integers of a Q4_0 block: the low nibbles of its bytes behind the scale,
/// then the high nibbles, each less 8.
pub open spec fn q4_0_integers(block: Seq<u8>) -> Seq<i32> {
    Seq::new(
        32,
        |i: int|
            if i < 16 {
                (block[2 + i] % 16 - 8) as i32
            } else {
                (block[2 + i - 16] / 16 - 8) as i32
            },
    )
}

/// The element of the binary16 pattern in two bytes.
fn half_at<T, A: Arithmetic<T>>(ops: &A, src: &[u8], at: usize) -> (r: T)
    requires
        at + 1 < src@.len(),
    ensures
        half_element(ops, half_pattern(src@[at as int], src@[at + 1]), r),
{
    assert(src@.len() == src.len());
    let half: u16 = src[at] as u16 + 256 * (src[at + 1] as u16);
    let wide: u32 = ieee::binary16_to_binary32(half);
    let r = ops.from_bits(wide);
    assert(arith::pattern(ops, wide, r));
    r
}

/// An integer times the scale.
fn scale_integer<T: Copy, A: Arithmetic<T>>(ops: &A, q: i32, scale: T) -> (r: T)
    ensures
        scaled_integer(ops, q, scale, r),
{
    let f = ops.from_i32(q);
    let r = ops.mul(f, scale);
    assert(arith::product(ops, f, scale, r));
    r
}

/// Dequantize an f16 row.
///
/// `src` is interpreted as a sequence of little-endian `u16` values that
/// encode IEEE 754 binary16; each is widened to the element of the same number.
pub fn dequant_f16<T: Copy, A: Arithmetic<T>>(ops: &A, src: &[u8], dst: &mut [T])
    requires
        src@.len() == 2 * old(dst)@.len(),
    ensures
        final(dst)@.len() == old(dst)@.len(),
        forall|i: int|
            0 <= i < final(dst)@.len() ==> half_element(
                ops,
                half_pattern(src@[2 * i], src@[2 * i + 1]),
                #[trigger] final(dst)@[i],
            ),
{
    let len: usize = dst.len();
    assert(src@.len() == src.len());
    let mut i: usize = 0;
    while i < len
        invariant
            i <= len,
            dst@.len() == len,
            src@.len() == 2 * len,
            2 * len <= usize::MAX,
            forall|p: int|
                0 <= p < i ==> half_element(
                    ops,
                    half_pattern(src@[2 * p], src@[2 * p + 1]),
                    #[trigger] dst@[p],
                ),
        decreases len - i,
    {
        let v = half_at(ops, src, 2 * i);
        dst[i] = v;
        i = i + 1;
    }
}

/// Dequantize a Q8_0 row.
///
/// `src` must hold a whole number of 34-byte Q8_0 blocks; each block is a
/// two-byte scale and 32 signed bytes. Each output element is its byte times
/// the scale.
pub fn dequant_q8_0<T: Copy, A: Arithmetic<T>>(ops: &A, src: &[u8], dst: &mut [T])
    requires
        src@.len() % 34 == 0,
        old(dst)@.len() == 32 * (src@.len() / 34),
    ensures
        final(dst)@.len() == old(dst)@.len(),
        forall|b: int|
            0 <= b < src@.len() / 34 ==> unpacked(
                ops,
                rows::row(src@, 34, b),
                q8_0_integers(rows::row(src@, 34, b)),
                #[trigger] rows::row(final(dst)@, 32, b),
            ),
{
    let len: usize = dst.len();
    assert(src@.len() == src.len());
    let n_blocks: usize = src.len() / Q8_0_BLOCK_BYTES;
    let mut b: usize = 0;
    while b < n_blocks
        invariant
            b <= n_blocks,
            n_blocks == src@.len() / 34,
            src@.len() == n_blocks * 34,
            src@.len() <= usize::MAX,
            len == n_blocks * 32,
            dst@.len() == len,
            forall|r: int|
                0 <= r < b ==> unpacked(
                    ops,
                    rows::row(src@, 34, r),
                    q8_0_integers(rows::row(src@, 34, r)),
                    #[trigger] rows::row(dst@, 32, r),
                ),
        decreases n_blocks - b,
    {
        let ghost start = dst@;
        let from: usize = b * Q8_0_BLOCK_BYTES;
        let to: usize = b * Q8_0_BLOCK_SIZE;
        let ghost block = rows::row(src@, 34, b as int);
        let ghost qs = q8_0_integers(block);
        let scale = half_at(ops, src, from);
        let mut i: usize = 0;
        while i < Q8_0_BLOCK_SIZE
            invariant
                i <= 32,
                b < n_blocks,
                from == b * 34,
                to == b * 32,
                src@.len() == n_blocks * 34,
                src@.len() <= usize::MAX,
                len == n_blocks * 32,
                dst@.len() == len,
                start.len() == len,
                block == rows::row(src@, 34, b as int),
                qs == q8_0_integers(block),
                forall|p: int| 0 <= p < to || to + i <= p < len ==> #[trigger] dst@[p] == start[p],
                forall|c: int|
                    #![trigger dst@[to + c]]
                    0 <= c < i ==> scaled_integer(ops, qs[c], scale, dst@[to + c]),
            decreases 32 - i,
        {
            let byte: u8 = src[from + 2 + i];
            assert(block[2 + i] == byte);
            let q: i32 = if byte < 128 {
                byte as i32
            } else {
                byte as i32 - 256
            };
            let v = scale_integer(ops, q, scale);
            dst[to + i] = v;
            i = i + 1;
        }
        proof {
            lemma_block_done(ops, start, dst@, n_blocks as int, b as int, block, qs, scale);
        }
        b = b + 1;
    }
}

/// Dequantize a Q4_0 row.
///
/// `src` must hold a whole number of 18-byte Q4_0 blocks; each block is a
/// two-byte scale and 16 bytes that pack two 4-bit nibbles each; the low nibble
/// of byte `j` decodes into output element `j` and the high nibble into output
/// element `j + 16`. Each nibble is shifted by `-8` and scaled.
pub fn dequant_q4_0<T: Copy, A: Arithmetic<T>>(ops: &A, src: &[u8], dst: &mut [T])
    requires
        src@.len() % 18 == 0,
        old(dst)@.len() == 32 * (src@.len() / 18),
    ensures
        final(dst)@.len() == old(dst)@.len(),
        forall|b: int|
            0 <= b < src@.len() / 18 ==> unpacked(
                ops,
                rows::row(src@, 18, b),
                q4_0_integers(rows::row(src@, 18, b)),
                #[trigger] rows::row(final(dst)@, 32, b),
            ),
{
    let len: usize = dst.len();
    assert(src@.len() == src.len());
    let n_blocks: usize = src.len() / Q4_0_BLOCK_BYTES;
    let half: usize = Q4_0_BLOCK_SIZE / 2;
    let mut b: usize = 0;
    while b < n_blocks
        invariant
            b <= n_blocks,
            half == 16,
            n_blocks == src@.len() / 18,
            src@.len() == n_blocks * 18,
            len == n_blocks * 32,
            dst@.len() == len,
            len <= usize::MAX,
            forall|r: int|
                0 <= r < b ==> unpacked(
                    ops,
                    rows::row(src@, 18, r),
                    q4_0_integers(rows::row(src@, 18, r)),
                    #[trigger] rows::row(dst@, 32, r),
                ),
        decreases n_blocks - b,
    {
        let ghost start = dst@;
        let from: usize = b * Q4_0_BLOCK_BYTES;
        let to: usize = b * Q4_0_BLOCK_SIZE;
        let ghost block = rows::row(src@, 18, b as int);
        let ghost qs = q4_0_integers(block);
        let scale = half_at(ops, src, from);
        let mut j: usize = 0;
        while j < half
            invariant
                j <= 16,
                half == 16,
                b < n_blocks,
                from == b * 18,
                to == b * 32,
                src@.len() == n_blocks * 18,
                len == n_blocks * 32,
                dst@.len() == len,
                len <= usize::MAX,
                start.len() == len,
                block == rows::row(src@, 18, b as int),
                qs == q4_0_integers(block),
                forall|p: int| 0 <= p < to || to + 32 <= p < len ==> #[trigger] dst@[p] == start[p],
                forall|c: int|
                    #![trigger dst@[to + c]]
                    0 <= c < j || 16 <= c < 16 + j ==> scaled_integer(
                        ops,
                        qs[c],
                        scale,
                        dst@[to + c],
                    ),
            decreases 16 - j,
        {
            let byte: u8 = src[from + 2 + j];
            assert(block[2 + j] == byte);
            let x0: i32 = (byte & 0x0f) as i32 - 8;
            let x1: i32 = (byte >> 4) as i32 - 8;
            assert(byte & 0x0f == byte % 16 && byte >> 4 == byte / 16) by (bit_vector);
            assert(qs[j as int] == x0 && qs[j + 16] == x1);
            let low = scale_integer(ops, x0, scale);
            let high = scale_integer(ops, x1, scale);
            let ghost kept = dst@;
            dst[to + j] = low;
            dst[to + half + j] = high;
            assert forall|c: int|
                #![trigger dst@[to + c]]
                0 <= c < j + 1 || 16 <= c < 16 + j + 1 implies scaled_integer(
                ops,
                qs[c],
                scale,
                dst@[to + c],
            ) by {
                if c != j && c != 16 + j {
                    assert(dst@[to + c] == kept[to + c]);
                }
            }
            j = j + 1;
        }
        proof {
            lemma_block_done(ops, start, dst@, n_blocks as int, b as int, block, qs, scale);
        }
        b = b + 1;
    }
}

/// What holds once the elements of block `b` are written.
proof fn lemma_block_done<T, A: Arithmetic<T>>(
    ops: &A,
    before: Seq<T>,
    after: Seq<T>,
    n_blocks: int,
    b: int,
    block: Seq<u8>,
    qs: Seq<i32>,
    scale: T,
)
    requires
        0 <= b < n_blocks,
        before.len() == n_blocks * 32,
        after.len() == n_blocks * 32,
        forall|p: int|
            0 <= p < b * 32 || b * 32 + 32 <= p < n_blocks * 32 ==> #[trigger] after[p]
                == before[p],
        half_element(ops, half_pattern(block[0], block[1]), scale),
        qs.len() == 32,
        forall|c: int|
            #![trigger after[b * 32 + c]]
            0 <= c < 32 ==> scaled_integer(ops, qs[c], scale, after[b * 32 + c]),
    ensures
        unpacked(ops, block, qs, rows::row(after, 32, b)),
        forall|r: int|
            0 <= r < b ==> #[trigger] rows::row(after, 32, r) == rows::row(before, 32, r),
{
    let out = rows::row(after, 32, b);
    assert forall|c: int| 0 <= c < 32 implies scaled_integer(
        ops,
        qs[c],
        scale,
        #[trigger] out[c],
    ) by {
        assert(out[c] == after[b * 32 + c]);
    }
    assert(scaled_integers(ops, qs, scale, out));
    rows::lemma_other_rows_kept(before, after, n_blocks, 32, b);
}

/// The blocks that the kernels unpack are those of the tensor types.
pub proof fn law_blocks_match_types()
    ensures
        GgmlType::Q8_0.bytes_per_block() == Q8_0_BLOCK_BYTES,
        GgmlType::Q8_0.elements_per_block() == Q8_0_BLOCK_SIZE,
        GgmlType::Q4_0.bytes_per_block() == Q4_0_BLOCK_BYTES,
        GgmlType::Q4_0.elements_per_block() == Q4_0_BLOCK_SIZE,
        GgmlType::F16.bytes_per_block() == 2,
        GgmlType::F16.elements_per_block() == 1,
{
}

/// The integers of a Q8_0 block are those of a signed byte, the integers of a
/// Q4_0 block those from -8 to 7, and each block has one for every element.
pub proof fn law_integer_ranges(block: Seq<u8>)
    ensures
        q8_0_integers(block).len() == Q8_0_BLOCK_SIZE,
        q4_0_integers(block).len() == Q4_0_BLOCK_SIZE,
        forall|i: int|
            0 <= i < Q8_0_BLOCK_SIZE ==> -128 <= #[trigger] q8_0_integers(block)[i] <= 127,
        forall|i: int| 0 <= i < Q4_0_BLOCK_SIZE ==> -8 <= #[trigger] q4_0_integers(block)[i] <= 7,
{
}

/// Where the operations give one result each, so does the conversion of a
/// binary16 number.
pub proof fn law_half_element_is_determined<T, A: Arithmetic<T>>(ops: &A, half: u16, r: T, s: T)
    requires
        arith::determined::<T, A>(ops),
        half_element(ops, half, r),
        half_element(ops, half, s),
    ensures
        r == s,
{
    let a = choose|wide: u32|
        ieee::widens_to_binary32(half, wide) && #[trigger] arith::pattern(ops, wide, r);
    let b = choose|wide: u32|
        ieee::widens_to_binary32(half, wide) && #[trigger] arith::pattern(ops, wide, s);
    if ieee::binary16(half) != ieee::Number::Nan {
        ieee::law_binary32_is_determined(a, b);
    }
}

/// Where the operations give one result each, so does the unpacking of a block.
pub proof fn law_block_is_determined<T, A: Arithmetic<T>>(
    ops: &A,
    block: Seq<u8>,
    qs: Seq<i32>,
    r: Seq<T>,
    s: Seq<T>,
)
    requires
        arith::determined::<T, A>(ops),
        unpacked(ops, block, qs, r),
        unpacked(ops, block, qs, s),
    ensures
        r == s,
{
    let half = half_pattern(block[0], block[1]);
    let a = choose|scale: T|
        half_element(ops, half, scale) && #[trigger] scaled_integers(ops, qs, scale, r);
    let b = choose|scale: T|
        half_element(ops, half, scale) && #[trigger] scaled_integers(ops, qs, scale, s);
    law_half_element_is_determined(ops, half, a, b);
    assert forall|i: int| 0 <= i < qs.len() implies r[i] == s[i] by {
        assert(scaled_integer(ops, qs[i], a, r[i]));
        assert(scaled_integer(ops, qs[i], b, s[i]));
    }
    assert(r =~= s);
}

/// The element of a binary16 pattern step by step: the pattern is widened without
/// loss, and the element is what stands for the wide one. Gives the wide pattern.
pub proof fn law_half_element_steps<T, A: Arithmetic<T>>(
    ops: &A,
    low: u8,
    high: u8,
    r: T,
) -> (wide: u32)
    requires
        half_element(ops, half_pattern(low, high), r),
    ensures
        ieee::binary32(wide) == ieee::binary16((low + 256 * high) as u16),
        ieee::binary32(wide) == ieee::Number::Nan ==> wide == (high / 128) * 0x8000_0000
            + 0x7fc0_0000 + ((low + 256 * high) % 0x200) * 0x2000,
        call_ensures(A::from_bits, (ops, wide), r),
{
    choose|wide: u32|
        ieee::widens_to_binary32(half_pattern(low, high), wide) && #[trigger] arith::pattern(
            ops,
            wide,
            r,
        )
}

/// What comes up while an element of a block is unpacked.
pub struct UnpackSteps<T> {
    /// The scale as a binary32 pattern.
    pub wide: u32,
    pub scale: T,
    /// The quantized integer.
    pub q: i32,
    pub integer: T,
}

proof fn lemma_unpack_steps<T, A: Arithmetic<T>>(
    ops: &A,
    block: Seq<u8>,
    qs: Seq<i32>,
    out: Seq<T>,
    i: int,
) -> (w: UnpackSteps<T>)
    requires
        unpacked(ops, block, qs, out),
        0 <= i < qs.len(),
    ensures
        out.len() == qs.len(),
        ieee::binary32(w.wide) == ieee::binary16((block[0] + 256 * block[1]) as u16),
        call_ensures(A::from_bits, (ops, w.wide), w.scale),
        w.q == qs[i],
        call_ensures(A::from_i32, (ops, w.q), w.integer),
        call_ensures(A::mul, (ops, w.integer, w.scale), out[i]),
{
    let scale = choose|scale: T|
        {
            &&& half_element(ops, half_pattern(block[0], block[1]), scale)
            &&& #[trigger] scaled_integers(ops, qs, scale, out)
        };
    let wide = law_half_element_steps(ops, block[0], block[1], scale);
    assert(scaled_integer(ops, qs[i], scale, out[i]));
    let integer = choose|f: T|
        arith::integer(ops, qs[i], f) && #[trigger] arith::product(ops, f, scale, out[i]);
    UnpackSteps { wide, scale, q: qs[i], integer }
}

/// Element `i` of Q8_0 block `b` step by step, on the bytes and the elements: the
/// first two bytes of the block hold the scale, and byte `2 + i` the integer in
/// two's complement; the element is the integer times the scale.
pub proof fn law_q8_0_steps<T, A: Arithmetic<T>>(
    ops: &A,
    src: Seq<u8>,
    out: Seq<T>,
    b: int,
    i: int,
) -> (w: UnpackSteps<T>)
    requires
        src.len() % 34 == 0,
        out.len() == 32 * (src.len() / 34),
        0 <= b < src.len() / 34,
        unpacked(
            ops,
            rows::row(src, 34, b),
            q8_0_integers(rows::row(src, 34, b)),
            rows::row(out, 32, b),
        ),
        0 <= i < 32,
    ensures
        ieee::binary32(w.wide) == ieee::binary16((src[34 * b] + 256 * src[34 * b + 1]) as u16),
        call_ensures(A::from_bits, (ops, w.wide), w.scale),
        -128 <= w.q <= 127,
        w.q == src[34 * b + 2 + i] || w.q == src[34 * b + 2 + i] - 256,
        call_ensures(A::from_i32, (ops, w.q), w.integer),
        call_ensures(A::mul, (ops, w.integer, w.scale), out[32 * b + i]),
{
    let block = rows::row(src, 34, b);
    let n = (src.len() / 34) as nat;
    rows::law_row(src, n, 34, b, 0);
    rows::law_row(src, n, 34, b, 1);
    rows::law_row(src, n, 34, b, 2 + i);
    rows::law_row(out, n, 32, b, i);
    lemma_unpack_steps(ops, block, q8_0_integers(block), rows::row(out, 32, b), i)
}

/// Element `i` of Q4_0 block `b` step by step, on the bytes and the elements: the
/// first two bytes of the block hold the scale; of the 16 bytes behind them the
/// low halves are the first 16 integers and the high halves the others, each 8
/// too large; the element is the integer times the scale.
pub proof fn law_q4_0_steps<T, A: Arithmetic<T>>(
    ops: &A,
    src: Seq<u8>,
    out: Seq<T>,
    b: int,
    i: int,
) -> (w: UnpackSteps<T>)
    requires
        src.len() % 18 == 0,
        out.len() == 32 * (src.len() / 18),
        0 <= b < src.len() / 18,
        unpacked(
            ops,
            rows::row(src, 18, b),
            q4_0_integers(rows::row(src, 18, b)),
            rows::row(out, 32, b),
        ),
        0 <= i < 32,
    ensures
        ieee::binary32(w.wide) == ieee::binary16((src[18 * b] + 256 * src[18 * b + 1]) as u16),
        call_ensures(A::from_bits, (ops, w.wide), w.scale),
        i < 16 ==> w.q + 8 == src[18 * b + 2 + i] % 16,
        i >= 16 ==> w.q + 8 == src[18 * b + 2 + (i - 16)] / 16,
        call_ensures(A::from_i32, (ops, w.q), w.integer),
        call_ensures(A::mul, (ops, w.integer, w.scale), out[32 * b + i]),
{
    let block = rows::row(src, 18, b);
    let n = (src.len() / 18) as nat;
    rows::law_row(src, n, 18, b, 0);
    rows::law_row(src, n, 18, b, 1);
    if i < 16 {
        rows::law_row(src, n, 18, b, 2 + i);
    } else {
        rows::law_row(src, n, 18, b, 2 + i - 16);
    }
    rows::law_row(out, n, 32, b, i);
    lemma_unpack_steps(ops, block, q4_0_integers(block), rows::row(out, 32, b), i)
}

/// The integers of a block keep its bytes: those of a Q8_0 block are its bytes up
/// to multiples of 256, and two of a Q4_0 block make up a byte.
pub proof fn law_integers_keep_bytes(block: Seq<u8>, i: int, j: int)
    requires
        0 <= i < 32,
        0 <= j < 16,
    ensures
        (q8_0_integers(block)[i] - block[2 + i]) % 256 == 0,
        -128 <= q8_0_integers(block)[i] <= 127,
        (q4_0_integers(block)[j] + 8) + 16 * (q4_0_integers(block)[j + 16] + 8) == block[2 + j],
        -8 <= q4_0_integers(block)[j] <= 7,
        -8 <= q4_0_integers(block)[j + 16] <= 7,
{
}

} // verus!
