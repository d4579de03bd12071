//! Little-endian numbers and fixed-length fields in a byte sequence.

use vstd::arithmetic::power;
use vstd::prelude::*;

use crate::gguf::error::GgufError;

verus! {

/// What reading a field at some position gives: the value and the position
/// just behind the field, or the error.
pub type Parsed<V> = Result<(V, nat), GgufError>;

/// The number that `b` stands for, least significant byte first.
pub open spec fn le_value(b: Seq<u8>) -> nat
    decreases b.len(),
{
    if b.len() == 0 {
        0
    } else {
        b[0] as nat + 256 * le_value(b.skip(1))
    }
}

/// The `n` least significant bytes of `v`, least significant byte first.
pub open spec fn le_bytes(v: nat, n: nat) -> Seq<u8>
    decreases n,
{
    if n == 0 {
        Seq::empty()
    } else {
        seq![(v % 256) as u8] + le_bytes(v / 256, (n - 1) as nat)
    }
}

/// The bytes `part` stand at position `pos` of `data`.
pub open spec fn stands_at(data: Seq<u8>, pos: nat, part: Seq<u8>) -> bool {
    &&& pos + part.len() <= data.len()
    &&& data.subrange(pos as int, (pos + part.len()) as int) == part
}

/// A count of bytes, or the largest that a `usize` can hold for one beyond it.
pub open spec fn saturated(n: nat) -> usize {
    if n <= usize::MAX {
        n as usize
    } else {
        usize::MAX
    }
}

/// The `n` bytes at position `pos`.
pub open spec fn take(data: Seq<u8>, pos: nat, n: nat) -> Parsed<Seq<u8>> {
    if pos + n <= data.len() {
        Ok((data.subrange(pos as int, (pos + n) as int), pos + n))
    } else {
        Err(
            GgufError::UnexpectedEof {
                needed: saturated(n),
                available: (data.len() - pos) as usize,
            },
        )
    }
}

/// The unsigned number in the `n` bytes at position `pos`.
pub open spec fn parse_uint(data: Seq<u8>, pos: nat, n: nat) -> Parsed<nat> {
    match take(data, pos, n) {
        Ok((b, p)) => Ok((le_value(b), p)),
        Err(e) => Err(e),
    }
}

/// The read ran past the end of the buffer.
pub open spec fn is_eof<V>(r: Parsed<V>) -> bool {
    r matches Err(GgufError::UnexpectedEof { .. })
}

/// The error is about the magic bytes or the version.
pub open spec fn is_preamble_error(e: GgufError) -> bool {
    match e {
        GgufError::BadMagic(_) => true,
        GgufError::UnsupportedVersion(_) => true,
        _ => false,
    }
}

/// An unexpected end of file, in a buffer of `len` bytes, counts fewer bytes than
/// were needed.
pub open spec fn falls_short(e: GgufError, len: nat) -> bool {
    e matches GgufError::UnexpectedEof { needed, available } ==> len <= usize::MAX ==> available
        < needed
}

/// What a field in a buffer of `len` bytes can be refused for: neither for the
/// magic bytes nor for the version, and for the end of the file only where bytes
/// are missing.
pub open spec fn is_field_error(e: GgufError, len: nat) -> bool {
    !is_preamble_error(e) && falls_short(e, len)
}

/// Two buffers of one length hold the same bytes from `pos` on.
pub open spec fn same_behind(data: Seq<u8>, other: Seq<u8>, pos: nat) -> bool {
    &&& data.len() == other.len()
    &&& forall|i: int| pos <= i < data.len() ==> #[trigger] data[i] == other[i]
}

/// How the result of a read on the first `n` bytes of a buffer, `short`, goes
/// with that on the whole buffer, `whole`: it is the same, or it is an
/// unexpected end of file; and it is the same where the field lies within the
/// `n` bytes. A field never ends before it starts nor behind the buffer.
pub open spec fn truncation_agrees<V>(
    short: Parsed<V>,
    whole: Parsed<V>,
    pos: nat,
    n: nat,
    len: nat,
) -> bool {
    &&& short == whole || is_eof(short)
    &&& whole matches Ok((_, end)) ==> pos <= end <= len && (end <= n ==> short == whole)
    &&& short matches Ok((_, end)) ==> end <= n
}

/// Where to cut a buffer that was cut at `n`, to look at a field that starts at
/// `p`: at `n` if the field starts before the cut, and not at all otherwise.
pub open spec fn cut_behind(data: Seq<u8>, p: nat, n: nat) -> nat {
    if p <= n {
        n
    } else {
        data.len()
    }
}

pub proof fn lemma_pow256()
    ensures
        power::pow(256, 0) == 1,
        power::pow(256, 1) == 0x100,
        power::pow(256, 2) == 0x1_0000,
        power::pow(256, 4) == 0x1_0000_0000,
        power::pow(256, 8) == 0x1_0000_0000_0000_0000,
{
    reveal_with_fuel(power::pow, 9);
}

pub proof fn lemma_le_value_bound(b: Seq<u8>)
    ensures
        le_value(b) < power::pow(256, b.len()),
    decreases b.len(),
{
    reveal(power::pow);
    if b.len() > 0 {
        lemma_le_value_bound(b.skip(1));
    }
}

pub proof fn lemma_le_bytes_len(v: nat, n: nat)
    ensures
        le_bytes(v, n).len() == n,
    decreases n,
{
    if n > 0 {
        lemma_le_bytes_len(v / 256, (n - 1) as nat);
    }
}

/// Reading back the bytes of a number that fits gives the number.
pub proof fn lemma_le_value_of_bytes(v: nat, n: nat)
    requires
        v < power::pow(256, n),
    ensures
        le_value(le_bytes(v, n)) == v,
    decreases n,
{
    reveal(power::pow);
    if n > 0 {
        let rest = le_bytes(v / 256, (n - 1) as nat);
        lemma_le_value_of_bytes(v / 256, (n - 1) as nat);
        assert(le_bytes(v, n).skip(1) =~= rest);
    }
}

/// The bytes of the number that `b` stands for are `b`.
pub proof fn lemma_le_bytes_of_value(b: Seq<u8>)
    ensures
        le_bytes(le_value(b), b.len()) == b,
    decreases b.len(),
{
    if b.len() > 0 {
        let rest = b.skip(1);
        lemma_le_bytes_of_value(rest);
        let v = le_value(b);
        assert(v % 256 == b[0] && v / 256 == le_value(rest));
        assert(seq![b[0]] + rest =~= b);
    } else {
        assert(b =~= Seq::empty());
    }
}

/// Two, four and eight bytes spelled out.
pub proof fn lemma_le_value_spelled_out(b: Seq<u8>)
    ensures
        b.len() == 1 ==> le_value(b) == b[0],
        b.len() == 2 ==> le_value(b) == b[0] + 0x100 * b[1],
        b.len() == 4 ==> le_value(b) == b[0] + 0x100 * b[1] + 0x1_0000 * b[2] + 0x100_0000 * b[3],
        b.len() == 8 ==> le_value(b) == b[0] + 0x100 * b[1] + 0x1_0000 * b[2] + 0x100_0000 * b[3]
            + 0x1_0000_0000 * b[4] + 0x100_0000_0000 * b[5] + 0x1_0000_0000_0000 * b[6]
            + 0x100_0000_0000_0000 * b[7],
{
    reveal_with_fuel(le_value, 9);
}

pub proof fn lemma_take_truncation(data: Seq<u8>, pos: nat, n: nat, k: nat)
    requires
        pos <= n <= data.len(),
    ensures
        truncation_agrees(take(data.take(n as int), pos, k), take(data, pos, k), pos, n, data.len()),
{
    let short = data.take(n as int);
    if pos + k <= n {
        assert(short.subrange(pos as int, (pos + k) as int) =~= data.subrange(
            pos as int,
            (pos + k) as int,
        ));
    }
}

pub proof fn lemma_take_local(data: Seq<u8>, other: Seq<u8>, pos: nat, k: nat)
    requires
        same_behind(data, other, pos),
    ensures
        take(data, pos, k) == take(other, pos, k),
{
    if pos + k <= data.len() {
        assert(data.subrange(pos as int, (pos + k) as int) =~= other.subrange(
            pos as int,
            (pos + k) as int,
        ));
    }
}

pub proof fn lemma_uint_truncation(data: Seq<u8>, pos: nat, n: nat, k: nat)
    requires
        pos <= n <= data.len(),
    ensures
        truncation_agrees(
            parse_uint(data.take(n as int), pos, k),
            parse_uint(data, pos, k),
            pos,
            n,
            data.len(),
        ),
{
    lemma_take_truncation(data, pos, n, k);
}

/// A number written at a position is read back from it.
pub proof fn lemma_uint_round_trip(v: nat, k: nat, data: Seq<u8>, pos: nat)
    requires
        v < power::pow(256, k),
        stands_at(data, pos, le_bytes(v, k)),
    ensures
        le_bytes(v, k).len() == k,
        parse_uint(data, pos, k) == Ok::<(nat, nat), GgufError>((v, pos + k)),
{
    lemma_le_bytes_len(v, k);
    lemma_le_value_of_bytes(v, k);
}

/// A number that was read takes as many bytes as it is written with, and they
/// are the same.
pub proof fn lemma_uint_consumed(data: Seq<u8>, pos: nat, k: nat)
    requires
        pos <= data.len(),
    ensures
        parse_uint(data, pos, k) matches Ok((v, end)) ==> {
            &&& v < power::pow(256, k)
            &&& le_bytes(v, k).len() == k
            &&& end == pos + k
            &&& stands_at(data, pos, le_bytes(v, k))
        },
{
    if pos + k <= data.len() {
        let b = data.subrange(pos as int, (pos + k) as int);
        lemma_le_value_bound(b);
        lemma_le_bytes_of_value(b);
    }
}

/// Two parts, one behind the other, each stand where they should.
pub proof fn lemma_stands_at_split(data: Seq<u8>, pos: nat, a: Seq<u8>, b: Seq<u8>)
    requires
        stands_at(data, pos, a + b),
    ensures
        stands_at(data, pos, a),
        stands_at(data, pos + a.len(), b),
{
    let whole = data.subrange(pos as int, (pos + a.len() + b.len()) as int);
    assert(whole == a + b);
    assert(data.subrange(pos as int, (pos + a.len()) as int) =~= whole.take(a.len() as int));
    assert(whole.take(a.len() as int) =~= a);
    assert(data.subrange((pos + a.len()) as int, (pos + a.len() + b.len()) as int) =~= whole.skip(
        a.len() as int,
    ));
    assert(whole.skip(a.len() as int) =~= b);
}

/// Parts that stand one behind the other stand as a whole.
pub proof fn lemma_stands_at_join(data: Seq<u8>, pos: nat, a: Seq<u8>, b: Seq<u8>)
    requires
        stands_at(data, pos, a),
        stands_at(data, pos + a.len(), b),
    ensures
        stands_at(data, pos, a + b),
{
    assert(data.subrange(pos as int, (pos + a.len() + b.len()) as int) =~= data.subrange(
        pos as int,
        (pos + a.len()) as int,
    ) + data.subrange((pos + a.len()) as int, (pos + a.len() + b.len()) as int));
}

} // verus!
