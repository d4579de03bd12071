//! How single fields are laid out in a GGUF file.

use vstd::prelude::*;
use vstd::utf8;

use crate::gguf::bytes;
use crate::gguf::bytes::Parsed;
use crate::gguf::error::GgufError;

verus! {

/// A kind of field: how it is read from bytes, how it is written, and what
/// ties the two together.
pub trait Encoded: View {
    /// The field that starts at `pos`.
    spec fn parse(data: Seq<u8>, pos: nat) -> Parsed<Self::V>;

    /// The bytes that a value is written as.
    spec fn encode(v: Self::V) -> Seq<u8>;

    /// The value can be written.
    spec fn encodable(v: Self::V) -> bool;

    /// No bytes but those of `encode` are read as this value.
    spec fn one_form(v: Self::V) -> bool;

    /// A value that was written is read back.
    proof fn lemma_round_trip(v: Self::V, data: Seq<u8>, pos: nat)
        requires
            Self::encodable(v),
            bytes::stands_at(data, pos, Self::encode(v)),
        ensures
            Self::parse(data, pos) == Ok::<(Self::V, nat), GgufError>(
                (v, pos + Self::encode(v).len()),
            ),
    ;

    /// Cutting the buffer short changes nothing, or the read runs past the end.
    proof fn lemma_truncation(data: Seq<u8>, pos: nat, n: nat)
        requires
            pos <= n <= data.len(),
        ensures
            bytes::truncation_agrees(
                Self::parse(data.take(n as int), pos),
                Self::parse(data, pos),
                pos,
                n,
                data.len(),
            ),
    ;

    /// A field that was read can be written, in as many bytes as it had, and
    /// in the same ones if there is one form only.
    proof fn lemma_consumed(data: Seq<u8>, pos: nat)
        requires
            pos <= data.len(),
        ensures
            Self::parse(data, pos) matches Ok((v, end)) ==> {
                &&& Self::encodable(v)
                &&& end == pos + Self::encode(v).len()
                &&& end <= data.len()
                &&& Self::one_form(v) ==> bytes::stands_at(data, pos, Self::encode(v))
            },
    ;

    /// A field is never refused for the magic bytes or the version, and for the
    /// end of the file only where bytes are missing.
    proof fn lemma_errors(data: Seq<u8>, pos: nat)
        requires
            pos <= data.len(),
        ensures
            Self::parse(data, pos) matches Err(e) ==> bytes::is_field_error(e, data.len()),
    ;

    /// The bytes before a field do not change how it is read.
    proof fn lemma_local(data: Seq<u8>, other: Seq<u8>, pos: nat)
        requires
            pos <= data.len(),
            bytes::same_behind(data, other, pos),
        ensures
            Self::parse(data, pos) == Self::parse(other, pos),
    ;
}

/// The number that the bit pattern `v` of `width` bits stands for in two's
/// complement, where `half` is the weight of the top bit.
pub open spec fn signed(v: nat, half: nat) -> int {
    if v < half {
        v as int
    } else {
        v - 2 * half
    }
}

/// The bit pattern that stands for `v` in two's complement, where `half` is
/// the weight of the top bit.
pub open spec fn unsigned(v: int, half: nat) -> nat {
    if v >= 0 {
        v as nat
    } else {
        (v + 2 * half) as nat
    }
}

impl Encoded for u8 {
    open spec fn parse(data: Seq<u8>, pos: nat) -> Parsed<u8> {
        match bytes::parse_uint(data, pos, 1) {
            Ok((v, p)) => Ok((v as u8, p)),
            Err(e) => Err(e),
        }
    }

    open spec fn encode(v: u8) -> Seq<u8> {
        bytes::le_bytes(v as nat, 1)
    }

    open spec fn encodable(v: u8) -> bool {
        true
    }

    open spec fn one_form(v: u8) -> bool {
        true
    }

    proof fn lemma_round_trip(v: u8, data: Seq<u8>, pos: nat) {
        bytes::lemma_pow256();
        bytes::lemma_uint_round_trip(v as nat, 1, data, pos);
    }

    proof fn lemma_truncation(data: Seq<u8>, pos: nat, n: nat) {
        bytes::lemma_uint_truncation(data, pos, n, 1);
    }

    proof fn lemma_consumed(data: Seq<u8>, pos: nat) {
        bytes::lemma_pow256();
        bytes::lemma_uint_consumed(data, pos, 1);
    }

    proof fn lemma_errors(data: Seq<u8>, pos: nat) {
    }

    proof fn lemma_local(data: Seq<u8>, other: Seq<u8>, pos: nat) {
        bytes::lemma_take_local(data, other, pos, 1);
    }
}

impl Encoded for u16 {
    open spec fn parse(data: Seq<u8>, pos: nat) -> Parsed<u16> {
        match bytes::parse_uint(data, pos, 2) {
            Ok((v, p)) => Ok((v as u16, p)),
            Err(e) => Err(e),
        }
    }

    open spec fn encode(v: u16) -> Seq<u8> {
        bytes::le_bytes(v as nat, 2)
    }

    open spec fn encodable(v: u16) -> bool {
        true
    }

    open spec fn one_form(v: u16) -> bool {
        true
    }

    proof fn lemma_round_trip(v: u16, data: Seq<u8>, pos: nat) {
        bytes::lemma_pow256();
        bytes::lemma_uint_round_trip(v as nat, 2, data, pos);
    }

    proof fn lemma_truncation(data: Seq<u8>, pos: nat, n: nat) {
        bytes::lemma_uint_truncation(data, pos, n, 2);
    }

    proof fn lemma_consumed(data: Seq<u8>, pos: nat) {
        bytes::lemma_pow256();
        bytes::lemma_uint_consumed(data, pos, 2);
    }

    proof fn lemma_errors(data: Seq<u8>, pos: nat) {
    }

    proof fn lemma_local(data: Seq<u8>, other: Seq<u8>, pos: nat) {
        bytes::lemma_take_local(data, other, pos, 2);
    }
}

impl Encoded for u32 {
    open spec fn parse(data: Seq<u8>, pos: nat) -> Parsed<u32> {
        match bytes::parse_uint(data, pos, 4) {
            Ok((v, p)) => Ok((v as u32, p)),
            Err(e) => Err(e),
        }
    }

    open spec fn encode(v: u32) -> Seq<u8> {
        bytes::le_bytes(v as nat, 4)
    }

    open spec fn encodable(v: u32) -> bool {
        true
    }

    open spec fn one_form(v: u32) -> bool {
        true
    }

    proof fn lemma_round_trip(v: u32, data: Seq<u8>, pos: nat) {
        bytes::lemma_pow256();
        bytes::lemma_uint_round_trip(v as nat, 4, data, pos);
    }

    proof fn lemma_truncation(data: Seq<u8>, pos: nat, n: nat) {
        bytes::lemma_uint_truncation(data, pos, n, 4);
    }

    proof fn lemma_consumed(data: Seq<u8>, pos: nat) {
        bytes::lemma_pow256();
        bytes::lemma_uint_consumed(data, pos, 4);
    }

    proof fn lemma_errors(data: Seq<u8>, pos: nat) {
    }

    proof fn lemma_local(data: Seq<u8>, other: Seq<u8>, pos: nat) {
        bytes::lemma_take_local(data, other, pos, 4);
    }
}

impl Encoded for u64 {
    open spec fn parse(data: Seq<u8>, pos: nat) -> Parsed<u64> {
        match bytes::parse_uint(data, pos, 8) {
            Ok((v, p)) => Ok((v as u64, p)),
            Err(e) => Err(e),
        }
    }

    open spec fn encode(v: u64) -> Seq<u8> {
        bytes::le_bytes(v as nat, 8)
    }

    open spec fn encodable(v: u64) -> bool {
        true
    }

    open spec fn one_form(v: u64) -> bool {
        true
    }

    proof fn lemma_round_trip(v: u64, data: Seq<u8>, pos: nat) {
        bytes::lemma_pow256();
        bytes::lemma_uint_round_trip(v as nat, 8, data, pos);
    }

    proof fn lemma_truncation(data: Seq<u8>, pos: nat, n: nat) {
        bytes::lemma_uint_truncation(data, pos, n, 8);
    }

    proof fn lemma_consumed(data: Seq<u8>, pos: nat) {
        bytes::lemma_pow256();
        bytes::lemma_uint_consumed(data, pos, 8);
    }

    proof fn lemma_errors(data: Seq<u8>, pos: nat) {
    }

    proof fn lemma_local(data: Seq<u8>, other: Seq<u8>, pos: nat) {
        bytes::lemma_take_local(data, other, pos, 8);
    }
}

impl Encoded for i8 {
    open spec fn parse(data: Seq<u8>, pos: nat) -> Parsed<i8> {
        match bytes::parse_uint(data, pos, 1) {
            Ok((v, p)) => Ok((signed(v, 0x80) as i8, p)),
            Err(e) => Err(e),
        }
    }

    open spec fn encode(v: i8) -> Seq<u8> {
        bytes::le_bytes(unsigned(v as int, 0x80), 1)
    }

    open spec fn encodable(v: i8) -> bool {
        true
    }

    open spec fn one_form(v: i8) -> bool {
        true
    }

    proof fn lemma_round_trip(v: i8, data: Seq<u8>, pos: nat) {
        bytes::lemma_pow256();
        bytes::lemma_uint_round_trip(unsigned(v as int, 0x80), 1, data, pos);
    }

    proof fn lemma_truncation(data: Seq<u8>, pos: nat, n: nat) {
        bytes::lemma_uint_truncation(data, pos, n, 1);
    }

    proof fn lemma_consumed(data: Seq<u8>, pos: nat) {
        bytes::lemma_pow256();
        bytes::lemma_uint_consumed(data, pos, 1);
    }

    proof fn lemma_errors(data: Seq<u8>, pos: nat) {
    }

    proof fn lemma_local(data: Seq<u8>, other: Seq<u8>, pos: nat) {
        bytes::lemma_take_local(data, other, pos, 1);
    }
}

impl Encoded for i16 {
    open spec fn parse(data: Seq<u8>, pos: nat) -> Parsed<i16> {
        match bytes::parse_uint(data, pos, 2) {
            Ok((v, p)) => Ok((signed(v, 0x8000) as i16, p)),
            Err(e) => Err(e),
        }
    }

    open spec fn encode(v: i16) -> Seq<u8> {
        bytes::le_bytes(unsigned(v as int, 0x8000), 2)
    }

    open spec fn encodable(v: i16) -> bool {
        true
    }

    open spec fn one_form(v: i16) -> bool {
        true
    }

    proof fn lemma_round_trip(v: i16, data: Seq<u8>, pos: nat) {
        bytes::lemma_pow256();
        bytes::lemma_uint_round_trip(unsigned(v as int, 0x8000), 2, data, pos);
    }

    proof fn lemma_truncation(data: Seq<u8>, pos: nat, n: nat) {
        bytes::lemma_uint_truncation(data, pos, n, 2);
    }

    proof fn lemma_consumed(data: Seq<u8>, pos: nat) {
        bytes::lemma_pow256();
        bytes::lemma_uint_consumed(data, pos, 2);
    }

    proof fn lemma_errors(data: Seq<u8>, pos: nat) {
    }

    proof fn lemma_local(data: Seq<u8>, other: Seq<u8>, pos: nat) {
        bytes::lemma_take_local(data, other, pos, 2);
    }
}

impl Encoded for i32 {
    open spec fn parse(data: Seq<u8>, pos: nat) -> Parsed<i32> {
        match bytes::parse_uint(data, pos, 4) {
            Ok((v, p)) => Ok((signed(v, 0x8000_0000) as i32, p)),
            Err(e) => Err(e),
        }
    }

    open spec fn encode(v: i32) -> Seq<u8> {
        bytes::le_bytes(unsigned(v as int, 0x8000_0000), 4)
    }

    open spec fn encodable(v: i32) -> bool {
        true
    }

    open spec fn one_form(v: i32) -> bool {
        true
    }

    proof fn lemma_round_trip(v: i32, data: Seq<u8>, pos: nat) {
        bytes::lemma_pow256();
        bytes::lemma_uint_round_trip(unsigned(v as int, 0x8000_0000), 4, data, pos);
    }

    proof fn lemma_truncation(data: Seq<u8>, pos: nat, n: nat) {
        bytes::lemma_uint_truncation(data, pos, n, 4);
    }

    proof fn lemma_consumed(data: Seq<u8>, pos: nat) {
        bytes::lemma_pow256();
        bytes::lemma_uint_consumed(data, pos, 4);
    }

    proof fn lemma_errors(data: Seq<u8>, pos: nat) {
    }

    proof fn lemma_local(data: Seq<u8>, other: Seq<u8>, pos: nat) {
        bytes::lemma_take_local(data, other, pos, 4);
    }
}

impl Encoded for i64 {
    open spec fn parse(data: Seq<u8>, pos: nat) -> Parsed<i64> {
        match bytes::parse_uint(data, pos, 8) {
            Ok((v, p)) => Ok((signed(v, 0x8000_0000_0000_0000) as i64, p)),
            Err(e) => Err(e),
        }
    }

    open spec fn encode(v: i64) -> Seq<u8> {
        bytes::le_bytes(unsigned(v as int, 0x8000_0000_0000_0000), 8)
    }

    open spec fn encodable(v: i64) -> bool {
        true
    }

    open spec fn one_form(v: i64) -> bool {
        true
    }

    proof fn lemma_round_trip(v: i64, data: Seq<u8>, pos: nat) {
        bytes::lemma_pow256();
        bytes::lemma_uint_round_trip(unsigned(v as int, 0x8000_0000_0000_0000), 8, data, pos);
    }

    proof fn lemma_truncation(data: Seq<u8>, pos: nat, n: nat) {
        bytes::lemma_uint_truncation(data, pos, n, 8);
    }

    proof fn lemma_consumed(data: Seq<u8>, pos: nat) {
        bytes::lemma_pow256();
        bytes::lemma_uint_consumed(data, pos, 8);
    }

    proof fn lemma_errors(data: Seq<u8>, pos: nat) {
    }

    proof fn lemma_local(data: Seq<u8>, other: Seq<u8>, pos: nat) {
        bytes::lemma_take_local(data, other, pos, 8);
    }
}

/// A flag is one byte: zero for false, anything else for true. True is written
/// as one.
impl Encoded for bool {
    open spec fn parse(data: Seq<u8>, pos: nat) -> Parsed<bool> {
        match bytes::parse_uint(data, pos, 1) {
            Ok((v, p)) => Ok((v != 0, p)),
            Err(e) => Err(e),
        }
    }

    open spec fn encode(v: bool) -> Seq<u8> {
        bytes::le_bytes(if v { 1 } else { 0 }, 1)
    }

    open spec fn encodable(v: bool) -> bool {
        true
    }

    open spec fn one_form(v: bool) -> bool {
        !v
    }

    proof fn lemma_round_trip(v: bool, data: Seq<u8>, pos: nat) {
        bytes::lemma_pow256();
        bytes::lemma_uint_round_trip(if v { 1 } else { 0 }, 1, data, pos);
    }

    proof fn lemma_truncation(data: Seq<u8>, pos: nat, n: nat) {
        bytes::lemma_uint_truncation(data, pos, n, 1);
    }

    proof fn lemma_consumed(data: Seq<u8>, pos: nat) {
        bytes::lemma_pow256();
        bytes::lemma_uint_consumed(data, pos, 1);
        bytes::lemma_le_bytes_len(0, 1);
        bytes::lemma_le_bytes_len(1, 1);
    }

    proof fn lemma_errors(data: Seq<u8>, pos: nat) {
    }

    proof fn lemma_local(data: Seq<u8>, other: Seq<u8>, pos: nat) {
        bytes::lemma_take_local(data, other, pos, 1);
    }
}

/// A length or count: eight bytes, read as a signed number that must not be
/// negative.
pub open spec fn parse_length(data: Seq<u8>, pos: nat) -> Parsed<nat> {
    match i64::parse(data, pos) {
        Ok((v, p)) => if v < 0 {
            Err(GgufError::NegativeLength(v))
        } else {
            Ok((v as nat, p))
        },
        Err(e) => Err(e),
    }
}

/// The bytes of a length.
pub open spec fn encode_length(n: nat) -> Seq<u8> {
    bytes::le_bytes(n, 8)
}

/// The largest length that can be written.
pub open spec fn max_length() -> nat {
    0x7fff_ffff_ffff_ffff
}

pub proof fn lemma_length_round_trip(v: nat, data: Seq<u8>, pos: nat)
    requires
        v <= max_length(),
        bytes::stands_at(data, pos, encode_length(v)),
    ensures
        encode_length(v).len() == 8,
        parse_length(data, pos) == Ok::<(nat, nat), GgufError>((v, pos + 8)),
{
    bytes::lemma_pow256();
    bytes::lemma_uint_round_trip(v, 8, data, pos);
}

pub proof fn lemma_length_truncation(data: Seq<u8>, pos: nat, n: nat)
    requires
        pos <= n <= data.len(),
    ensures
        bytes::truncation_agrees(
            parse_length(data.take(n as int), pos),
            parse_length(data, pos),
            pos,
            n,
            data.len(),
        ),
{
    bytes::lemma_uint_truncation(data, pos, n, 8);
}

pub proof fn lemma_length_consumed(data: Seq<u8>, pos: nat)
    requires
        pos <= data.len(),
    ensures
        encode_length(0).len() == 8,
        parse_length(data, pos) matches Ok((v, end)) ==> {
            &&& v <= max_length()
            &&& encode_length(v).len() == 8
            &&& end == pos + 8
            &&& end <= data.len()
            &&& bytes::stands_at(data, pos, encode_length(v))
        },
{
    bytes::lemma_pow256();
    bytes::lemma_uint_consumed(data, pos, 8);
    bytes::lemma_le_bytes_len(0, 8);
}

/// A string is its length in bytes and then its characters in UTF-8.
impl Encoded for String {
    open spec fn parse(data: Seq<u8>, pos: nat) -> Parsed<Seq<char>> {
        match parse_length(data, pos) {
            Ok((len, p)) => match bytes::take(data, p, len) {
                Ok((b, q)) => if utf8::valid_utf8(b) {
                    Ok((utf8::decode_utf8(b), q))
                } else {
                    Err(GgufError::InvalidUtf8)
                },
                Err(e) => Err(e),
            },
            Err(e) => Err(e),
        }
    }

    open spec fn encode(v: Seq<char>) -> Seq<u8> {
        encode_length(utf8::encode_utf8(v).len()) + utf8::encode_utf8(v)
    }

    open spec fn encodable(v: Seq<char>) -> bool {
        utf8::encode_utf8(v).len() <= max_length()
    }

    open spec fn one_form(v: Seq<char>) -> bool {
        true
    }

    proof fn lemma_round_trip(v: Seq<char>, data: Seq<u8>, pos: nat) {
        let b = utf8::encode_utf8(v);
        bytes::lemma_stands_at_split(data, pos, encode_length(b.len()), b);
        lemma_length_round_trip(b.len(), data, pos);
        utf8::encode_utf8_valid_utf8(v);
        utf8::encode_utf8_decode_utf8(v);
    }

    proof fn lemma_truncation(data: Seq<u8>, pos: nat, n: nat) {
        lemma_length_truncation(data, pos, n);
        if let Ok((len, p)) = parse_length(data.take(n as int), pos) {
            bytes::lemma_take_truncation(data, p, n, len);
        }
    }

    proof fn lemma_consumed(data: Seq<u8>, pos: nat) {
        lemma_length_consumed(data, pos);
        if let Ok((len, p)) = parse_length(data, pos) {
            if let Ok((b, q)) = bytes::take(data, p, len) {
                if utf8::valid_utf8(b) {
                    utf8::decode_utf8_encode_utf8(b);
                    bytes::lemma_stands_at_join(data, pos, encode_length(len), b);
                }
            }
        }
    }

    proof fn lemma_errors(data: Seq<u8>, pos: nat) {
        lemma_length_consumed(data, pos);
    }

    proof fn lemma_local(data: Seq<u8>, other: Seq<u8>, pos: nat) {
        i64::lemma_local(data, other, pos);
        lemma_length_consumed(data, pos);
        if let Ok((len, p)) = parse_length(data, pos) {
            bytes::lemma_take_local(data, other, p, len);
        }
    }
}

} // verus!
