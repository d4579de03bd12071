//! The layout of a GGUF file.
//!
//! All numbers are little-endian.
//!
//! ```text
//! magic "GGUF" | version: u32 | n_tensors: i64 | n_kv: i64
//! n_kv metadata entries
//! n_tensors tensor records
//! padding up to the alignment | tensor data
//! ```

use vstd::prelude::*;

use crate::gguf::bytes;
use crate::gguf::bytes::Parsed;
use crate::gguf::error::GgufError;
use crate::gguf::field;
use crate::gguf::field::Encoded;
use crate::gguf::value::{Array, ArrayView, Value, ValueView};

verus! {

/// The result of a read with the value put through `f`.
pub open spec fn map_parsed<V, W>(r: Parsed<V>, f: spec_fn(V) -> W) -> Parsed<W> {
    match r {
        Ok((v, p)) => Ok((f(v), p)),
        Err(e) => Err(e),
    }
}

/// `n` fields of one kind, one behind the other.
pub open spec fn parse_n<E: Encoded>(data: Seq<u8>, pos: nat, n: nat) -> Parsed<Seq<E::V>>
    decreases n,
{
    if n == 0 {
        Ok((Seq::empty(), pos))
    } else {
        match parse_n::<E>(data, pos, (n - 1) as nat) {
            Ok((vs, p)) => match E::parse(data, p) {
                Ok((v, q)) => Ok((vs.push(v), q)),
                Err(e) => Err(e),
            },
            Err(e) => Err(e),
        }
    }
}

/// The bytes of fields of one kind, one behind the other.
pub open spec fn encode_all<E: Encoded>(vs: Seq<E::V>) -> Seq<u8>
    decreases vs.len(),
{
    if vs.len() == 0 {
        Seq::empty()
    } else {
        encode_all::<E>(vs.drop_last()) + E::encode(vs.last())
    }
}

/// Each of the values can be written.
pub open spec fn all_encodable<E: Encoded>(vs: Seq<E::V>) -> bool {
    forall|i: int| 0 <= i < vs.len() ==> E::encodable(#[trigger] vs[i])
}

/// Each of the values has one form only.
pub open spec fn all_one_form<E: Encoded>(vs: Seq<E::V>) -> bool {
    forall|i: int| 0 <= i < vs.len() ==> E::one_form(#[trigger] vs[i])
}

/// The code of a type of metadata value.
pub open spec fn value_code(v: ValueView) -> u32 {
    match v {
        ValueView::U8(_) => 0,
        ValueView::I8(_) => 1,
        ValueView::U16(_) => 2,
        ValueView::I16(_) => 3,
        ValueView::U32(_) => 4,
        ValueView::I32(_) => 5,
        ValueView::F32(_) => 6,
        ValueView::Bool(_) => 7,
        ValueView::String(_) => 8,
        ValueView::U64(_) => 10,
        ValueView::I64(_) => 11,
        ValueView::F64(_) => 12,
        ValueView::Array(_) => 9,
    }
}

/// The code of the element type of an array.
pub open spec fn element_code(a: ArrayView) -> u32 {
    match a {
        ArrayView::U8(_) => 0,
        ArrayView::I8(_) => 1,
        ArrayView::U16(_) => 2,
        ArrayView::I16(_) => 3,
        ArrayView::U32(_) => 4,
        ArrayView::I32(_) => 5,
        ArrayView::F32(_) => 6,
        ArrayView::Bool(_) => 7,
        ArrayView::String(_) => 8,
        ArrayView::U64(_) => 10,
        ArrayView::I64(_) => 11,
        ArrayView::F64(_) => 12,
    }
}

/// The `n` elements of an array whose element type has the code `ty`.
pub open spec fn parse_elements(ty: u32, data: Seq<u8>, pos: nat, n: nat) -> Parsed<ArrayView> {
    match ty {
        0 => map_parsed(parse_n::<u8>(data, pos, n), |v: Seq<u8>| ArrayView::U8(v)),
        1 => map_parsed(parse_n::<i8>(data, pos, n), |v: Seq<i8>| ArrayView::I8(v)),
        2 => map_parsed(parse_n::<u16>(data, pos, n), |v: Seq<u16>| ArrayView::U16(v)),
        3 => map_parsed(parse_n::<i16>(data, pos, n), |v: Seq<i16>| ArrayView::I16(v)),
        4 => map_parsed(parse_n::<u32>(data, pos, n), |v: Seq<u32>| ArrayView::U32(v)),
        5 => map_parsed(parse_n::<i32>(data, pos, n), |v: Seq<i32>| ArrayView::I32(v)),
        6 => map_parsed(parse_n::<u32>(data, pos, n), |v: Seq<u32>| ArrayView::F32(v)),
        7 => map_parsed(parse_n::<bool>(data, pos, n), |v: Seq<bool>| ArrayView::Bool(v)),
        8 => map_parsed(parse_n::<String>(data, pos, n), |v: Seq<Seq<char>>| ArrayView::String(v)),
        10 => map_parsed(parse_n::<u64>(data, pos, n), |v: Seq<u64>| ArrayView::U64(v)),
        11 => map_parsed(parse_n::<i64>(data, pos, n), |v: Seq<i64>| ArrayView::I64(v)),
        12 => map_parsed(parse_n::<u64>(data, pos, n), |v: Seq<u64>| ArrayView::F64(v)),
        9 => Err(GgufError::NestedArray),
        _ => Err(GgufError::UnknownValueType(ty)),
    }
}

/// The bytes of the elements of an array.
pub open spec fn encode_elements(a: ArrayView) -> Seq<u8> {
    match a {
        ArrayView::U8(v) => encode_all::<u8>(v),
        ArrayView::I8(v) => encode_all::<i8>(v),
        ArrayView::U16(v) => encode_all::<u16>(v),
        ArrayView::I16(v) => encode_all::<i16>(v),
        ArrayView::U32(v) => encode_all::<u32>(v),
        ArrayView::I32(v) => encode_all::<i32>(v),
        ArrayView::F32(v) => encode_all::<u32>(v),
        ArrayView::Bool(v) => encode_all::<bool>(v),
        ArrayView::String(v) => encode_all::<String>(v),
        ArrayView::U64(v) => encode_all::<u64>(v),
        ArrayView::I64(v) => encode_all::<i64>(v),
        ArrayView::F64(v) => encode_all::<u64>(v),
    }
}

/// An array is the code of its element type, the number of its elements, and
/// the elements.
impl Encoded for Array {
    open spec fn parse(data: Seq<u8>, pos: nat) -> Parsed<ArrayView> {
        match u32::parse(data, pos) {
            Ok((ty, p)) => match field::parse_length(data, p) {
                Ok((n, q)) => parse_elements(ty, data, q, n),
                Err(e) => Err(e),
            },
            Err(e) => Err(e),
        }
    }

    open spec fn encode(v: ArrayView) -> Seq<u8> {
        u32::encode(element_code(v)) + (field::encode_length(v.count()) + encode_elements(v))
    }

    open spec fn encodable(v: ArrayView) -> bool {
        &&& v.count() <= field::max_length()
        &&& match v {
            ArrayView::String(s) => all_encodable::<String>(s),
            _ => true,
        }
    }

    open spec fn one_form(v: ArrayView) -> bool {
        match v {
            ArrayView::Bool(s) => all_one_form::<bool>(s),
            _ => true,
        }
    }

    proof fn lemma_round_trip(v: ArrayView, data: Seq<u8>, pos: nat) {
        let ty = element_code(v);
        let head = u32::encode(ty);
        let count = field::encode_length(v.count());
        bytes::lemma_stands_at_split(data, pos, head, count + encode_elements(v));
        bytes::lemma_stands_at_split(data, pos + head.len(), count, encode_elements(v));
        u32::lemma_round_trip(ty, data, pos);
        field::lemma_length_round_trip(v.count(), data, pos + head.len());
        let p = pos + head.len() + count.len();
        match v {
            ArrayView::U8(s) => lemma_all_round_trip::<u8>(s, data, p),
            ArrayView::I8(s) => lemma_all_round_trip::<i8>(s, data, p),
            ArrayView::U16(s) => lemma_all_round_trip::<u16>(s, data, p),
            ArrayView::I16(s) => lemma_all_round_trip::<i16>(s, data, p),
            ArrayView::U32(s) => lemma_all_round_trip::<u32>(s, data, p),
            ArrayView::I32(s) => lemma_all_round_trip::<i32>(s, data, p),
            ArrayView::F32(s) => lemma_all_round_trip::<u32>(s, data, p),
            ArrayView::Bool(s) => lemma_all_round_trip::<bool>(s, data, p),
            ArrayView::String(s) => lemma_all_round_trip::<String>(s, data, p),
            ArrayView::U64(s) => lemma_all_round_trip::<u64>(s, data, p),
            ArrayView::I64(s) => lemma_all_round_trip::<i64>(s, data, p),
            ArrayView::F64(s) => lemma_all_round_trip::<u64>(s, data, p),
        }
    }

    proof fn lemma_truncation(data: Seq<u8>, pos: nat, n: nat) {
        u32::lemma_truncation(data, pos, n);
        if let Ok((ty, p)) = u32::parse(data, pos) {
            let m = bytes::cut_behind(data, p, n);
            field::lemma_length_truncation(data, p, m);
            if let Ok((k, q)) = field::parse_length(data, p) {
                lemma_elements_truncation(ty, data, q, bytes::cut_behind(data, q, m), k);
            }
        }
    }

    proof fn lemma_consumed(data: Seq<u8>, pos: nat) {
        u32::lemma_consumed(data, pos);
        if let Ok((ty, p)) = u32::parse(data, pos) {
            field::lemma_length_consumed(data, p);
            if let Ok((k, q)) = field::parse_length(data, p) {
                lemma_n_consumed::<u8>(data, q, k);
                lemma_n_consumed::<i8>(data, q, k);
                lemma_n_consumed::<u16>(data, q, k);
                lemma_n_consumed::<i16>(data, q, k);
                lemma_n_consumed::<u32>(data, q, k);
                lemma_n_consumed::<i32>(data, q, k);
                lemma_n_consumed::<bool>(data, q, k);
                lemma_n_consumed::<String>(data, q, k);
                lemma_n_consumed::<u64>(data, q, k);
                lemma_n_consumed::<i64>(data, q, k);
                if let Ok((a, end)) = parse_elements(ty, data, q, k) {
                    if Self::one_form(a) {
                        let count = field::encode_length(k);
                        bytes::lemma_stands_at_join(data, p, count, encode_elements(a));
                        bytes::lemma_stands_at_join(
                            data,
                            pos,
                            u32::encode(ty),
                            count + encode_elements(a),
                        );
                    }
                }
            }
        }
    }

    proof fn lemma_errors(data: Seq<u8>, pos: nat) {
        u32::lemma_errors(data, pos);
        u32::lemma_consumed(data, pos);
        if let Ok((ty, p)) = u32::parse(data, pos) {
            i64::lemma_errors(data, p);
            field::lemma_length_consumed(data, p);
            if let Ok((n, q)) = field::parse_length(data, p) {
                lemma_n_errors::<u8>(data, q, n);
                lemma_n_errors::<i8>(data, q, n);
                lemma_n_errors::<u16>(data, q, n);
                lemma_n_errors::<i16>(data, q, n);
                lemma_n_errors::<u32>(data, q, n);
                lemma_n_errors::<i32>(data, q, n);
                lemma_n_errors::<bool>(data, q, n);
                lemma_n_errors::<String>(data, q, n);
                lemma_n_errors::<u64>(data, q, n);
                lemma_n_errors::<i64>(data, q, n);
            }
        }
    }

    proof fn lemma_local(data: Seq<u8>, other: Seq<u8>, pos: nat) {
        u32::lemma_local(data, other, pos);
        u32::lemma_consumed(data, pos);
        if let Ok((ty, p)) = u32::parse(data, pos) {
            i64::lemma_local(data, other, p);
            field::lemma_length_consumed(data, p);
            if let Ok((k, q)) = field::parse_length(data, p) {
                lemma_elements_local(ty, data, other, q, k);
            }
        }
    }
}

/// The value with the type code `ty`.
pub open spec fn parse_value(ty: u32, data: Seq<u8>, pos: nat) -> Parsed<ValueView> {
    match ty {
        0 => map_parsed(u8::parse(data, pos), |v: u8| ValueView::U8(v)),
        1 => map_parsed(i8::parse(data, pos), |v: i8| ValueView::I8(v)),
        2 => map_parsed(u16::parse(data, pos), |v: u16| ValueView::U16(v)),
        3 => map_parsed(i16::parse(data, pos), |v: i16| ValueView::I16(v)),
        4 => map_parsed(u32::parse(data, pos), |v: u32| ValueView::U32(v)),
        5 => map_parsed(i32::parse(data, pos), |v: i32| ValueView::I32(v)),
        6 => map_parsed(u32::parse(data, pos), |v: u32| ValueView::F32(v)),
        7 => map_parsed(bool::parse(data, pos), |v: bool| ValueView::Bool(v)),
        8 => map_parsed(String::parse(data, pos), |v: Seq<char>| ValueView::String(v)),
        10 => map_parsed(u64::parse(data, pos), |v: u64| ValueView::U64(v)),
        11 => map_parsed(i64::parse(data, pos), |v: i64| ValueView::I64(v)),
        12 => map_parsed(u64::parse(data, pos), |v: u64| ValueView::F64(v)),
        9 => map_parsed(Array::parse(data, pos), |v: ArrayView| ValueView::Array(v)),
        _ => Err(GgufError::UnknownValueType(ty)),
    }
}

/// The bytes of a value, without its type code.
pub open spec fn encode_value(v: ValueView) -> Seq<u8> {
    match v {
        ValueView::U8(x) => u8::encode(x),
        ValueView::I8(x) => i8::encode(x),
        ValueView::U16(x) => u16::encode(x),
        ValueView::I16(x) => i16::encode(x),
        ValueView::U32(x) => u32::encode(x),
        ValueView::I32(x) => i32::encode(x),
        ValueView::F32(x) => u32::encode(x),
        ValueView::Bool(x) => bool::encode(x),
        ValueView::String(x) => String::encode(x),
        ValueView::U64(x) => u64::encode(x),
        ValueView::I64(x) => i64::encode(x),
        ValueView::F64(x) => u64::encode(x),
        ValueView::Array(x) => Array::encode(x),
    }
}

/// The value can be written.
pub open spec fn value_encodable(v: ValueView) -> bool {
    match v {
        ValueView::String(x) => String::encodable(x),
        ValueView::Array(x) => Array::encodable(x),
        _ => true,
    }
}

/// No bytes but those of `encode_value` are read as this value.
pub open spec fn value_one_form(v: ValueView) -> bool {
    match v {
        ValueView::Bool(x) => bool::one_form(x),
        ValueView::Array(x) => Array::one_form(x),
        _ => true,
    }
}

/// A metadata entry is its key, the type code of its value, and the value.
impl Encoded for (String, Value) {
    open spec fn parse(data: Seq<u8>, pos: nat) -> Parsed<(Seq<char>, ValueView)> {
        match String::parse(data, pos) {
            Ok((key, p)) => match u32::parse(data, p) {
                Ok((ty, q)) => map_parsed(parse_value(ty, data, q), |v: ValueView| (key, v)),
                Err(e) => Err(e),
            },
            Err(e) => Err(e),
        }
    }

    open spec fn encode(v: (Seq<char>, ValueView)) -> Seq<u8> {
        String::encode(v.0) + (u32::encode(value_code(v.1)) + encode_value(v.1))
    }

    open spec fn encodable(v: (Seq<char>, ValueView)) -> bool {
        String::encodable(v.0) && value_encodable(v.1)
    }

    open spec fn one_form(v: (Seq<char>, ValueView)) -> bool {
        value_one_form(v.1)
    }

    proof fn lemma_round_trip(v: (Seq<char>, ValueView), data: Seq<u8>, pos: nat) {
        let key = String::encode(v.0);
        let ty = u32::encode(value_code(v.1));
        bytes::lemma_stands_at_split(data, pos, key, ty + encode_value(v.1));
        bytes::lemma_stands_at_split(data, pos + key.len(), ty, encode_value(v.1));
        String::lemma_round_trip(v.0, data, pos);
        u32::lemma_round_trip(value_code(v.1), data, pos + key.len());
        let p = pos + key.len() + ty.len();
        match v.1 {
            ValueView::U8(x) => u8::lemma_round_trip(x, data, p),
            ValueView::I8(x) => i8::lemma_round_trip(x, data, p),
            ValueView::U16(x) => u16::lemma_round_trip(x, data, p),
            ValueView::I16(x) => i16::lemma_round_trip(x, data, p),
            ValueView::U32(x) => u32::lemma_round_trip(x, data, p),
            ValueView::I32(x) => i32::lemma_round_trip(x, data, p),
            ValueView::F32(x) => u32::lemma_round_trip(x, data, p),
            ValueView::Bool(x) => bool::lemma_round_trip(x, data, p),
            ValueView::String(x) => String::lemma_round_trip(x, data, p),
            ValueView::U64(x) => u64::lemma_round_trip(x, data, p),
            ValueView::I64(x) => i64::lemma_round_trip(x, data, p),
            ValueView::F64(x) => u64::lemma_round_trip(x, data, p),
            ValueView::Array(x) => Array::lemma_round_trip(x, data, p),
        }
    }

    proof fn lemma_truncation(data: Seq<u8>, pos: nat, n: nat) {
        String::lemma_truncation(data, pos, n);
        if let Ok((key, p)) = String::parse(data, pos) {
            let m = bytes::cut_behind(data, p, n);
            u32::lemma_truncation(data, p, m);
            if let Ok((ty, q)) = u32::parse(data, p) {
                lemma_value_truncation(ty, data, q, bytes::cut_behind(data, q, m));
            }
        }
    }

    proof fn lemma_consumed(data: Seq<u8>, pos: nat) {
        String::lemma_consumed(data, pos);
        if let Ok((key, p)) = String::parse(data, pos) {
            u32::lemma_consumed(data, p);
            if let Ok((ty, q)) = u32::parse(data, p) {
                u8::lemma_consumed(data, q);
                i8::lemma_consumed(data, q);
                u16::lemma_consumed(data, q);
                i16::lemma_consumed(data, q);
                u32::lemma_consumed(data, q);
                i32::lemma_consumed(data, q);
                bool::lemma_consumed(data, q);
                String::lemma_consumed(data, q);
                u64::lemma_consumed(data, q);
                i64::lemma_consumed(data, q);
                Array::lemma_consumed(data, q);
                if let Ok((v, end)) = parse_value(ty, data, q) {
                    assert(value_code(v) == ty);
                    if value_one_form(v) {
                        bytes::lemma_stands_at_join(data, p, u32::encode(ty), encode_value(v));
                        bytes::lemma_stands_at_join(
                            data,
                            pos,
                            String::encode(key),
                            u32::encode(ty) + encode_value(v),
                        );
                    }
                }
            }
        }
    }

    proof fn lemma_errors(data: Seq<u8>, pos: nat) {
        String::lemma_errors(data, pos);
        String::lemma_consumed(data, pos);
        if let Ok((key, p)) = String::parse(data, pos) {
            u32::lemma_errors(data, p);
            u32::lemma_consumed(data, p);
            if let Ok((ty, q)) = u32::parse(data, p) {
                String::lemma_errors(data, q);
                Array::lemma_errors(data, q);
            }
        }
    }

    proof fn lemma_local(data: Seq<u8>, other: Seq<u8>, pos: nat) {
        String::lemma_local(data, other, pos);
        String::lemma_consumed(data, pos);
        if let Ok((key, p)) = String::parse(data, pos) {
            u32::lemma_local(data, other, p);
            u32::lemma_consumed(data, p);
            if let Ok((ty, q)) = u32::parse(data, p) {
                lemma_value_local(ty, data, other, q);
            }
        }
    }
}

proof fn lemma_elements_truncation(ty: u32, data: Seq<u8>, pos: nat, n: nat, k: nat)
    requires
        pos <= n <= data.len(),
    ensures
        bytes::truncation_agrees(
            parse_elements(ty, data.take(n as int), pos, k),
            parse_elements(ty, data, pos, k),
            pos,
            n,
            data.len(),
        ),
{
    if ty == 0 {
        lemma_n_truncation::<u8>(data, pos, n, k);
    } else if ty == 1 {
        lemma_n_truncation::<i8>(data, pos, n, k);
    } else if ty == 2 {
        lemma_n_truncation::<u16>(data, pos, n, k);
    } else if ty == 3 {
        lemma_n_truncation::<i16>(data, pos, n, k);
    } else if ty == 4 || ty == 6 {
        lemma_n_truncation::<u32>(data, pos, n, k);
    } else if ty == 5 {
        lemma_n_truncation::<i32>(data, pos, n, k);
    } else if ty == 7 {
        lemma_n_truncation::<bool>(data, pos, n, k);
    } else if ty == 8 {
        lemma_n_truncation::<String>(data, pos, n, k);
    } else if ty == 10 || ty == 12 {
        lemma_n_truncation::<u64>(data, pos, n, k);
    } else if ty == 11 {
        lemma_n_truncation::<i64>(data, pos, n, k);
    }
}

proof fn lemma_value_truncation(ty: u32, data: Seq<u8>, pos: nat, n: nat)
    requires
        pos <= n <= data.len(),
    ensures
        bytes::truncation_agrees(
            parse_value(ty, data.take(n as int), pos),
            parse_value(ty, data, pos),
            pos,
            n,
            data.len(),
        ),
{
    if ty == 0 {
        u8::lemma_truncation(data, pos, n);
    } else if ty == 1 {
        i8::lemma_truncation(data, pos, n);
    } else if ty == 2 {
        u16::lemma_truncation(data, pos, n);
    } else if ty == 3 {
        i16::lemma_truncation(data, pos, n);
    } else if ty == 4 || ty == 6 {
        u32::lemma_truncation(data, pos, n);
    } else if ty == 5 {
        i32::lemma_truncation(data, pos, n);
    } else if ty == 7 {
        bool::lemma_truncation(data, pos, n);
    } else if ty == 8 {
        String::lemma_truncation(data, pos, n);
    } else if ty == 10 || ty == 12 {
        u64::lemma_truncation(data, pos, n);
    } else if ty == 11 {
        i64::lemma_truncation(data, pos, n);
    } else if ty == 9 {
        Array::lemma_truncation(data, pos, n);
    }
}

proof fn lemma_elements_local(ty: u32, data: Seq<u8>, other: Seq<u8>, pos: nat, k: nat)
    requires
        pos <= data.len(),
        bytes::same_behind(data, other, pos),
    ensures
        parse_elements(ty, data, pos, k) == parse_elements(ty, other, pos, k),
{
    if ty == 0 {
        lemma_n_local::<u8>(data, other, pos, k);
    } else if ty == 1 {
        lemma_n_local::<i8>(data, other, pos, k);
    } else if ty == 2 {
        lemma_n_local::<u16>(data, other, pos, k);
    } else if ty == 3 {
        lemma_n_local::<i16>(data, other, pos, k);
    } else if ty == 4 || ty == 6 {
        lemma_n_local::<u32>(data, other, pos, k);
    } else if ty == 5 {
        lemma_n_local::<i32>(data, other, pos, k);
    } else if ty == 7 {
        lemma_n_local::<bool>(data, other, pos, k);
    } else if ty == 8 {
        lemma_n_local::<String>(data, other, pos, k);
    } else if ty == 10 || ty == 12 {
        lemma_n_local::<u64>(data, other, pos, k);
    } else if ty == 11 {
        lemma_n_local::<i64>(data, other, pos, k);
    }
}

proof fn lemma_value_local(ty: u32, data: Seq<u8>, other: Seq<u8>, pos: nat)
    requires
        pos <= data.len(),
        bytes::same_behind(data, other, pos),
    ensures
        parse_value(ty, data, pos) == parse_value(ty, other, pos),
{
    if ty == 0 {
        u8::lemma_local(data, other, pos);
    } else if ty == 1 {
        i8::lemma_local(data, other, pos);
    } else if ty == 2 {
        u16::lemma_local(data, other, pos);
    } else if ty == 3 {
        i16::lemma_local(data, other, pos);
    } else if ty == 4 || ty == 6 {
        u32::lemma_local(data, other, pos);
    } else if ty == 5 {
        i32::lemma_local(data, other, pos);
    } else if ty == 7 {
        bool::lemma_local(data, other, pos);
    } else if ty == 8 {
        String::lemma_local(data, other, pos);
    } else if ty == 10 || ty == 12 {
        u64::lemma_local(data, other, pos);
    } else if ty == 11 {
        i64::lemma_local(data, other, pos);
    } else if ty == 9 {
        Array::lemma_local(data, other, pos);
    }
}

pub proof fn lemma_all_round_trip<E: Encoded>(vs: Seq<E::V>, data: Seq<u8>, pos: nat)
    requires
        all_encodable::<E>(vs),
        bytes::stands_at(data, pos, encode_all::<E>(vs)),
    ensures
        parse_n::<E>(data, pos, vs.len()) == Ok::<(Seq<E::V>, nat), GgufError>(
            (vs, pos + encode_all::<E>(vs).len()),
        ),
    decreases vs.len(),
{
    if vs.len() > 0 {
        let front = vs.drop_last();
        let a = encode_all::<E>(front);
        let b = E::encode(vs.last());
        bytes::lemma_stands_at_split(data, pos, a, b);
        assert forall|i: int| 0 <= i < front.len() implies E::encodable(#[trigger] front[i]) by {
            assert(front[i] == vs[i]);
        }
        lemma_all_round_trip::<E>(front, data, pos);
        E::lemma_round_trip(vs.last(), data, pos + a.len());
        assert(front.push(vs.last()) =~= vs);
    } else {
        assert(vs =~= Seq::empty());
    }
}

/// Where the first `k` fields cannot be read, neither can more of them.
pub proof fn lemma_n_fails<E: Encoded>(data: Seq<u8>, pos: nat, k: nat, n: nat)
    requires
        k <= n,
        parse_n::<E>(data, pos, k) is Err,
    ensures
        parse_n::<E>(data, pos, n) == parse_n::<E>(data, pos, k),
    decreases n,
{
    if k < n {
        lemma_n_fails::<E>(data, pos, k, (n - 1) as nat);
    }
}

pub proof fn lemma_n_truncation<E: Encoded>(data: Seq<u8>, pos: nat, n: nat, k: nat)
    requires
        pos <= n <= data.len(),
    ensures
        bytes::truncation_agrees(
            parse_n::<E>(data.take(n as int), pos, k),
            parse_n::<E>(data, pos, k),
            pos,
            n,
            data.len(),
        ),
    decreases k,
{
    if k > 0 {
        lemma_n_truncation::<E>(data, pos, n, (k - 1) as nat);
        if let Ok((vs, p)) = parse_n::<E>(data, pos, (k - 1) as nat) {
            E::lemma_truncation(data, p, bytes::cut_behind(data, p, n));
        }
    }
}

pub proof fn lemma_n_errors<E: Encoded>(data: Seq<u8>, pos: nat, k: nat)
    requires
        pos <= data.len(),
    ensures
        parse_n::<E>(data, pos, k) matches Err(e) ==> bytes::is_field_error(e, data.len()),
    decreases k,
{
    if k > 0 {
        lemma_n_errors::<E>(data, pos, (k - 1) as nat);
        lemma_n_consumed::<E>(data, pos, (k - 1) as nat);
        if let Ok((vs, p)) = parse_n::<E>(data, pos, (k - 1) as nat) {
            E::lemma_errors(data, p);
        }
    }
}

pub proof fn lemma_n_local<E: Encoded>(data: Seq<u8>, other: Seq<u8>, pos: nat, k: nat)
    requires
        pos <= data.len(),
        bytes::same_behind(data, other, pos),
    ensures
        parse_n::<E>(data, pos, k) == parse_n::<E>(other, pos, k),
    decreases k,
{
    if k > 0 {
        lemma_n_local::<E>(data, other, pos, (k - 1) as nat);
        lemma_n_consumed::<E>(data, pos, (k - 1) as nat);
        if let Ok((vs, p)) = parse_n::<E>(data, pos, (k - 1) as nat) {
            E::lemma_local(data, other, p);
        }
    }
}

pub proof fn lemma_n_consumed<E: Encoded>(data: Seq<u8>, pos: nat, k: nat)
    requires
        pos <= data.len(),
    ensures
        parse_n::<E>(data, pos, k) matches Ok((vs, end)) ==> {
            &&& vs.len() == k
            &&& all_encodable::<E>(vs)
            &&& end == pos + encode_all::<E>(vs).len()
            &&& end <= data.len()
            &&& all_one_form::<E>(vs) ==> bytes::stands_at(data, pos, encode_all::<E>(vs))
        },
    decreases k,
{
    if k > 0 {
        lemma_n_consumed::<E>(data, pos, (k - 1) as nat);
        if let Ok((front, p)) = parse_n::<E>(data, pos, (k - 1) as nat) {
            E::lemma_consumed(data, p);
            if let Ok((v, end)) = E::parse(data, p) {
                let vs = front.push(v);
                assert(vs.drop_last() =~= front);
                if all_one_form::<E>(vs) {
                    assert forall|i: int| 0 <= i < front.len() implies E::one_form(
                        #[trigger] front[i],
                    ) by {
                        assert(vs[i] == front[i]);
                    }
                    assert(vs[vs.len() - 1] == v);
                    bytes::lemma_stands_at_join(
                        data,
                        pos,
                        encode_all::<E>(front),
                        E::encode(v),
                    );
                }
            }
        }
    } else {
        assert(data.subrange(pos as int, pos as int) =~= Seq::empty());
    }
}

} // verus!
