//! Laws of the layout: which bytes stand for what, number by number.

use vstd::prelude::*;
use vstd::utf8;

use crate::gguf::bytes;
use crate::gguf::error::GgufError;
use crate::gguf::field::Encoded;
use crate::gguf::grammar;
use crate::gguf::header;
use crate::gguf::header::{
    Extent, FileView, HeaderView, GGUF_DEFAULT_ALIGNMENT, GGUF_KEY_ALIGNMENT, GGUF_MAGIC,
    GGUF_VERSION, GGUF_VERSION_MIN,
};
use crate::gguf::tensor::{TensorInfo, TensorView};
use crate::gguf::value::{Array, ArrayView, Value, ValueView};
use crate::types;
use crate::types::{GgmlType, GGML_MAX_DIMS};

verus! {

/// The fixed numbers and texts of the format.
pub proof fn law_constants()
    ensures
        GGUF_MAGIC@ == seq![0x47u8, 0x47u8, 0x55u8, 0x46u8],
        GGUF_VERSION == 3,
        GGUF_VERSION_MIN == 2,
        GGUF_DEFAULT_ALIGNMENT == 32,
        GGUF_KEY_ALIGNMENT@ == "general.alignment"@,
        GGML_MAX_DIMS == 4,
{
    assert(GGUF_MAGIC@ =~= seq![0x47u8, 0x47u8, 0x55u8, 0x46u8]);
}

/// Unsigned numbers are little-endian, one, two, four or eight bytes wide.
pub proof fn law_unsigned_numbers(data: Seq<u8>, pos: nat)
    requires
        pos <= data.len(),
    ensures
        ({
            let at = pos as int;
            let number = data[at];
            u8::parse(data, pos) == if pos + 1 <= data.len() {
                Ok::<(u8, nat), GgufError>((number as u8, pos + 1))
            } else {
                Err(
                    GgufError::UnexpectedEof {
                        needed: 1,
                        available: (data.len() - pos) as usize,
                    },
                )
            }
        }),
        ({
            let at = pos as int;
            let number = data[at] + 0x100 * data[at + 1];
            u16::parse(data, pos) == if pos + 2 <= data.len() {
                Ok::<(u16, nat), GgufError>((number as u16, pos + 2))
            } else {
                Err(
                    GgufError::UnexpectedEof {
                        needed: 2,
                        available: (data.len() - pos) as usize,
                    },
                )
            }
        }),
        ({
            let at = pos as int;
            let number = data[at] + 0x100 * data[at + 1] + 0x1_0000 * data[at + 2]
                + 0x100_0000 * data[at + 3];
            u32::parse(data, pos) == if pos + 4 <= data.len() {
                Ok::<(u32, nat), GgufError>((number as u32, pos + 4))
            } else {
                Err(
                    GgufError::UnexpectedEof {
                        needed: 4,
                        available: (data.len() - pos) as usize,
                    },
                )
            }
        }),
        ({
            let at = pos as int;
            let number = data[at] + 0x100 * data[at + 1] + 0x1_0000 * data[at + 2]
                + 0x100_0000 * data[at + 3] + 0x1_0000_0000 * data[at + 4] + 0x100_0000_0000 * data[at + 5]
                + 0x1_0000_0000_0000 * data[at + 6] + 0x100_0000_0000_0000 * data[at + 7];
            u64::parse(data, pos) == if pos + 8 <= data.len() {
                Ok::<(u64, nat), GgufError>((number as u64, pos + 8))
            } else {
                Err(
                    GgufError::UnexpectedEof {
                        needed: 8,
                        available: (data.len() - pos) as usize,
                    },
                )
            }
        }),
{
    bytes::lemma_pow256();
    bytes::lemma_uint_consumed(data, pos, 1);
    if pos + 1 <= data.len() {
        bytes::lemma_le_value_spelled_out(data.subrange(pos as int, (pos + 1) as int));
    }
    bytes::lemma_uint_consumed(data, pos, 2);
    if pos + 2 <= data.len() {
        bytes::lemma_le_value_spelled_out(data.subrange(pos as int, (pos + 2) as int));
    }
    bytes::lemma_uint_consumed(data, pos, 4);
    if pos + 4 <= data.len() {
        bytes::lemma_le_value_spelled_out(data.subrange(pos as int, (pos + 4) as int));
    }
    bytes::lemma_uint_consumed(data, pos, 8);
    if pos + 8 <= data.len() {
        bytes::lemma_le_value_spelled_out(data.subrange(pos as int, (pos + 8) as int));
    }
}

/// Signed numbers are the unsigned ones of their width in two's complement, and a
/// flag is a byte other than zero.
pub proof fn law_signed_numbers(data: Seq<u8>, pos: nat)
    requires
        pos <= data.len(),
    ensures
        i8::parse(data, pos) == match u8::parse(data, pos) {
            Ok((v, p)) => Ok::<(i8, nat), GgufError>(
                (if v < 0x80 {
                    v as i8
                } else {
                    (v - 0x100) as i8
                }, p),
            ),
            Err(e) => Err(e),
        },
        i16::parse(data, pos) == match u16::parse(data, pos) {
            Ok((v, p)) => Ok::<(i16, nat), GgufError>(
                (if v < 0x8000 {
                    v as i16
                } else {
                    (v - 0x10000) as i16
                }, p),
            ),
            Err(e) => Err(e),
        },
        i32::parse(data, pos) == match u32::parse(data, pos) {
            Ok((v, p)) => Ok::<(i32, nat), GgufError>(
                (if v < 0x80000000 {
                    v as i32
                } else {
                    (v - 0x100000000) as i32
                }, p),
            ),
            Err(e) => Err(e),
        },
        i64::parse(data, pos) == match u64::parse(data, pos) {
            Ok((v, p)) => Ok::<(i64, nat), GgufError>(
                (if v < 0x8000000000000000 {
                    v as i64
                } else {
                    (v - 0x10000000000000000) as i64
                }, p),
            ),
            Err(e) => Err(e),
        },
        bool::parse(data, pos) == match u8::parse(data, pos) {
            Ok((v, p)) => Ok::<(bool, nat), GgufError>((v != 0, p)),
            Err(e) => Err(e),
        },
{
    bytes::lemma_pow256();
    bytes::lemma_uint_consumed(data, pos, 1);
    bytes::lemma_uint_consumed(data, pos, 2);
    bytes::lemma_uint_consumed(data, pos, 4);
    bytes::lemma_uint_consumed(data, pos, 8);
}

/// Text is its length in bytes, eight bytes wide and not negative, and as many
/// bytes of UTF-8.
pub proof fn law_text(data: Seq<u8>, pos: nat)
    requires
        pos <= data.len(),
    ensures
        String::parse(data, pos) == match i64::parse(data, pos) {
            Ok((n, p)) => if n < 0 {
                Err::<(Seq<char>, nat), GgufError>(GgufError::NegativeLength(n))
            } else if p + n > data.len() {
                Err(
                    GgufError::UnexpectedEof {
                        needed: if n <= usize::MAX {
                            n as usize
                        } else {
                            usize::MAX
                        },
                        available: (data.len() - p) as usize,
                    },
                )
            } else if utf8::valid_utf8(data.subrange(p as int, p + n)) {
                Ok((utf8::decode_utf8(data.subrange(p as int, p + n)), (p + n) as nat))
            } else {
                Err(GgufError::InvalidUtf8)
            },
            Err(e) => Err(e),
        },
{
}

/// Fields of one kind follow each other without a gap.
pub proof fn law_fields_in_a_row<E: Encoded>(data: Seq<u8>, pos: nat, n: nat)
    ensures
        grammar::parse_n::<E>(data, pos, 0) == Ok::<(Seq<E::V>, nat), GgufError>(
            (Seq::empty(), pos),
        ),
        grammar::parse_n::<E>(data, pos, n + 1) == match grammar::parse_n::<E>(data, pos, n) {
            Ok((vs, p)) => match E::parse(data, p) {
                Ok((v, q)) => Ok::<(Seq<E::V>, nat), GgufError>((vs.push(v), q)),
                Err(e) => Err(e),
            },
            Err(e) => Err(e),
        },
{
}

/// Which type each code of a metadata value stands for.
pub proof fn law_values(ty: u32, data: Seq<u8>, pos: nat)
    ensures
        ty == 0 ==> grammar::parse_value(ty, data, pos) == match u8::parse(data, pos) {
            Ok((v, p)) => Ok::<(ValueView, nat), GgufError>((ValueView::U8(v), p)),
            Err(e) => Err(e),
        },
        ty == 1 ==> grammar::parse_value(ty, data, pos) == match i8::parse(data, pos) {
            Ok((v, p)) => Ok::<(ValueView, nat), GgufError>((ValueView::I8(v), p)),
            Err(e) => Err(e),
        },
        ty == 2 ==> grammar::parse_value(ty, data, pos) == match u16::parse(data, pos) {
            Ok((v, p)) => Ok::<(ValueView, nat), GgufError>((ValueView::U16(v), p)),
            Err(e) => Err(e),
        },
        ty == 3 ==> grammar::parse_value(ty, data, pos) == match i16::parse(data, pos) {
            Ok((v, p)) => Ok::<(ValueView, nat), GgufError>((ValueView::I16(v), p)),
            Err(e) => Err(e),
        },
        ty == 4 ==> grammar::parse_value(ty, data, pos) == match u32::parse(data, pos) {
            Ok((v, p)) => Ok::<(ValueView, nat), GgufError>((ValueView::U32(v), p)),
            Err(e) => Err(e),
        },
        ty == 5 ==> grammar::parse_value(ty, data, pos) == match i32::parse(data, pos) {
            Ok((v, p)) => Ok::<(ValueView, nat), GgufError>((ValueView::I32(v), p)),
            Err(e) => Err(e),
        },
        ty == 6 ==> grammar::parse_value(ty, data, pos) == match u32::parse(data, pos) {
            Ok((v, p)) => Ok::<(ValueView, nat), GgufError>((ValueView::F32(v), p)),
            Err(e) => Err(e),
        },
        ty == 7 ==> grammar::parse_value(ty, data, pos) == match bool::parse(data, pos) {
            Ok((v, p)) => Ok::<(ValueView, nat), GgufError>((ValueView::Bool(v), p)),
            Err(e) => Err(e),
        },
        ty == 8 ==> grammar::parse_value(ty, data, pos) == match String::parse(data, pos) {
            Ok((v, p)) => Ok::<(ValueView, nat), GgufError>((ValueView::String(v), p)),
            Err(e) => Err(e),
        },
        ty == 10 ==> grammar::parse_value(ty, data, pos) == match u64::parse(data, pos) {
            Ok((v, p)) => Ok::<(ValueView, nat), GgufError>((ValueView::U64(v), p)),
            Err(e) => Err(e),
        },
        ty == 11 ==> grammar::parse_value(ty, data, pos) == match i64::parse(data, pos) {
            Ok((v, p)) => Ok::<(ValueView, nat), GgufError>((ValueView::I64(v), p)),
            Err(e) => Err(e),
        },
        ty == 12 ==> grammar::parse_value(ty, data, pos) == match u64::parse(data, pos) {
            Ok((v, p)) => Ok::<(ValueView, nat), GgufError>((ValueView::F64(v), p)),
            Err(e) => Err(e),
        },
        ty == 9 ==> grammar::parse_value(ty, data, pos) == match Array::parse(data, pos) {
            Ok((v, p)) => Ok::<(ValueView, nat), GgufError>((ValueView::Array(v), p)),
            Err(e) => Err(e),
        },
        ty > 12 ==> grammar::parse_value(ty, data, pos) == Err::<(ValueView, nat), GgufError>(
            GgufError::UnknownValueType(ty),
        ),
{
}

/// An array is the code of its element type, the number of its elements, eight
/// bytes wide and not negative, and the elements in a row.
pub proof fn law_arrays(data: Seq<u8>, pos: nat)
    ensures
        u32::parse(data, pos) matches Err(e) ==> Array::parse(data, pos) == Err::<
            (ArrayView, nat),
            GgufError,
        >(e),
        u32::parse(data, pos) matches Ok((ty, p)) ==> {
            &&& i64::parse(data, p) matches Err(e) ==> Array::parse(data, pos) == Err::<
                (ArrayView, nat),
                GgufError,
            >(e)
            &&& i64::parse(data, p) matches Ok((n, q)) ==> {
                let got = Array::parse(data, pos);
                let count = n as nat;
                if n < 0 {
                    got == Err::<(ArrayView, nat), GgufError>(GgufError::NegativeLength(n))
                } else {
                    &&& ty == 0 ==> got == match grammar::parse_n::<u8>(data, q, count) {
                        Ok((vs, end)) => Ok::<(ArrayView, nat), GgufError>((ArrayView::U8(vs), end)),
                        Err(e) => Err(e),
                    }
                    &&& ty == 1 ==> got == match grammar::parse_n::<i8>(data, q, count) {
                        Ok((vs, end)) => Ok::<(ArrayView, nat), GgufError>((ArrayView::I8(vs), end)),
                        Err(e) => Err(e),
                    }
                    &&& ty == 2 ==> got == match grammar::parse_n::<u16>(data, q, count) {
                        Ok((vs, end)) => Ok::<(ArrayView, nat), GgufError>((ArrayView::U16(vs), end)),
                        Err(e) => Err(e),
                    }
                    &&& ty == 3 ==> got == match grammar::parse_n::<i16>(data, q, count) {
                        Ok((vs, end)) => Ok::<(ArrayView, nat), GgufError>((ArrayView::I16(vs), end)),
                        Err(e) => Err(e),
                    }
                    &&& ty == 4 ==> got == match grammar::parse_n::<u32>(data, q, count) {
                        Ok((vs, end)) => Ok::<(ArrayView, nat), GgufError>((ArrayView::U32(vs), end)),
                        Err(e) => Err(e),
                    }
                    &&& ty == 5 ==> got == match grammar::parse_n::<i32>(data, q, count) {
                        Ok((vs, end)) => Ok::<(ArrayView, nat), GgufError>((ArrayView::I32(vs), end)),
                        Err(e) => Err(e),
                    }
                    &&& ty == 6 ==> got == match grammar::parse_n::<u32>(data, q, count) {
                        Ok((vs, end)) => Ok::<(ArrayView, nat), GgufError>((ArrayView::F32(vs), end)),
                        Err(e) => Err(e),
                    }
                    &&& ty == 7 ==> got == match grammar::parse_n::<bool>(data, q, count) {
                        Ok((vs, end)) => Ok::<(ArrayView, nat), GgufError>((ArrayView::Bool(vs), end)),
                        Err(e) => Err(e),
                    }
                    &&& ty == 8 ==> got == match grammar::parse_n::<String>(data, q, count) {
                        Ok((vs, end)) => Ok::<(ArrayView, nat), GgufError>((ArrayView::String(vs), end)),
                        Err(e) => Err(e),
                    }
                    &&& ty == 10 ==> got == match grammar::parse_n::<u64>(data, q, count) {
                        Ok((vs, end)) => Ok::<(ArrayView, nat), GgufError>((ArrayView::U64(vs), end)),
                        Err(e) => Err(e),
                    }
                    &&& ty == 11 ==> got == match grammar::parse_n::<i64>(data, q, count) {
                        Ok((vs, end)) => Ok::<(ArrayView, nat), GgufError>((ArrayView::I64(vs), end)),
                        Err(e) => Err(e),
                    }
                    &&& ty == 12 ==> got == match grammar::parse_n::<u64>(data, q, count) {
                        Ok((vs, end)) => Ok::<(ArrayView, nat), GgufError>((ArrayView::F64(vs), end)),
                        Err(e) => Err(e),
                    }
                    &&& ty == 9 ==> got == Err::<(ArrayView, nat), GgufError>(
                        GgufError::NestedArray,
                    )
                    &&& ty > 12 ==> got == Err::<(ArrayView, nat), GgufError>(
                        GgufError::UnknownValueType(ty),
                    )
                }
            }
        },
{
}

/// A metadata entry is its key, the code of the type of its value, and the value.
pub proof fn law_entries(data: Seq<u8>, pos: nat)
    ensures
        <(String, Value)>::parse(data, pos) == match String::parse(data, pos) {
            Ok((key, p)) => match u32::parse(data, p) {
                Ok((ty, q)) => match grammar::parse_value(ty, data, q) {
                    Ok((v, end)) => Ok::<((Seq<char>, ValueView), nat), GgufError>(((key, v), end)),
                    Err(e) => Err(e),
                },
                Err(e) => Err(e),
            },
            Err(e) => Err(e),
        },
{
}

/// The element type of a code, which is that of its own number.
pub proof fn law_type_codes(code: i32, t: GgmlType)
    ensures
        header::type_with_code(code) matches Some(u) ==> u.code() == code,
        t.code() == code ==> header::type_with_code(code) == Some(t),
{
    if t.code() == code {
        let u = choose|u: GgmlType| #[trigger] u.code() == code;
        types::law_codes_are_distinct(t, u);
    }
}

/// An extent is eight bytes wide and not negative.
pub proof fn law_extent(data: Seq<u8>, pos: nat)
    ensures
        Extent::parse(data, pos) == match i64::parse(data, pos) {
            Ok((n, p)) => if n < 0 {
                Err::<(u64, nat), GgufError>(GgufError::NegativeLength(n))
            } else {
                Ok((n as u64, p))
            },
            Err(e) => Err(e),
        },
{
}

/// A tensor record is its name, the number of its dimensions, one to four, as
/// many extents, the code of its element type, and its offset.
pub proof fn law_tensor_records(data: Seq<u8>, pos: nat)
    ensures
        TensorInfo::parse(data, pos) == match String::parse(data, pos) {
            Ok((name, p)) => match u32::parse(data, p) {
                Ok((n, q)) => if n == 0 {
                    Err::<(TensorView, nat), GgufError>(GgufError::NoDims)
                } else if n > 4 {
                    Err(GgufError::TooManyDims(n))
                } else {
                    match grammar::parse_n::<Extent>(data, q, n as nat) {
                        Ok((dims, r)) => match i32::parse(data, r) {
                            Ok((code, s)) => match header::type_with_code(code) {
                                Some(ty) => match u64::parse(data, s) {
                                    Ok((offset, end)) => Ok(
                                        (TensorView { name, dims, ty, offset }, end),
                                    ),
                                    Err(e) => Err(e),
                                },
                                None => Err(GgufError::UnknownTensorType(code)),
                            },
                            Err(e) => Err(e),
                        },
                        Err(e) => Err(e),
                    }
                },
                Err(e) => Err(e),
            },
            Err(e) => Err(e),
        },
{
}

/// A file starts with `GGUF`, its version, the number of tensors and the number
/// of metadata entries; the entries follow, and then the tensor records.
pub proof fn law_header(data: Seq<u8>)
    ensures
        header::parse_header(data) == if data.len() < 4 {
            Err::<(HeaderView, nat), GgufError>(
                GgufError::UnexpectedEof { needed: 4, available: data.len() as usize },
            )
        } else if data.take(4) != seq![0x47u8, 0x47u8, 0x55u8, 0x46u8] {
            Err(GgufError::BadMagic([data[0], data[1], data[2], data[3]]))
        } else {
            match u32::parse(data, 4) {
                Ok((version, _)) => if version < 2 || version > 3 {
                    Err(GgufError::UnsupportedVersion(version))
                } else {
                    match i64::parse(data, 8) {
                        Ok((n_tensors, _)) => if n_tensors < 0 {
                            Err(GgufError::NegativeLength(n_tensors))
                        } else {
                            match i64::parse(data, 16) {
                                Ok((n_kv, _)) => if n_kv < 0 {
                                    Err(GgufError::NegativeLength(n_kv))
                                } else {
                                    match grammar::parse_n::<(String, Value)>(
                                        data,
                                        24,
                                        n_kv as nat,
                                    ) {
                                        Ok((kv, p)) => match grammar::parse_n::<TensorInfo>(
                                            data,
                                            p,
                                            n_tensors as nat,
                                        ) {
                                            Ok((tensors, end)) => Ok(
                                                (HeaderView { version, kv, tensors }, end),
                                            ),
                                            Err(e) => Err(e),
                                        },
                                        Err(e) => Err(e),
                                    }
                                },
                                Err(e) => Err(e),
                            }
                        },
                        Err(e) => Err(e),
                    }
                },
                Err(e) => Err(e),
            }
        },
{
    if data.len() >= 4 {
        assert(data.subrange(0, 4) =~= data.take(4));
        assert(GGUF_MAGIC@ =~= seq![0x47u8, 0x47u8, 0x55u8, 0x46u8]);
    }
}

/// A file holds what its header says: the version, and every entry and every
/// tensor in order.
pub proof fn law_file(data: Seq<u8>)
    ensures
        match header::parse_header(data) {
            Ok((h, _)) => header::parse_file(data) matches Ok(file) && file.version == h.version
                && file.kv == h.kv && file.tensors == h.tensors,
            Err(e) => header::parse_file(data) == Err::<FileView, GgufError>(e),
        },
{
}

} // verus!
