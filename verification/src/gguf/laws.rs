//! Laws of the GGUF reader.

use vstd::prelude::*;

use crate::gguf::bytes;
use crate::gguf::error::GgufError;
use crate::gguf::field;
use crate::gguf::field::Encoded;
use crate::gguf::file;
use crate::gguf::grammar;
use crate::gguf::header;
use crate::gguf::header::{
    Extent, FileView, HeaderView, GGUF_DEFAULT_ALIGNMENT, GGUF_KEY_ALIGNMENT, GGUF_MAGIC,
};
use crate::gguf::tensor::TensorInfo;
use crate::gguf::value::Value;
use crate::types::GGML_MAX_DIMS;

verus! {

/// A read of what was written gives it back: a file that starts with the bytes
/// of a header stands for that header, whatever follows.
pub proof fn law_round_trip(h: HeaderView, tail: Seq<u8>)
    requires
        header::header_encodable(h),
    ensures
        header::parse_header(header::encode_header(h) + tail) == Ok::<
            (HeaderView, nat),
            GgufError,
        >((h, header::encode_header(h).len())),
        header::parse_file(header::encode_header(h) + tail) == Ok::<FileView, GgufError>(
            header::file_of(h, header::encode_header(h).len()),
        ),
{
    let all = header::encode_header(h);
    let data = all + tail;
    assert(data.subrange(0, all.len() as int) =~= all);
    let preamble = header::encode_preamble(h.version, h.tensors.len(), h.kv.len());
    let kv = grammar::encode_all::<(String, Value)>(h.kv);
    let tensors = grammar::encode_all::<TensorInfo>(h.tensors);
    bytes::lemma_stands_at_split(data, 0, preamble, kv + tensors);
    bytes::lemma_stands_at_split(data, preamble.len(), kv, tensors);
    lemma_preamble_round_trip(h.version, h.tensors.len(), h.kv.len(), data);
    grammar::lemma_all_round_trip::<(String, Value)>(h.kv, data, preamble.len());
    grammar::lemma_all_round_trip::<TensorInfo>(h.tensors, data, preamble.len() + kv.len());
}

proof fn lemma_preamble_round_trip(version: u32, n_tensors: nat, n_kv: nat, data: Seq<u8>)
    requires
        header::supported(version),
        n_tensors <= field::max_length(),
        n_kv <= field::max_length(),
        bytes::stands_at(data, 0, header::encode_preamble(version, n_tensors, n_kv)),
    ensures
        header::parse_preamble(data) == Ok::<((u32, nat, nat), nat), GgufError>(
            (
                (version, n_tensors, n_kv),
                header::encode_preamble(version, n_tensors, n_kv).len(),
            ),
        ),
{
    let v = u32::encode(version);
    let a = field::encode_length(n_tensors);
    let b = field::encode_length(n_kv);
    bytes::lemma_stands_at_split(data, 0, GGUF_MAGIC@, v + (a + b));
    bytes::lemma_stands_at_split(data, 4, v, a + b);
    bytes::lemma_stands_at_split(data, 4 + v.len(), a, b);
    u32::lemma_round_trip(version, data, 4);
    field::lemma_length_round_trip(n_tensors, data, 4 + v.len());
    field::lemma_length_round_trip(n_kv, data, 4 + v.len() + a.len());
}

/// The supported versions share one layout: with the number of another one in
/// the place of its own, a file stands for the same tables, or is refused with
/// the same error.
pub proof fn law_versions_share_layout(data: Seq<u8>, version: u32)
    requires
        data.len() >= 8,
        header::supported(bytes::le_value(data.subrange(4, 8)) as u32),
        header::supported(version),
    ensures
        header::parse_file(data.take(4) + u32::encode(version) + data.skip(8))
            == match header::parse_file(data) {
            Ok(file) => Ok::<FileView, GgufError>(FileView { version, ..file }),
            Err(e) => Err(e),
        },
{
    let other = data.take(4) + u32::encode(version) + data.skip(8);
    bytes::lemma_le_bytes_len(version as nat, 4);
    assert(other.len() == data.len());
    assert(bytes::same_behind(data, other, 8));
    assert(data.subrange(0, 4) =~= other.subrange(0, 4));
    assert(other.subrange(4, 8) =~= u32::encode(version));
    u32::lemma_round_trip(version, other, 4);
    u32::lemma_consumed(data, 4);
    i64::lemma_local(data, other, 8);
    field::lemma_length_consumed(data, 8);
    if let Ok((n_tensors, p)) = field::parse_length(data, 8) {
        i64::lemma_local(data, other, p);
        field::lemma_length_consumed(data, p);
        if let Ok((n_kv, q)) = field::parse_length(data, p) {
            grammar::lemma_n_local::<(String, Value)>(data, other, q, n_kv);
            grammar::lemma_n_consumed::<(String, Value)>(data, q, n_kv);
            if let Ok((kv, r)) = grammar::parse_n::<(String, Value)>(data, q, n_kv) {
                grammar::lemma_n_local::<TensorInfo>(data, other, r, n_tensors);
            }
        }
    }
}

/// Every tensor that is read has one to four extents, none above `i64::MAX`.
pub proof fn law_extents(data: Seq<u8>)
    ensures
        header::parse_file(data) matches Ok(file) ==> forall|i: int|
            0 <= i < file.tensors.len() ==> {
                &&& 1 <= (#[trigger] file.tensors[i]).dims.len() <= GGML_MAX_DIMS
                &&& forall|k: int|
                    0 <= k < file.tensors[i].dims.len() ==> #[trigger] file.tensors[i].dims[k]
                        <= i64::MAX
            },
{
    law_header_is_consumed_exactly(data);
    if let Ok(file) = header::parse_file(data) {
        assert forall|i: int| 0 <= i < file.tensors.len() implies {
            &&& 1 <= (#[trigger] file.tensors[i]).dims.len() <= GGML_MAX_DIMS
            &&& forall|k: int|
                0 <= k < file.tensors[i].dims.len() ==> #[trigger] file.tensors[i].dims[k]
                    <= i64::MAX
        } by {
            let t = file.tensors[i];
            assert(TensorInfo::encodable(t));
            assert forall|k: int| 0 <= k < t.dims.len() implies #[trigger] t.dims[k]
                <= i64::MAX by {
                assert(Extent::encodable(t.dims[k]));
            }
        }
    }
}

/// A file that is refused because it ends too early has fewer bytes left than
/// the read needed. No slice is longer than `usize::MAX` bytes.
pub proof fn law_end_of_file(data: Seq<u8>)
    requires
        data.len() <= usize::MAX,
    ensures
        header::parse_file(data) matches Err(GgufError::UnexpectedEof { needed, available })
            ==> available < needed,
{
    lemma_table_errors(data);
    if let Ok((magic, p)) = bytes::take(data, 0, 4) {
        u32::lemma_errors(data, p);
        u32::lemma_consumed(data, p);
        if let Ok((version, q)) = u32::parse(data, p) {
            i64::lemma_errors(data, q);
            field::lemma_length_consumed(data, q);
            if let Ok((n_tensors, r)) = field::parse_length(data, q) {
                i64::lemma_errors(data, r);
            }
        }
    }
}

/// A file cut short is read as the whole file is, or the read runs past the
/// end: the first where the cut lies behind the header, the second where it
/// lies within. A read past the end has fewer bytes left than it needed.
pub proof fn law_truncation(data: Seq<u8>, n: nat)
    requires
        n <= data.len(),
    ensures
        header::parse_file(data.take(n as int)) == header::parse_file(data) || (header::parse_file(
            data.take(n as int),
        ) matches Err(GgufError::UnexpectedEof { .. })),
        header::parse_header(data) matches Ok((_, end)) ==> {
            &&& n >= end ==> header::parse_file(data.take(n as int)) == header::parse_file(data)
            &&& n < end ==> (header::parse_file(data.take(n as int)) matches Err(
                GgufError::UnexpectedEof { .. },
            ))
        },
        n <= usize::MAX ==> (header::parse_file(data.take(n as int)) matches Err(
            GgufError::UnexpectedEof { needed, available },
        ) ==> available < needed),
{
    if n <= usize::MAX {
        law_end_of_file(data.take(n as int));
    }
    lemma_preamble_truncation(data, n);
    if let Ok(((version, n_tensors, n_kv), p)) = header::parse_preamble(data) {
        let m = bytes::cut_behind(data, p, n);
        grammar::lemma_n_truncation::<(String, Value)>(data, p, m, n_kv);
        if let Ok((kv, q)) = grammar::parse_n::<(String, Value)>(data, p, n_kv) {
            grammar::lemma_n_truncation::<TensorInfo>(
                data,
                q,
                bytes::cut_behind(data, q, m),
                n_tensors,
            );
        }
    }
}

proof fn lemma_preamble_truncation(data: Seq<u8>, n: nat)
    requires
        n <= data.len(),
    ensures
        bytes::truncation_agrees(
            header::parse_preamble(data.take(n as int)),
            header::parse_preamble(data),
            0,
            n,
            data.len(),
        ),
{
    bytes::lemma_take_truncation(data, 0, n, 4);
    if let Ok((magic, p)) = bytes::take(data, 0, 4) {
        let m = bytes::cut_behind(data, p, n);
        u32::lemma_truncation(data, p, m);
        if let Ok((version, q)) = u32::parse(data, p) {
            let k = bytes::cut_behind(data, q, m);
            field::lemma_length_truncation(data, q, k);
            if let Ok((n_tensors, r)) = field::parse_length(data, q) {
                field::lemma_length_truncation(data, r, bytes::cut_behind(data, r, k));
            }
        }
    }
}

/// Bytes behind the header do not change what is read.
pub proof fn law_trailing_bytes(data: Seq<u8>, tail: Seq<u8>)
    requires
        !(header::parse_file(data) matches Err(GgufError::UnexpectedEof { .. })),
    ensures
        header::parse_file(data + tail) == header::parse_file(data),
{
    law_truncation(data + tail, data.len());
    assert((data + tail).take(data.len() as int) =~= data);
}

/// The cursor ends just behind the header: a header that was read can be
/// written, in as many bytes as it had, and in the very same ones unless a
/// flag was true.
pub proof fn law_header_is_consumed_exactly(data: Seq<u8>)
    ensures
        header::parse_header(data) matches Ok((h, end)) ==> {
            &&& header::header_encodable(h)
            &&& end == header::encode_header(h).len()
            &&& end <= data.len()
            &&& grammar::all_one_form::<(String, Value)>(h.kv) ==> data.take(end as int)
                == header::encode_header(h)
        },
{
    lemma_preamble_consumed(data);
    if let Ok(((version, n_tensors, n_kv), p)) = header::parse_preamble(data) {
        grammar::lemma_n_consumed::<(String, Value)>(data, p, n_kv);
        if let Ok((kv, q)) = grammar::parse_n::<(String, Value)>(data, p, n_kv) {
            grammar::lemma_n_consumed::<TensorInfo>(data, q, n_tensors);
            if let Ok((tensors, end)) = grammar::parse_n::<TensorInfo>(data, q, n_tensors) {
                if grammar::all_one_form::<(String, Value)>(kv) {
                    let a = header::encode_preamble(version, n_tensors, n_kv);
                    let b = grammar::encode_all::<(String, Value)>(kv);
                    let c = grammar::encode_all::<TensorInfo>(tensors);
                    bytes::lemma_stands_at_join(data, p, b, c);
                    bytes::lemma_stands_at_join(data, 0, a, b + c);
                }
            }
        }
    }
}

proof fn lemma_preamble_consumed(data: Seq<u8>)
    ensures
        header::parse_preamble(data) matches Ok(((version, n_tensors, n_kv), end)) ==> {
            &&& header::supported(version)
            &&& n_tensors <= field::max_length()
            &&& n_kv <= field::max_length()
            &&& end == header::encode_preamble(version, n_tensors, n_kv).len()
            &&& bytes::stands_at(data, 0, header::encode_preamble(version, n_tensors, n_kv))
        },
{
    if let Ok((magic, p)) = bytes::take(data, 0, 4) {
        u32::lemma_consumed(data, p);
        if let Ok((version, q)) = u32::parse(data, p) {
            field::lemma_length_consumed(data, q);
            if let Ok((n_tensors, r)) = field::parse_length(data, q) {
                field::lemma_length_consumed(data, r);
                if let Ok((n_kv, end)) = field::parse_length(data, r) {
                    let v = u32::encode(version);
                    let a = field::encode_length(n_tensors);
                    let b = field::encode_length(n_kv);
                    bytes::lemma_stands_at_join(data, q, a, b);
                    bytes::lemma_stands_at_join(data, p, v, a + b);
                    bytes::lemma_stands_at_join(data, 0, magic, v + (a + b));
                }
            }
        }
    }
}

/// The alignment is what the metadata says, if that is an integer other than
/// zero that fits in `usize`, and the default where it says nothing, zero or
/// something else. The tensor data starts at the least multiple of the
/// alignment that is not before the end of the header if there are tensors, and
/// right behind the header if there are none. That multiple fits in `usize` for
/// every file of at most `isize::MAX` bytes, and no slice is longer.
pub proof fn law_data_offset(data: Seq<u8>)
    requires
        data.len() <= usize::MAX,
    ensures
        header::parse_header(data) matches Ok((h, end)) ==> {
            let file = header::file_of(h, end);
            &&& header::parse_file(data) == Ok::<FileView, GgufError>(file)
            &&& file.alignment > 0
            &&& match header::lookup_unsigned(file.kv, GGUF_KEY_ALIGNMENT@) {
                Some(a) => {
                    &&& 0 < a <= usize::MAX ==> file.alignment == a
                    &&& a == 0 ==> file.alignment == GGUF_DEFAULT_ALIGNMENT
                },
                None => file.alignment == GGUF_DEFAULT_ALIGNMENT,
            }
            &&& file.tensors.len() == 0 ==> file.data_offset == end
            &&& data.len() <= isize::MAX ==> header::round_up(end, file.alignment as nat)
                <= usize::MAX
            &&& file.tensors.len() > 0 && header::round_up(end, file.alignment as nat)
                <= usize::MAX ==> {
                &&& file.data_offset as int % file.alignment as int == 0
                &&& end <= file.data_offset
                &&& forall|p: int| #[trigger]
                    (p % file.alignment as int) == 0 && end <= p ==> file.data_offset <= p
            }
        },
{
    law_header_is_consumed_exactly(data);
    if let Ok((h, end)) = header::parse_header(data) {
        let a = header::alignment_of(h.kv) as nat;
        file::lemma_round_up(end, a);
        let up = header::round_up(end, a);
        assert(up % a == 0) by {
            vstd::arithmetic::div_mod::lemma_mod_multiples_basic(
                (end + a - 1) / a as int,
                a as int,
            );
        }
        if data.len() <= isize::MAX {
            vstd::arithmetic::div_mod::lemma_mod_decreases(end, a);
            if a > end {
                if end % a != 0 {
                    vstd::arithmetic::div_mod::lemma_small_mod(end, a);
                }
            }
            assert(up <= usize::MAX);
        }
        assert(up < end + a);
        assert forall|p: int| #[trigger] (p % a as int) == 0 && end <= p implies up <= p by {
            lemma_multiples_are_apart(up as int, p, a as int);
        }
    }
}

/// A multiple of `a` that is less than `a` above another one is not above it.
proof fn lemma_multiples_are_apart(m: int, p: int, a: int)
    requires
        a > 0,
        m % a == 0,
        p % a == 0,
        m < p + a,
    ensures
        m <= p,
{
    vstd::arithmetic::div_mod::lemma_fundamental_div_mod(m, a);
    vstd::arithmetic::div_mod::lemma_fundamental_div_mod(p, a);
    assert(m / a <= p / a && m <= p) by (nonlinear_arith)
        requires
            a > 0,
            m == a * (m / a),
            p == a * (p / a),
            m < p + a,
    ;
}

/// A file of four bytes or more is refused for its magic bytes exactly where
/// they are others than `"GGUF"`, and the error shows them.
pub proof fn law_bad_magic(data: Seq<u8>)
    ensures
        (header::parse_file(data) matches Err(GgufError::BadMagic(_))) <==> data.len() >= 4
            && data.take(4) != GGUF_MAGIC@,
        header::parse_file(data) matches Err(GgufError::BadMagic(m)) ==> m@ == data.take(4),
{
    lemma_table_errors(data);
    if data.len() >= 4 {
        let m = data.take(4);
        assert([m[0], m[1], m[2], m[3]]@ =~= m);
    }
}

/// A file with the right magic bytes is refused for its version exactly where
/// the number behind them is no supported version, and the error shows it.
pub proof fn law_unsupported_version(data: Seq<u8>)
    ensures
        (header::parse_file(data) matches Err(GgufError::UnsupportedVersion(_))) <==> {
            &&& data.len() >= 8
            &&& data.take(4) == GGUF_MAGIC@
            &&& !header::supported(bytes::le_value(data.subrange(4, 8)) as u32)
        },
        header::parse_file(data) matches Err(GgufError::UnsupportedVersion(v)) ==> v
            == bytes::le_value(data.subrange(4, 8)),
{
    lemma_table_errors(data);
    bytes::lemma_pow256();
    if data.len() >= 4 {
        bytes::lemma_uint_consumed(data, 4, 4);
    }
}

proof fn lemma_table_errors(data: Seq<u8>)
    ensures
        header::parse_preamble(data) matches Ok(((version, n_tensors, n_kv), p)) ==> (
        header::parse_tables(version, n_tensors, n_kv, data, p) matches Err(e)
            ==> bytes::is_field_error(e, data.len())),
{
    lemma_preamble_consumed(data);
    if let Ok(((version, n_tensors, n_kv), p)) = header::parse_preamble(data) {
        grammar::lemma_n_errors::<(String, Value)>(data, p, n_kv);
        grammar::lemma_n_consumed::<(String, Value)>(data, p, n_kv);
        if let Ok((kv, q)) = grammar::parse_n::<(String, Value)>(data, p, n_kv) {
            grammar::lemma_n_errors::<TensorInfo>(data, q, n_tensors);
        }
    }
}

} // verus!
