//! The layout of tensor records and of the header as a whole, and what a file
//! stands for.

use vstd::prelude::*;

use crate::gguf::bytes;
use crate::gguf::bytes::Parsed;
use crate::gguf::error::GgufError;
use crate::gguf::field;
use crate::gguf::field::Encoded;
use crate::gguf::grammar;
use crate::gguf::tensor::{TensorInfo, TensorView};
use crate::gguf::value::{Value, ValueView};
use crate::types::{GgmlType, GGML_MAX_DIMS};

verus! {

/// `"GGUF"`, the bytes that a file starts with.
pub const GGUF_MAGIC: [u8; 4] = [0x47, 0x47, 0x55, 0x46];

/// Highest GGUF version that is supported.
pub const GGUF_VERSION: u32 = 3;

/// Oldest GGUF version that is supported. Versions 2 and 3 share the same
/// layout; version 1, with its 32-bit counts, does not.
pub const GGUF_VERSION_MIN: u32 = 2;

/// Tensor-data alignment where the metadata gives none.
pub const GGUF_DEFAULT_ALIGNMENT: usize = 32;

/// Metadata key that overrides the tensor-data alignment.
pub const GGUF_KEY_ALIGNMENT: &'static str = "general.alignment";

/// The extent of a tensor in one dimension.
pub struct Extent(pub u64);

impl View for Extent {
    type V = u64;

    open spec fn view(&self) -> u64 {
        self.0
    }
}

/// An extent is laid out like a length.
impl Encoded for Extent {
    open spec fn parse(data: Seq<u8>, pos: nat) -> Parsed<u64> {
        match field::parse_length(data, pos) {
            Ok((n, p)) => Ok((n as u64, p)),
            Err(e) => Err(e),
        }
    }

    open spec fn encode(v: u64) -> Seq<u8> {
        field::encode_length(v as nat)
    }

    open spec fn encodable(v: u64) -> bool {
        v <= field::max_length()
    }

    open spec fn one_form(v: u64) -> bool {
        true
    }

    proof fn lemma_round_trip(v: u64, data: Seq<u8>, pos: nat) {
        field::lemma_length_round_trip(v as nat, data, pos);
    }

    proof fn lemma_truncation(data: Seq<u8>, pos: nat, n: nat) {
        field::lemma_length_truncation(data, pos, n);
    }

    proof fn lemma_consumed(data: Seq<u8>, pos: nat) {
        field::lemma_length_consumed(data, pos);
    }

    proof fn lemma_errors(data: Seq<u8>, pos: nat) {
        i64::lemma_errors(data, pos);
    }

    proof fn lemma_local(data: Seq<u8>, other: Seq<u8>, pos: nat) {
        i64::lemma_local(data, other, pos);
    }
}

/// The element type with a given code.
pub open spec fn type_with_code(code: i32) -> Option<GgmlType> {
    if exists|t: GgmlType| #[trigger] t.code() == code {
        Some(choose|t: GgmlType| #[trigger] t.code() == code)
    } else {
        None
    }
}

/// The extents, element type and offset of a tensor: what follows its name
/// and its number of dimensions.
pub open spec fn parse_shape(
    name: Seq<char>,
    n_dims: u32,
    data: Seq<u8>,
    pos: nat,
) -> Parsed<TensorView> {
    if n_dims == 0 {
        Err(GgufError::NoDims)
    } else if n_dims > GGML_MAX_DIMS {
        Err(GgufError::TooManyDims(n_dims))
    } else {
        match grammar::parse_n::<Extent>(data, pos, n_dims as nat) {
            Ok((dims, p)) => match i32::parse(data, p) {
                Ok((code, q)) => match type_with_code(code) {
                    Some(ty) => match u64::parse(data, q) {
                        Ok((offset, end)) => Ok((TensorView { name, dims, ty, offset }, end)),
                        Err(e) => Err(e),
                    },
                    None => Err(GgufError::UnknownTensorType(code)),
                },
                Err(e) => Err(e),
            },
            Err(e) => Err(e),
        }
    }
}

/// The bytes of the extents, element type and offset of a tensor.
pub open spec fn encode_shape(v: TensorView) -> Seq<u8> {
    grammar::encode_all::<Extent>(v.dims) + (i32::encode(v.ty.code()) + u64::encode(v.offset))
}

/// A tensor record is the name, the number of dimensions, the extents, the
/// code of the element type, and the offset.
impl Encoded for TensorInfo {
    open spec fn parse(data: Seq<u8>, pos: nat) -> Parsed<TensorView> {
        match String::parse(data, pos) {
            Ok((name, p)) => match u32::parse(data, p) {
                Ok((n_dims, q)) => parse_shape(name, n_dims, data, q),
                Err(e) => Err(e),
            },
            Err(e) => Err(e),
        }
    }

    open spec fn encode(v: TensorView) -> Seq<u8> {
        String::encode(v.name) + (u32::encode(v.dims.len() as u32) + encode_shape(v))
    }

    open spec fn encodable(v: TensorView) -> bool {
        &&& String::encodable(v.name)
        &&& 1 <= v.dims.len() <= GGML_MAX_DIMS
        &&& grammar::all_encodable::<Extent>(v.dims)
    }

    open spec fn one_form(v: TensorView) -> bool {
        true
    }

    proof fn lemma_round_trip(v: TensorView, data: Seq<u8>, pos: nat) {
        let name = String::encode(v.name);
        let n_dims = u32::encode(v.dims.len() as u32);
        let dims = grammar::encode_all::<Extent>(v.dims);
        let code = i32::encode(v.ty.code());
        let offset = u64::encode(v.offset);
        let p = pos + name.len();
        let q = p + n_dims.len();
        let r = q + dims.len();
        let s = r + code.len();
        bytes::lemma_stands_at_split(data, pos, name, n_dims + encode_shape(v));
        bytes::lemma_stands_at_split(data, p, n_dims, encode_shape(v));
        bytes::lemma_stands_at_split(data, q, dims, code + offset);
        bytes::lemma_stands_at_split(data, r, code, offset);
        String::lemma_round_trip(v.name, data, pos);
        u32::lemma_round_trip(v.dims.len() as u32, data, p);
        grammar::lemma_all_round_trip::<Extent>(v.dims, data, q);
        i32::lemma_round_trip(v.ty.code(), data, r);
        u64::lemma_round_trip(v.offset, data, s);
        let t = choose|t: GgmlType| #[trigger] t.code() == v.ty.code();
        crate::types::law_codes_are_distinct(t, v.ty);
    }

    proof fn lemma_truncation(data: Seq<u8>, pos: nat, n: nat) {
        String::lemma_truncation(data, pos, n);
        if let Ok((name, p)) = String::parse(data, pos) {
            let m = bytes::cut_behind(data, p, n);
            u32::lemma_truncation(data, p, m);
            if let Ok((n_dims, q)) = u32::parse(data, p) {
                lemma_shape_truncation(name, n_dims, data, q, bytes::cut_behind(data, q, m));
            }
        }
    }

    proof fn lemma_consumed(data: Seq<u8>, pos: nat) {
        String::lemma_consumed(data, pos);
        if let Ok((name, p)) = String::parse(data, pos) {
            u32::lemma_consumed(data, p);
            if let Ok((n_dims, q)) = u32::parse(data, p) {
                lemma_shape_consumed(name, n_dims, data, q);
                if let Ok((v, end)) = parse_shape(name, n_dims, data, q) {
                    bytes::lemma_stands_at_join(data, p, u32::encode(n_dims), encode_shape(v));
                    bytes::lemma_stands_at_join(
                        data,
                        pos,
                        String::encode(name),
                        u32::encode(n_dims) + encode_shape(v),
                    );
                }
            }
        }
    }

    proof fn lemma_errors(data: Seq<u8>, pos: nat) {
        String::lemma_errors(data, pos);
        String::lemma_consumed(data, pos);
        if let Ok((name, p)) = String::parse(data, pos) {
            u32::lemma_errors(data, p);
            u32::lemma_consumed(data, p);
            if let Ok((n_dims, q)) = u32::parse(data, p) {
                grammar::lemma_n_errors::<Extent>(data, q, n_dims as nat);
                grammar::lemma_n_consumed::<Extent>(data, q, n_dims as nat);
                if let Ok((dims, r)) = grammar::parse_n::<Extent>(data, q, n_dims as nat) {
                    i32::lemma_errors(data, r);
                    i32::lemma_consumed(data, r);
                    if let Ok((code, s)) = i32::parse(data, r) {
                        u64::lemma_errors(data, s);
                    }
                }
            }
        }
    }

    proof fn lemma_local(data: Seq<u8>, other: Seq<u8>, pos: nat) {
        String::lemma_local(data, other, pos);
        String::lemma_consumed(data, pos);
        if let Ok((name, p)) = String::parse(data, pos) {
            u32::lemma_local(data, other, p);
            u32::lemma_consumed(data, p);
            if let Ok((n_dims, q)) = u32::parse(data, p) {
                grammar::lemma_n_local::<Extent>(data, other, q, n_dims as nat);
                grammar::lemma_n_consumed::<Extent>(data, q, n_dims as nat);
                if let Ok((dims, r)) = grammar::parse_n::<Extent>(data, q, n_dims as nat) {
                    i32::lemma_local(data, other, r);
                    i32::lemma_consumed(data, r);
                    if let Ok((code, s)) = i32::parse(data, r) {
                        u64::lemma_local(data, other, s);
                    }
                }
            }
        }
    }
}

proof fn lemma_shape_truncation(name: Seq<char>, n_dims: u32, data: Seq<u8>, pos: nat, n: nat)
    requires
        pos <= n <= data.len(),
    ensures
        bytes::truncation_agrees(
            parse_shape(name, n_dims, data.take(n as int), pos),
            parse_shape(name, n_dims, data, pos),
            pos,
            n,
            data.len(),
        ),
{
    if n_dims <= GGML_MAX_DIMS {
        grammar::lemma_n_truncation::<Extent>(data, pos, n, n_dims as nat);
        if let Ok((dims, p)) = grammar::parse_n::<Extent>(data, pos, n_dims as nat) {
            let m = bytes::cut_behind(data, p, n);
            i32::lemma_truncation(data, p, m);
            if let Ok((code, q)) = i32::parse(data, p) {
                u64::lemma_truncation(data, q, bytes::cut_behind(data, q, m));
            }
        }
    }
}

proof fn lemma_shape_consumed(name: Seq<char>, n_dims: u32, data: Seq<u8>, pos: nat)
    requires
        pos <= data.len(),
    ensures
        parse_shape(name, n_dims, data, pos) matches Ok((v, end)) ==> {
            &&& v.name == name
            &&& v.dims.len() == n_dims
            &&& 1 <= n_dims <= GGML_MAX_DIMS
            &&& grammar::all_encodable::<Extent>(v.dims)
            &&& end == pos + encode_shape(v).len()
            &&& end <= data.len()
            &&& bytes::stands_at(data, pos, encode_shape(v))
        },
{
    if n_dims <= GGML_MAX_DIMS {
        grammar::lemma_n_consumed::<Extent>(data, pos, n_dims as nat);
        if let Ok((dims, p)) = grammar::parse_n::<Extent>(data, pos, n_dims as nat) {
            i32::lemma_consumed(data, p);
            if let Ok((code, q)) = i32::parse(data, p) {
                u64::lemma_consumed(data, q);
                if let Ok((offset, end)) = u64::parse(data, q) {
                    bytes::lemma_stands_at_join(data, p, i32::encode(code), u64::encode(offset));
                    bytes::lemma_stands_at_join(
                        data,
                        pos,
                        grammar::encode_all::<Extent>(dims),
                        i32::encode(code) + u64::encode(offset),
                    );
                }
            }
        }
    }
}

/// What the header of a file says.
#[verifier::ext_equal]
pub struct HeaderView {
    pub version: u32,
    pub kv: Seq<(Seq<char>, ValueView)>,
    pub tensors: Seq<TensorView>,
}

/// The version is one of those that are supported.
pub open spec fn supported(version: u32) -> bool {
    GGUF_VERSION_MIN <= version <= GGUF_VERSION
}

/// The magic bytes, the version, the number of tensors and the number of
/// metadata entries.
pub open spec fn parse_preamble(data: Seq<u8>) -> Parsed<(u32, nat, nat)> {
    match bytes::take(data, 0, 4) {
        Ok((magic, p)) => if magic != GGUF_MAGIC@ {
            Err(GgufError::BadMagic([magic[0], magic[1], magic[2], magic[3]]))
        } else {
            match u32::parse(data, p) {
                Ok((version, q)) => if !supported(version) {
                    Err(GgufError::UnsupportedVersion(version))
                } else {
                    match field::parse_length(data, q) {
                        Ok((n_tensors, r)) => match field::parse_length(data, r) {
                            Ok((n_kv, end)) => Ok(((version, n_tensors, n_kv), end)),
                            Err(e) => Err(e),
                        },
                        Err(e) => Err(e),
                    }
                },
                Err(e) => Err(e),
            }
        },
        Err(e) => Err(e),
    }
}

/// The bytes of the preamble.
pub open spec fn encode_preamble(version: u32, n_tensors: nat, n_kv: nat) -> Seq<u8> {
    GGUF_MAGIC@ + (u32::encode(version) + (field::encode_length(n_tensors) + field::encode_length(
        n_kv,
    )))
}

/// The metadata entries and the tensor records.
pub open spec fn parse_tables(
    version: u32,
    n_tensors: nat,
    n_kv: nat,
    data: Seq<u8>,
    pos: nat,
) -> Parsed<HeaderView> {
    match grammar::parse_n::<(String, Value)>(data, pos, n_kv) {
        Ok((kv, p)) => match grammar::parse_n::<TensorInfo>(data, p, n_tensors) {
            Ok((tensors, end)) => Ok((HeaderView { version, kv, tensors }, end)),
            Err(e) => Err(e),
        },
        Err(e) => Err(e),
    }
}

/// The header that a file starts with.
pub open spec fn parse_header(data: Seq<u8>) -> Parsed<HeaderView> {
    match parse_preamble(data) {
        Ok(((version, n_tensors, n_kv), p)) => parse_tables(version, n_tensors, n_kv, data, p),
        Err(e) => Err(e),
    }
}

/// The bytes of a header.
pub open spec fn encode_header(h: HeaderView) -> Seq<u8> {
    encode_preamble(h.version, h.tensors.len(), h.kv.len()) + (grammar::encode_all::<
        (String, Value),
    >(h.kv) + grammar::encode_all::<TensorInfo>(h.tensors))
}

/// The header can be written.
pub open spec fn header_encodable(h: HeaderView) -> bool {
    &&& supported(h.version)
    &&& h.kv.len() <= field::max_length()
    &&& h.tensors.len() <= field::max_length()
    &&& grammar::all_encodable::<(String, Value)>(h.kv)
    &&& grammar::all_encodable::<TensorInfo>(h.tensors)
}

/// The position of the last of the `names` that is `name`.
pub open spec fn last_index(names: Seq<Seq<char>>, name: Seq<char>) -> Option<nat>
    decreases names.len(),
{
    if names.len() == 0 {
        None
    } else if names.last() == name {
        Some((names.len() - 1) as nat)
    } else {
        last_index(names.drop_last(), name)
    }
}

/// `last_index` gives the last position at which a name stands, and nothing
/// where the name stands nowhere.
pub proof fn law_last_index(names: Seq<Seq<char>>, name: Seq<char>)
    ensures
        match last_index(names, name) {
            Some(i) => {
                &&& i < names.len()
                &&& names[i as int] == name
                &&& forall|j: int| i < j < names.len() ==> #[trigger] names[j] != name
            },
            None => !names.contains(name),
        },
    decreases names.len(),
{
    if names.len() > 0 {
        let front = names.drop_last();
        law_last_index(front, name);
        assert forall|j: int| 0 <= j < front.len() implies #[trigger] names[j] == front[j] by {}
    }
}

/// The keys of metadata entries.
pub open spec fn keys(kv: Seq<(Seq<char>, ValueView)>) -> Seq<Seq<char>> {
    Seq::new(kv.len(), |i: int| kv[i].0)
}

/// The names of tensors.
pub open spec fn names(tensors: Seq<TensorView>) -> Seq<Seq<char>> {
    Seq::new(tensors.len(), |i: int| tensors[i].name)
}

/// The value of a key: that of the last entry with the key.
pub open spec fn lookup(kv: Seq<(Seq<char>, ValueView)>, key: Seq<char>) -> Option<ValueView> {
    match last_index(keys(kv), key) {
        Some(i) => Some(kv[i as int].1),
        None => None,
    }
}

/// The text of a key, if its value is a string.
pub open spec fn lookup_text(kv: Seq<(Seq<char>, ValueView)>, key: Seq<char>) -> Option<
    Seq<char>,
> {
    match lookup(kv, key) {
        Some(v) => v.text(),
        None => None,
    }
}

/// The number of a key, if its value is an integer that is not negative.
pub open spec fn lookup_unsigned(kv: Seq<(Seq<char>, ValueView)>, key: Seq<char>) -> Option<u64> {
    match lookup(kv, key) {
        Some(v) => v.unsigned(),
        None => None,
    }
}

/// The tensor with a name: the last one with the name.
pub open spec fn lookup_tensor(tensors: Seq<TensorView>, name: Seq<char>) -> Option<TensorView> {
    match last_index(names(tensors), name) {
        Some(i) => Some(tensors[i as int]),
        None => None,
    }
}

/// Every metadata entry is found by its key, unless a later one has the key
/// too.
pub proof fn law_entries_are_found(kv: Seq<(Seq<char>, ValueView)>, i: int)
    requires
        0 <= i < kv.len(),
    ensures
        lookup(kv, kv[i].0) is Some,
        (forall|j: int| i < j < kv.len() ==> (#[trigger] kv[j]).0 != kv[i].0) ==> lookup(
            kv,
            kv[i].0,
        ) == Some(kv[i].1),
{
    law_last_index(keys(kv), kv[i].0);
    assert(keys(kv)[i] == kv[i].0);
    if let Some(j) = last_index(keys(kv), kv[i].0) {
        assert(keys(kv)[j as int] == kv[j as int].0);
    }
}

/// Every tensor is found by its name, unless a later one has the name too.
pub proof fn law_tensors_are_found(tensors: Seq<TensorView>, i: int)
    requires
        0 <= i < tensors.len(),
    ensures
        lookup_tensor(tensors, tensors[i].name) is Some,
        (forall|j: int| i < j < tensors.len() ==> (#[trigger] tensors[j]).name != tensors[i].name)
            ==> lookup_tensor(tensors, tensors[i].name) == Some(tensors[i]),
{
    law_last_index(names(tensors), tensors[i].name);
    assert(names(tensors)[i] == tensors[i].name);
    if let Some(j) = last_index(names(tensors), tensors[i].name) {
        assert(names(tensors)[j as int] == tensors[j as int].name);
    }
}

/// Nothing is found by a key or a name that no entry has, and what is found is
/// an entry with that key or name.
pub proof fn law_only_entries_are_found(
    kv: Seq<(Seq<char>, ValueView)>,
    tensors: Seq<TensorView>,
    name: Seq<char>,
)
    ensures
        lookup(kv, name) matches Some(v) ==> exists|i: int|
            0 <= i < kv.len() && #[trigger] kv[i] == (name, v),
        lookup_tensor(tensors, name) matches Some(t) ==> t.name == name && tensors.contains(t),
{
    law_last_index(keys(kv), name);
    law_last_index(names(tensors), name);
    if let Some(i) = last_index(keys(kv), name) {
        assert(keys(kv)[i as int] == kv[i as int].0);
        assert(kv[i as int] == (name, kv[i as int].1));
    }
    if let Some(i) = last_index(names(tensors), name) {
        assert(names(tensors)[i as int] == tensors[i as int].name);
    }
}

/// The alignment of the tensor data: what the metadata says, if that is a
/// number other than zero, and the default otherwise.
pub open spec fn alignment_of(kv: Seq<(Seq<char>, ValueView)>) -> usize {
    match lookup_unsigned(kv, GGUF_KEY_ALIGNMENT@) {
        Some(a) => if a as usize != 0 {
            a as usize
        } else {
            GGUF_DEFAULT_ALIGNMENT
        },
        None => GGUF_DEFAULT_ALIGNMENT,
    }
}

/// The least multiple of `align` that is not below `value`.
pub open spec fn round_up(value: nat, align: nat) -> nat {
    (value + align - 1) as nat / align * align
}

/// `n` reduced to the range of `usize`.
pub open spec fn wrapped(n: nat) -> nat {
    if n <= usize::MAX {
        n
    } else {
        (n - usize::MAX - 1) as nat
    }
}

/// Where the tensor data starts: behind the header, padded to the alignment if
/// there are tensors.
pub open spec fn data_start(end: nat, alignment: usize, n_tensors: nat) -> u64 {
    if n_tensors == 0 {
        end as u64
    } else {
        wrapped(round_up(end, alignment as nat)) as u64
    }
}

/// What a file stands for.
#[verifier::ext_equal]
pub struct FileView {
    pub version: u32,
    pub alignment: usize,
    pub data_offset: u64,
    pub kv: Seq<(Seq<char>, ValueView)>,
    pub tensors: Seq<TensorView>,
}

/// What a header that ends at `end` makes of a file.
pub open spec fn file_of(h: HeaderView, end: nat) -> FileView {
    FileView {
        version: h.version,
        alignment: alignment_of(h.kv),
        data_offset: data_start(end, alignment_of(h.kv), h.tensors.len()),
        kv: h.kv,
        tensors: h.tensors,
    }
}

/// What the bytes of a file stand for.
pub open spec fn parse_file(data: Seq<u8>) -> Result<FileView, GgufError> {
    match parse_header(data) {
        Ok((h, end)) => Ok(file_of(h, end)),
        Err(e) => Err(e),
    }
}

} // verus!
