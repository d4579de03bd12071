//! A little-endian cursor over a byte slice.

use vstd::prelude::*;
use vstd::slice::slice_to_vec;
use vstd::utf8;

use crate::gguf::bytes;
use crate::gguf::bytes::Parsed;
use crate::gguf::error::GgufError;
use crate::gguf::field;
use crate::gguf::field::Encoded;
use crate::gguf::grammar;
use crate::gguf::value;
use crate::gguf::header;
use crate::gguf::header::Extent;
use crate::gguf::tensor::TensorInfo;
use crate::gguf::value::{Array, Value};
use crate::types;
use crate::types::{GgmlType, GGML_MAX_DIMS};

verus! {

/// A little-endian cursor over a byte slice with bounds-checked reads.
pub struct Reader<'a> {
    buf: &'a [u8],
    pos: usize,
}

/// A kind of field that a [`Reader`] can read.
pub(crate) trait Readable: Encoded + Sized {
    /// Read the field at the cursor and move behind it.
    fn read(r: &mut Reader<'_>) -> (res: Result<Self, GgufError>)
        requires
            old(r).wf(),
        ensures
            final(r).went_to(*old(r), Self::parse(old(r).data(), old(r).at())),
            gives(res, Self::parse(old(r).data(), old(r).at())),
    ;
}

/// The result of a read is as the format says.
pub open spec fn gives<E: View>(res: Result<E, GgufError>, want: Parsed<E::V>) -> bool {
    match want {
        Ok((v, _)) => res matches Ok(x) && x@ == v,
        Err(e) => res == Err::<E, GgufError>(e),
    }
}

/// A length or count must not be negative.
pub(crate) fn non_negative(v: i64) -> (r: Result<u64, GgufError>)
    ensures
        match r {
            Ok(n) => v >= 0 && n == v,
            Err(e) => v < 0 && e == GgufError::NegativeLength(v),
        },
{
    if v < 0 {
        Err(GgufError::NegativeLength(v))
    } else {
        Ok(v as u64)
    }
}

/// `String::from_utf8`: the text that the bytes encode in UTF-8, or `None`
/// for bytes that are no valid UTF-8.
#[verifier::external_body]
fn string_from_utf8(b: Vec<u8>) -> (r: Option<String>)
    ensures
        match r {
            Some(s) => utf8::valid_utf8(b@) && s@ == utf8::decode_utf8(b@),
            None => !utf8::valid_utf8(b@),
        },
{
    String::from_utf8(b).ok()
}

impl<'a> Reader<'a> {
    /// The bytes that are read from.
    pub closed spec fn data(self) -> Seq<u8> {
        self.buf@
    }

    /// The position of the cursor.
    pub closed spec fn at(self) -> nat {
        self.pos as nat
    }

    /// The cursor is within the bytes.
    pub open spec fn wf(self) -> bool {
        self.at() <= self.data().len()
    }

    /// The cursor stands over the same bytes as before, behind what was read.
    pub open spec fn went_to<V>(self, before: Reader<'a>, read: Parsed<V>) -> bool {
        &&& self.wf()
        &&& self.data() == before.data()
        &&& read matches Ok((_, p)) ==> self.at() == p
    }

    pub(crate) fn new(buf: &'a [u8]) -> (r: Self)
        ensures
            r.wf(),
            r.data() == buf@,
            r.at() == 0,
    {
        Reader { buf, pos: 0 }
    }

    pub(crate) fn pos(&self) -> (r: usize)
        ensures
            r == self.at(),
    {
        self.pos
    }

    pub(crate) fn remaining(&self) -> (r: usize)
        requires
            self.wf(),
        ensures
            r == self.data().len() - self.at(),
    {
        self.buf.len() - self.pos
    }

    /// The next `n` bytes. Where there are fewer, the cursor stays.
    pub(crate) fn take(&mut self, n: u64) -> (r: Result<&'a [u8], GgufError>)
        requires
            old(self).wf(),
        ensures
            final(self).went_to(*old(self), bytes::take(old(self).data(), old(self).at(), n as nat)),
            match bytes::take(old(self).data(), old(self).at(), n as nat) {
                Ok((b, _)) => r matches Ok(s) && s@ == b,
                Err(e) => r == Err::<&'a [u8], GgufError>(e) && final(self).at() == old(self).at(),
            },
    {
        if (self.remaining() as u64) < n {
            let needed: usize = if n <= usize::MAX as u64 {
                n as usize
            } else {
                usize::MAX
            };
            return Err(GgufError::UnexpectedEof { needed, available: self.remaining() });
        }
        assert(self.buf@.len() == self.buf.len());
        let end: usize = self.pos + n as usize;
        let s = &self.buf[self.pos..end];
        self.pos = end;
        Ok(s)
    }

    pub(crate) fn array4(&mut self) -> (r: Result<[u8; 4], GgufError>)
        requires
            old(self).wf(),
        ensures
            final(self).went_to(*old(self), bytes::take(old(self).data(), old(self).at(), 4)),
            match bytes::take(old(self).data(), old(self).at(), 4) {
                Ok((b, _)) => r matches Ok(a) && a@ == b,
                Err(e) => r == Err::<[u8; 4], GgufError>(e) && final(self).at() == old(self).at(),
            },
    {
        let s = self.take(4)?;
        let a = [s[0], s[1], s[2], s[3]];
        assert(a@ =~= s@);
        Ok(a)
    }

    pub(crate) fn u8(&mut self) -> (r: Result<u8, GgufError>)
        requires
            old(self).wf(),
        ensures
            final(self).went_to(*old(self), u8::parse(old(self).data(), old(self).at())),
            gives(r, u8::parse(old(self).data(), old(self).at())),
            r is Err ==> final(self).at() == old(self).at(),
    {
        let b = self.take(1)?;
        proof {
            bytes::lemma_le_value_spelled_out(b@);
        }
        Ok(b[0])
    }

    pub(crate) fn u16(&mut self) -> (r: Result<u16, GgufError>)
        requires
            old(self).wf(),
        ensures
            final(self).went_to(*old(self), u16::parse(old(self).data(), old(self).at())),
            gives(r, u16::parse(old(self).data(), old(self).at())),
            r is Err ==> final(self).at() == old(self).at(),
    {
        let b = self.take(2)?;
        proof {
            bytes::lemma_le_value_spelled_out(b@);
        }
        Ok((b[0] as u16) + 0x100 * (b[1] as u16))
    }

    pub(crate) fn u32(&mut self) -> (r: Result<u32, GgufError>)
        requires
            old(self).wf(),
        ensures
            final(self).went_to(*old(self), u32::parse(old(self).data(), old(self).at())),
            gives(r, u32::parse(old(self).data(), old(self).at())),
            r is Err ==> final(self).at() == old(self).at(),
    {
        let b = self.take(4)?;
        proof {
            bytes::lemma_le_value_spelled_out(b@);
        }
        Ok(
            (b[0] as u32) + 0x100 * (b[1] as u32) + 0x1_0000 * (b[2] as u32) + 0x100_0000 * (
            b[3] as u32),
        )
    }

    pub(crate) fn u64(&mut self) -> (r: Result<u64, GgufError>)
        requires
            old(self).wf(),
        ensures
            final(self).went_to(*old(self), u64::parse(old(self).data(), old(self).at())),
            gives(r, u64::parse(old(self).data(), old(self).at())),
            r is Err ==> final(self).at() == old(self).at(),
    {
        let b = self.take(8)?;
        proof {
            bytes::lemma_le_value_spelled_out(b@);
        }
        Ok(
            (b[0] as u64) + 0x100 * (b[1] as u64) + 0x1_0000 * (b[2] as u64) + 0x100_0000 * (
            b[3] as u64) + 0x1_0000_0000 * (b[4] as u64) + 0x100_0000_0000 * (b[5] as u64)
                + 0x1_0000_0000_0000 * (b[6] as u64) + 0x100_0000_0000_0000 * (b[7] as u64),
        )
    }

    pub(crate) fn i8(&mut self) -> (r: Result<i8, GgufError>)
        requires
            old(self).wf(),
        ensures
            final(self).went_to(*old(self), i8::parse(old(self).data(), old(self).at())),
            gives(r, i8::parse(old(self).data(), old(self).at())),
            r is Err ==> final(self).at() == old(self).at(),
    {
        proof {
            bytes::lemma_pow256();
            bytes::lemma_uint_consumed(self.data(), self.at(), 1);
        }
        let v: u8 = self.u8()?;
        assert(if v < 0x80 {
            v as i8 == v
        } else {
            v as i8 == v - 0x100
        }) by (bit_vector);
        Ok(v as i8)
    }

    pub(crate) fn i16(&mut self) -> (r: Result<i16, GgufError>)
        requires
            old(self).wf(),
        ensures
            final(self).went_to(*old(self), i16::parse(old(self).data(), old(self).at())),
            gives(r, i16::parse(old(self).data(), old(self).at())),
            r is Err ==> final(self).at() == old(self).at(),
    {
        proof {
            bytes::lemma_pow256();
            bytes::lemma_uint_consumed(self.data(), self.at(), 2);
        }
        let v: u16 = self.u16()?;
        assert(if v < 0x8000 {
            v as i16 == v
        } else {
            v as i16 == v - 0x1_0000
        }) by (bit_vector);
        Ok(v as i16)
    }

    pub(crate) fn i32(&mut self) -> (r: Result<i32, GgufError>)
        requires
            old(self).wf(),
        ensures
            final(self).went_to(*old(self), i32::parse(old(self).data(), old(self).at())),
            gives(r, i32::parse(old(self).data(), old(self).at())),
            r is Err ==> final(self).at() == old(self).at(),
    {
        proof {
            bytes::lemma_pow256();
            bytes::lemma_uint_consumed(self.data(), self.at(), 4);
        }
        let v: u32 = self.u32()?;
        assert(if v < 0x8000_0000 {
            v as i32 == v
        } else {
            v as i32 == v - 0x1_0000_0000
        }) by (bit_vector);
        Ok(v as i32)
    }

    pub(crate) fn i64(&mut self) -> (r: Result<i64, GgufError>)
        requires
            old(self).wf(),
        ensures
            final(self).went_to(*old(self), i64::parse(old(self).data(), old(self).at())),
            gives(r, i64::parse(old(self).data(), old(self).at())),
            r is Err ==> final(self).at() == old(self).at(),
    {
        proof {
            bytes::lemma_pow256();
            bytes::lemma_uint_consumed(self.data(), self.at(), 8);
        }
        let v: u64 = self.u64()?;
        assert(if v < 0x8000_0000_0000_0000 {
            v as i64 == v
        } else {
            v as i64 == v - 0x1_0000_0000_0000_0000
        }) by (bit_vector);
        Ok(v as i64)
    }

    pub(crate) fn bool(&mut self) -> (r: Result<bool, GgufError>)
        requires
            old(self).wf(),
        ensures
            final(self).went_to(*old(self), bool::parse(old(self).data(), old(self).at())),
            gives(r, bool::parse(old(self).data(), old(self).at())),
            r is Err ==> final(self).at() == old(self).at(),
    {
        proof {
            bytes::lemma_pow256();
            bytes::lemma_uint_consumed(self.data(), self.at(), 1);
        }
        Ok(self.u8()? != 0)
    }

    /// A length or count.
    pub(crate) fn length(&mut self) -> (r: Result<u64, GgufError>)
        requires
            old(self).wf(),
        ensures
            final(self).went_to(
                *old(self),
                field::parse_length(old(self).data(), old(self).at()),
            ),
            match field::parse_length(old(self).data(), old(self).at()) {
                Ok((n, _)) => r matches Ok(x) && x == n,
                Err(e) => r == Err::<u64, GgufError>(e),
            },
    {
        let v: i64 = self.i64()?;
        non_negative(v)
    }

    pub(crate) fn string(&mut self) -> (r: Result<String, GgufError>)
        requires
            old(self).wf(),
        ensures
            final(self).went_to(*old(self), String::parse(old(self).data(), old(self).at())),
            gives(r, String::parse(old(self).data(), old(self).at())),
    {
        let len: u64 = self.length()?;
        let b = self.take(len)?;
        match string_from_utf8(slice_to_vec(b)) {
            Some(s) => Ok(s),
            None => Err(GgufError::InvalidUtf8),
        }
    }

    /// `n` fields of one kind, one behind the other.
    pub(crate) fn read_vec<E: Readable>(&mut self, n: u64) -> (r: Result<Vec<E>, GgufError>)
        requires
            old(self).wf(),
        ensures
            final(self).went_to(
                *old(self),
                grammar::parse_n::<E>(old(self).data(), old(self).at(), n as nat),
            ),
            match grammar::parse_n::<E>(old(self).data(), old(self).at(), n as nat) {
                Ok((vs, _)) => r matches Ok(v) && value::views(v@) == vs,
                Err(e) => r == Err::<Vec<E>, GgufError>(e),
            },
    {
        let ghost data = self.data();
        let ghost start = self.at();
        // A corrupt count must not decide how much memory is set aside: no
        // field is shorter than a byte.
        let left: usize = self.remaining();
        let cap: usize = if n < left as u64 {
            n as usize
        } else {
            left
        };
        let mut v: Vec<E> = Vec::with_capacity(cap);
        let mut i: u64 = 0;
        assert(value::views(v@) =~= Seq::<E::V>::empty());
        while i < n
            invariant
                i <= n,
                self.wf(),
                self.data() == data,
                data == old(self).data(),
                start == old(self).at(),
                grammar::parse_n::<E>(data, start, i as nat) == Ok::<(Seq<E::V>, nat), GgufError>(
                    (value::views(v@), self.at()),
                ),
            decreases n - i,
        {
            let ghost before = v@;
            let ghost p = self.at();
            match E::read(self) {
                Ok(x) => {
                    v.push(x);
                    assert(value::views(v@) =~= value::views(before).push(x@));
                },
                Err(e) => {
                    proof {
                        grammar::lemma_n_fails::<E>(data, start, (i + 1) as nat, n as nat);
                    }
                    return Err(e);
                },
            }
            i = i + 1;
        }
        Ok(v)
    }

    /// The extents of a tensor.
    pub(crate) fn extents(&mut self, n_dims: u32) -> (r: Result<Vec<u64>, GgufError>)
        requires
            old(self).wf(),
        ensures
            final(self).went_to(
                *old(self),
                grammar::parse_n::<Extent>(old(self).data(), old(self).at(), n_dims as nat),
            ),
            gives(r, grammar::parse_n::<Extent>(old(self).data(), old(self).at(), n_dims as nat)),
    {
        let ghost data = self.data();
        let ghost start = self.at();
        let mut dims: Vec<u64> = Vec::with_capacity(n_dims as usize);
        let mut i: u32 = 0;
        while i < n_dims
            invariant
                i <= n_dims,
                self.wf(),
                self.data() == data,
                data == old(self).data(),
                start == old(self).at(),
                grammar::parse_n::<Extent>(data, start, i as nat) == Ok::<
                    (Seq<u64>, nat),
                    GgufError,
                >((dims@, self.at())),
            decreases n_dims - i,
        {
            match Extent::read(self) {
                Ok(x) => dims.push(x.0),
                Err(e) => {
                    proof {
                        grammar::lemma_n_fails::<Extent>(
                            data,
                            start,
                            (i + 1) as nat,
                            n_dims as nat,
                        );
                    }
                    return Err(e);
                },
            }
            i = i + 1;
        }
        Ok(dims)
    }

    /// Read a value of the given type code. Nothing is read for an unknown code.
    pub(crate) fn value(&mut self, ty: u32) -> (r: Result<Value, GgufError>)
        requires
            old(self).wf(),
        ensures
            final(self).went_to(
                *old(self),
                grammar::parse_value(ty, old(self).data(), old(self).at()),
            ),
            gives(r, grammar::parse_value(ty, old(self).data(), old(self).at())),
            ty > 12 ==> final(self).at() == old(self).at(),
    {
        match ty {
            0 => Ok(Value::U8(self.u8()?)),
            1 => Ok(Value::I8(self.i8()?)),
            2 => Ok(Value::U16(self.u16()?)),
            3 => Ok(Value::I16(self.i16()?)),
            4 => Ok(Value::U32(self.u32()?)),
            5 => Ok(Value::I32(self.i32()?)),
            6 => Ok(Value::F32(self.u32()?)),
            7 => Ok(Value::Bool(self.bool()?)),
            8 => Ok(Value::String(self.string()?)),
            9 => Ok(Value::Array(self.array()?)),
            10 => Ok(Value::U64(self.u64()?)),
            11 => Ok(Value::I64(self.i64()?)),
            12 => Ok(Value::F64(self.u64()?)),
            other => Err(GgufError::UnknownValueType(other)),
        }
    }

    pub(crate) fn array(&mut self) -> (r: Result<Array, GgufError>)
        requires
            old(self).wf(),
        ensures
            final(self).went_to(*old(self), Array::parse(old(self).data(), old(self).at())),
            gives(r, Array::parse(old(self).data(), old(self).at())),
    {
        let ty: u32 = self.u32()?;
        let n: u64 = self.length()?;
        match ty {
            0 => {
                let v = self.read_vec::<u8>(n)?;
                assert(value::views(v@) =~= v@);
                Ok(Array::U8(v))
            },
            1 => {
                let v = self.read_vec::<i8>(n)?;
                assert(value::views(v@) =~= v@);
                Ok(Array::I8(v))
            },
            2 => {
                let v = self.read_vec::<u16>(n)?;
                assert(value::views(v@) =~= v@);
                Ok(Array::U16(v))
            },
            3 => {
                let v = self.read_vec::<i16>(n)?;
                assert(value::views(v@) =~= v@);
                Ok(Array::I16(v))
            },
            4 => {
                let v = self.read_vec::<u32>(n)?;
                assert(value::views(v@) =~= v@);
                Ok(Array::U32(v))
            },
            5 => {
                let v = self.read_vec::<i32>(n)?;
                assert(value::views(v@) =~= v@);
                Ok(Array::I32(v))
            },
            6 => {
                let v = self.read_vec::<u32>(n)?;
                assert(value::views(v@) =~= v@);
                Ok(Array::F32(v))
            },
            7 => {
                let v = self.read_vec::<bool>(n)?;
                assert(value::views(v@) =~= v@);
                Ok(Array::Bool(v))
            },
            8 => Ok(Array::String(self.read_vec::<String>(n)?)),
            10 => {
                let v = self.read_vec::<u64>(n)?;
                assert(value::views(v@) =~= v@);
                Ok(Array::U64(v))
            },
            11 => {
                let v = self.read_vec::<i64>(n)?;
                assert(value::views(v@) =~= v@);
                Ok(Array::I64(v))
            },
            12 => {
                let v = self.read_vec::<u64>(n)?;
                assert(value::views(v@) =~= v@);
                Ok(Array::F64(v))
            },
            9 => Err(GgufError::NestedArray),
            other => Err(GgufError::UnknownValueType(other)),
        }
    }
}

impl Readable for u8 {
    fn read(r: &mut Reader<'_>) -> (res: Result<u8, GgufError>) {
        r.u8()
    }
}

impl Readable for i8 {
    fn read(r: &mut Reader<'_>) -> (res: Result<i8, GgufError>) {
        r.i8()
    }
}

impl Readable for u16 {
    fn read(r: &mut Reader<'_>) -> (res: Result<u16, GgufError>) {
        r.u16()
    }
}

impl Readable for i16 {
    fn read(r: &mut Reader<'_>) -> (res: Result<i16, GgufError>) {
        r.i16()
    }
}

impl Readable for u32 {
    fn read(r: &mut Reader<'_>) -> (res: Result<u32, GgufError>) {
        r.u32()
    }
}

impl Readable for i32 {
    fn read(r: &mut Reader<'_>) -> (res: Result<i32, GgufError>) {
        r.i32()
    }
}

impl Readable for bool {
    fn read(r: &mut Reader<'_>) -> (res: Result<bool, GgufError>) {
        r.bool()
    }
}

impl Readable for String {
    fn read(r: &mut Reader<'_>) -> (res: Result<String, GgufError>) {
        r.string()
    }
}

impl Readable for u64 {
    fn read(r: &mut Reader<'_>) -> (res: Result<u64, GgufError>) {
        r.u64()
    }
}

impl Readable for i64 {
    fn read(r: &mut Reader<'_>) -> (res: Result<i64, GgufError>) {
        r.i64()
    }
}

impl Readable for (String, Value) {
    fn read(r: &mut Reader<'_>) -> (res: Result<(String, Value), GgufError>) {
        let key = r.string()?;
        let ty: u32 = r.u32()?;
        let value = r.value(ty)?;
        Ok((key, value))
    }
}

impl Readable for Extent {
    fn read(r: &mut Reader<'_>) -> (res: Result<Extent, GgufError>) {
        Ok(Extent(r.length()?))
    }
}

impl Readable for TensorInfo {
    fn read(r: &mut Reader<'_>) -> (res: Result<TensorInfo, GgufError>) {
        let name = r.string()?;
        let n_dims: u32 = r.u32()?;
        if n_dims == 0 {
            return Err(GgufError::NoDims);
        }
        if n_dims as usize > GGML_MAX_DIMS {
            return Err(GgufError::TooManyDims(n_dims));
        }
        let dims = r.extents(n_dims)?;
        let code: i32 = r.i32()?;
        match GgmlType::from_i32(code) {
            Some(ty) => {
                assert(header::type_with_code(code) == Some(ty)) by {
                    let t = choose|t: GgmlType| #[trigger] t.code() == code;
                    types::law_codes_are_distinct(t, ty);
                }
                let offset: u64 = r.u64()?;
                Ok(TensorInfo { name, dims, ty, offset })
            },
            None => Err(GgufError::UnknownTensorType(code)),
        }
    }
}

} // verus!
