//! A parsed GGUF file.

use vstd::hash_map::StringHashMap;
use vstd::prelude::*;

use crate::gguf::error::GgufError;
use crate::gguf::header;
use crate::gguf::header::{
    FileView, GGUF_DEFAULT_ALIGNMENT, GGUF_KEY_ALIGNMENT, GGUF_MAGIC, GGUF_VERSION,
    GGUF_VERSION_MIN,
};
use crate::gguf::laws;
use crate::gguf::reader::Reader;
use crate::gguf::tensor::TensorInfo;
use crate::gguf::value;
use crate::gguf::value::{Value, ValueView};

verus! {

/// A parsed GGUF file's header, metadata and tensor table.
pub struct Gguf {
    version: u32,
    alignment: usize,
    data_offset: u64,
    kv: Vec<(String, Value)>,
    kv_index: StringHashMap<usize>,
    tensors: Vec<TensorInfo>,
    tensor_index: StringHashMap<usize>,
}

/// The index gives for each name its last position among the names.
spec fn indexes(index: Map<Seq<char>, usize>, names: Seq<Seq<char>>) -> bool {
    forall|name: Seq<char>|
        match header::last_index(names, name) {
            Some(i) => #[trigger] index.contains_key(name) && index[name] == i,
            None => !index.contains_key(name),
        }
}

/// The least multiple of `align` that is not below `value`, wrapping around at
/// the end of the range.
pub(crate) fn align_up(value: usize, align: usize) -> (r: usize)
    requires
        align != 0,
    ensures
        r == header::wrapped(header::round_up(value as nat, align as nat)),
{
    let rem: usize = value % align;
    proof {
        lemma_round_up(value as nat, align as nat);
    }
    if rem == 0 {
        value
    } else {
        value.wrapping_add(align - rem)
    }
}

pub(crate) proof fn lemma_round_up(value: nat, align: nat)
    requires
        align > 0,
    ensures
        value % align == 0 ==> header::round_up(value, align) == value,
        value % align != 0 ==> header::round_up(value, align) == value + align - value % align,
{
    let q = value / align;
    let rem = value % align;
    vstd::arithmetic::div_mod::lemma_fundamental_div_mod(value as int, align as int);
    let up = if rem == 0 { q } else { q + 1 };
    let over = if rem == 0 { (align - 1) as int } else { rem - 1 };
    assert(value + align - 1 == align * up + over) by (nonlinear_arith)
        requires
            value == align * q + rem,
            up == if rem == 0 { q } else { q + 1 },
            over == if rem == 0 { (align - 1) as int } else { rem - 1 },
    ;
    vstd::arithmetic::div_mod::lemma_fundamental_div_mod_converse(
        value + align - 1,
        align as int,
        up as int,
        over,
    );
    assert(up * align == value + (if rem == 0 { 0 } else { align - rem })) by (nonlinear_arith)
        requires
            value == align * q + rem,
            up == if rem == 0 { q } else { q + 1 },
    ;
}

/// The positions of the keys of metadata entries.
fn index_entries(kv: &Vec<(String, Value)>) -> (index: StringHashMap<usize>)
    ensures
        indexes(index@, header::keys(value::views(kv@))),
{
    let mut index: StringHashMap<usize> = StringHashMap::with_capacity(kv.len());
    let ghost all = header::keys(value::views(kv@));
    let mut i: usize = 0;
    while i < kv.len()
        invariant
            i <= kv.len(),
            all == header::keys(value::views(kv@)),
            indexes(index@, all.take(i as int)),
        decreases kv.len() - i,
    {
        index.insert(kv[i].0.clone(), i);
        assert(all.take(i + 1).drop_last() =~= all.take(i as int));
        i = i + 1;
    }
    assert(all.take(i as int) =~= all);
    index
}

/// The positions of the names of tensors.
fn index_tensors(tensors: &Vec<TensorInfo>) -> (index: StringHashMap<usize>)
    ensures
        indexes(index@, header::names(value::views(tensors@))),
{
    let mut index: StringHashMap<usize> = StringHashMap::with_capacity(tensors.len());
    let ghost all = header::names(value::views(tensors@));
    let mut i: usize = 0;
    while i < tensors.len()
        invariant
            i <= tensors.len(),
            all == header::names(value::views(tensors@)),
            indexes(index@, all.take(i as int)),
        decreases tensors.len() - i,
    {
        index.insert(tensors[i].name.clone(), i);
        assert(all.take(i + 1).drop_last() =~= all.take(i as int));
        i = i + 1;
    }
    assert(all.take(i as int) =~= all);
    index
}

impl View for Gguf {
    type V = FileView;

    closed spec fn view(&self) -> FileView {
        FileView {
            version: self.version,
            alignment: self.alignment,
            data_offset: self.data_offset,
            kv: value::views(self.kv@),
            tensors: value::views(self.tensors@),
        }
    }
}

impl Clone for Gguf {
    fn clone(&self) -> (r: Gguf)
        ensures
            r@ == self@,
    {
        let mut kv: Vec<(String, Value)> = Vec::with_capacity(self.kv.len());
        let mut i: usize = 0;
        while i < self.kv.len()
            invariant
                i <= self.kv.len(),
                kv@.len() == i,
                forall|j: int| 0 <= j < i ==> #[trigger] kv@[j]@ == self.kv@[j]@,
            decreases self.kv.len() - i,
        {
            kv.push((self.kv[i].0.clone(), self.kv[i].1.clone()));
            i = i + 1;
        }
        let mut tensors: Vec<TensorInfo> = Vec::with_capacity(self.tensors.len());
        i = 0;
        while i < self.tensors.len()
            invariant
                i <= self.tensors.len(),
                tensors@.len() == i,
                forall|j: int| 0 <= j < i ==> #[trigger] tensors@[j]@ == self.tensors@[j]@,
            decreases self.tensors.len() - i,
        {
            tensors.push(self.tensors[i].clone());
            i = i + 1;
        }
        assert(value::views(kv@) =~= value::views(self.kv@));
        assert(value::views(tensors@) =~= value::views(self.tensors@));
        let kv_index = index_entries(&kv);
        let tensor_index = index_tensors(&tensors);
        Gguf {
            version: self.version,
            alignment: self.alignment,
            data_offset: self.data_offset,
            kv,
            kv_index,
            tensors,
            tensor_index,
        }
    }
}

impl Gguf {
    #[verifier::type_invariant]
    spec fn indexed(self) -> bool {
        &&& indexes(self.kv_index@, header::keys(value::views(self.kv@)))
        &&& indexes(self.tensor_index@, header::names(value::views(self.tensors@)))
    }

    /// Parse a GGUF file from an in-memory buffer.
    pub fn from_bytes(data: &[u8]) -> (r: Result<Gguf, GgufError>)
        ensures
            match header::parse_file(data@) {
                Ok(file) => r matches Ok(g) && g@ == file,
                Err(e) => r == Err::<Gguf, GgufError>(e),
            },
            r matches Err(GgufError::UnexpectedEof { needed, available }) ==> available < needed,
    {
        assert(data@.len() == data.len());
        proof {
            laws::law_end_of_file(data@);
        }
        let mut r = Reader::new(data);

        let magic = r.array4()?;
        if magic[0] != GGUF_MAGIC[0] || magic[1] != GGUF_MAGIC[1] || magic[2] != GGUF_MAGIC[2]
            || magic[3] != GGUF_MAGIC[3] {
            proof {
                let m = magic@;
                assert(m[0] != GGUF_MAGIC@[0] || m[1] != GGUF_MAGIC@[1] || m[2] != GGUF_MAGIC@[2]
                    || m[3] != GGUF_MAGIC@[3]);
                assert(magic =~= [m[0], m[1], m[2], m[3]]);
            }
            return Err(GgufError::BadMagic(magic));
        }
        assert(magic@ =~= GGUF_MAGIC@);
        let version: u32 = r.u32()?;
        if version < GGUF_VERSION_MIN || version > GGUF_VERSION {
            return Err(GgufError::UnsupportedVersion(version));
        }
        let n_tensors: u64 = r.length()?;
        let n_kv: u64 = r.length()?;

        let kv = r.read_vec::<(String, Value)>(n_kv)?;
        let tensors = r.read_vec::<TensorInfo>(n_tensors)?;
        let kv_index = index_entries(&kv);
        let tensor_index = index_tensors(&tensors);

        // Alignment may be overridden by metadata.
        let mut alignment: usize = GGUF_DEFAULT_ALIGNMENT;
        proof {
            header::law_last_index(header::keys(value::views(kv@)), GGUF_KEY_ALIGNMENT@);
        }
        if let Some(i) = kv_index.get(GGUF_KEY_ALIGNMENT) {
            if let Some(a) = kv[*i].1.as_u64() {
                if a as usize != 0 {
                    alignment = a as usize;
                }
            }
        }

        // The data blob starts after the metadata, padded to `alignment` only
        // when the file actually contains tensors.
        let meta_end: usize = r.pos();
        let data_offset: u64 = if tensors.len() == 0 {
            meta_end as u64
        } else {
            align_up(meta_end, alignment) as u64
        };

        Ok(Gguf { version, alignment, data_offset, kv, kv_index, tensors, tensor_index })
    }

    /// GGUF format version.
    pub fn version(&self) -> (r: u32)
        ensures
            r == self@.version,
    {
        self.version
    }

    /// Tensor-data alignment in bytes.
    pub fn alignment(&self) -> (r: usize)
        ensures
            r == self@.alignment,
    {
        self.alignment
    }

    /// Byte offset at which the tensor-data blob begins.
    pub fn data_offset(&self) -> (r: u64)
        ensures
            r == self@.data_offset,
    {
        self.data_offset
    }

    /// All metadata key-value pairs, in file order.
    pub fn metadata(&self) -> (r: &[(String, Value)])
        ensures
            value::views(r@) == self@.kv,
    {
        self.kv.as_slice()
    }

    /// Look up a metadata value by key. Of several entries with the key the
    /// last one counts.
    pub fn get(&self, key: &str) -> (r: Option<&Value>)
        ensures
            match r {
                Some(v) => header::lookup(self@.kv, key@) == Some(v@),
                None => header::lookup(self@.kv, key@) is None,
            },
    {
        proof {
            use_type_invariant(self);
            header::law_last_index(header::keys(value::views(self.kv@)), key@);
        }
        match self.kv_index.get(key) {
            Some(i) => Some(&self.kv[*i].1),
            None => None,
        }
    }

    /// Convenience: look up a string-valued metadata entry.
    pub fn get_str(&self, key: &str) -> (r: Option<&str>)
        ensures
            match r {
                Some(s) => header::lookup_text(self@.kv, key@) == Some(s@),
                None => header::lookup_text(self@.kv, key@) is None,
            },
            match header::lookup(self@.kv, key@) {
                Some(ValueView::String(text)) => r matches Some(s) && s@ == text,
                _ => r is None,
            },
    {
        match self.get(key) {
            Some(v) => v.as_str(),
            None => None,
        }
    }

    /// Convenience: look up an integer-valued metadata entry as `u64`.
    pub fn get_u64(&self, key: &str) -> (r: Option<u64>)
        ensures
            r == header::lookup_unsigned(self@.kv, key@),
            match header::lookup(self@.kv, key@) {
                Some(v) => r == v.unsigned(),
                None => r is None,
            },
    {
        match self.get(key) {
            Some(v) => v.as_u64(),
            None => None,
        }
    }

    /// All tensor-info records, in file order.
    pub fn tensors(&self) -> (r: &[TensorInfo])
        ensures
            value::views(r@) == self@.tensors,
    {
        self.tensors.as_slice()
    }

    /// Look up a tensor by name. Of several tensors with the name the last one
    /// counts.
    pub fn tensor(&self, name: &str) -> (r: Option<&TensorInfo>)
        ensures
            match r {
                Some(t) => header::lookup_tensor(self@.tensors, name@) == Some(t@),
                None => header::lookup_tensor(self@.tensors, name@) is None,
            },
    {
        proof {
            use_type_invariant(self);
            header::law_last_index(header::names(value::views(self.tensors@)), name@);
        }
        match self.tensor_index.get(name) {
            Some(i) => Some(&self.tensors[*i]),
            None => None,
        }
    }
}

} // verus!
