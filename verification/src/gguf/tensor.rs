//! Tensor records.

use vstd::prelude::*;

use crate::types::GgmlType;

verus! {

/// Metadata for a single tensor. Its data lives `offset` bytes into the data
/// blob of the file.
#[derive(Debug, PartialEq)]
pub struct TensorInfo {
    pub name: String,
    /// Extents per dimension, innermost first, length 1..=4.
    pub dims: Vec<u64>,
    pub ty: GgmlType,
    /// Byte offset of this tensor within the (aligned) data blob.
    pub offset: u64,
}

/// What a [`TensorInfo`] stands for.
#[verifier::ext_equal]
pub struct TensorView {
    pub name: Seq<char>,
    pub dims: Seq<u64>,
    pub ty: GgmlType,
    pub offset: u64,
}

impl View for TensorInfo {
    type V = TensorView;

    open spec fn view(&self) -> TensorView {
        TensorView { name: self.name@, dims: self.dims@, ty: self.ty, offset: self.offset }
    }
}

impl Clone for TensorInfo {
    fn clone(&self) -> (r: TensorInfo)
        ensures
            r@ == self@,
    {
        let dims = self.dims.clone();
        assert(dims@ =~= self.dims@);
        TensorInfo { name: self.name.clone(), dims, ty: self.ty, offset: self.offset }
    }
}

/// The product of extents.
pub open spec fn product(dims: Seq<u64>) -> nat
    decreases dims.len(),
{
    if dims.len() == 0 {
        1
    } else {
        product(dims.drop_last()) * dims.last() as nat
    }
}

/// The product of the first few extents fits in a `u64`, however many are
/// taken.
pub open spec fn products_fit(dims: Seq<u64>) -> bool {
    forall|i: int| 0 <= i <= dims.len() ==> #[trigger] product(dims.take(i)) <= u64::MAX
}

/// The size in bytes of a tensor whose rows lie one behind the other.
pub open spec fn packed_size(ty: GgmlType, dims: Seq<u64>) -> int {
    if dims.len() == 0 {
        0
    } else {
        ty.row_bytes(dims[0] as i64) * product(dims.skip(1))
    }
}

/// The product of extents from position `from` on.
fn product_from(dims: &Vec<u64>, from: usize) -> (r: u64)
    requires
        from <= dims@.len(),
        products_fit(dims@.skip(from as int)),
    ensures
        r == product(dims@.skip(from as int)),
{
    let ghost rest = dims@.skip(from as int);
    let mut r: u64 = 1;
    let mut i: usize = from;
    while i < dims.len()
        invariant
            from <= i <= dims.len(),
            rest == dims@.skip(from as int),
            products_fit(rest),
            r == product(rest.take(i - from)),
        decreases dims.len() - i,
    {
        proof {
            let next = rest.take(i - from + 1);
            assert(next.drop_last() =~= rest.take(i - from));
            assert(next.last() == dims@[i as int]);
            assert(product(next) <= u64::MAX);
        }
        r = r * dims[i];
        i = i + 1;
    }
    assert(rest.take(i - from) =~= rest);
    r
}

impl TensorInfo {
    /// Total number of elements (product of `dims`).
    pub fn n_elements(&self) -> (r: u64)
        requires
            products_fit(self.dims@),
        ensures
            r == product(self.dims@),
    {
        assert(self.dims@.skip(0) =~= self.dims@);
        product_from(&self.dims, 0)
    }

    /// Size of the tensor's data in bytes, assuming the contiguous packed
    /// layout that GGUF stores.
    pub fn n_bytes(&self) -> (r: usize)
        requires
            self.dims@.len() > 0 ==> {
                &&& (self.dims@[0] as i64) as int % self.ty.elements_per_block() == 0
                &&& self.ty.bytes_per_block() * ((self.dims@[0] as i64) as usize) <= usize::MAX
                &&& products_fit(self.dims@.skip(1))
                &&& product(self.dims@.skip(1)) <= usize::MAX
                &&& packed_size(self.ty, self.dims@) <= usize::MAX
            },
        ensures
            r == packed_size(self.ty, self.dims@),
            self.dims@.len() == 0 ==> r == 0,
    {
        if self.dims.len() == 0 {
            return 0;
        }
        let row: usize = self.ty.row_size(self.dims[0] as i64);
        let n_rows: u64 = product_from(&self.dims, 1);
        row * (n_rows as usize)
    }
}

proof fn lemma_product_first(dims: Seq<u64>)
    requires
        dims.len() > 0,
    ensures
        product(dims) == dims[0] as nat * product(dims.skip(1)),
    decreases dims.len(),
{
    let rest = dims.skip(1);
    if dims.len() == 1 {
        assert(dims.drop_last() =~= Seq::empty());
        assert(product(dims.drop_last()) == 1);
        assert(product(rest) == 1);
    } else {
        let front = dims.drop_last();
        lemma_product_first(front);
        assert(front.skip(1) =~= rest.drop_last());
        assert(rest.last() == dims.last());
        let a = dims[0] as nat;
        let b = product(rest.drop_last());
        let c = dims.last() as nat;
        assert((a * b) * c == a * (b * c)) by (nonlinear_arith);
    }
}

/// A tensor of whole blocks takes, for each block of elements, the bytes of a
/// block: neither more nor less.
pub proof fn law_packed_size(ty: GgmlType, dims: Seq<u64>)
    requires
        dims.len() > 0,
        dims[0] <= i64::MAX,
        dims[0] <= usize::MAX,
        dims[0] as int % ty.elements_per_block() == 0,
    ensures
        packed_size(ty, dims) * ty.elements_per_block() == product(dims) * ty.bytes_per_block(),
{
    lemma_product_first(dims);
    let n = dims[0] as int;
    let block = ty.elements_per_block();
    let bytes = ty.bytes_per_block();
    let rows = product(dims.skip(1)) as int;
    crate::types::lemma_whole_blocks(bytes, n, block);
    vstd::arithmetic::div_mod::lemma_fundamental_div_mod(n, block);
    let q = n / block;
    assert((bytes * q) * rows * block == ((block * q) * rows) * bytes) by (nonlinear_arith);
}

/// The product of no extents is one, that of one is itself, and extents behind
/// others multiply theirs.
pub proof fn law_product(a: Seq<u64>, b: Seq<u64>, d: u64)
    ensures
        product(Seq::empty()) == 1,
        product(seq![d]) == d,
        product(a + b) == product(a) * product(b),
    decreases b.len(),
{
    assert(seq![d].drop_last() =~= Seq::empty());
    assert(product(seq![d]) == product(seq![d].drop_last()) * d as nat);
    assert(1 * (d as nat) == d);
    if b.len() == 0 {
        assert(a + b =~= a);
        assert(product(b) == 1);
        assert(product(a) * 1 == product(a));
    } else {
        law_product(a, b.drop_last(), d);
        assert((a + b).drop_last() =~= a + b.drop_last());
        assert((a + b).last() == b.last());
        let x = product(a);
        let y = product(b.drop_last());
        let z = b.last() as nat;
        assert((x * y) * z == x * (y * z)) by (nonlinear_arith);
    }
}

/// What a record stands for.
pub proof fn law_tensor_view(t: TensorInfo)
    ensures
        t@.name == t.name@,
        t@.dims == t.dims@,
        t@.ty == t.ty,
        t@.offset == t.offset,
{
}

} // verus!
