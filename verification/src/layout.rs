//! Tensor memory layout: extents and byte strides.

use vstd::prelude::*;

use crate::gguf::tensor;
use crate::types;
use crate::types::{GgmlType, GGML_MAX_DIMS};

verus! {

/// Tensor memory layout: element extents (`ne`) and byte strides (`nb`) per
/// dimension, and the element type (`ty`).
///
/// `ne[0]` is the fastest-moving dimension and `nb[0]` is the byte distance
/// between consecutive blocks along it.
#[derive(Clone, Copy, Debug, PartialEq, Eq, Hash)]
pub struct TensorLayout {
    /// Element type.
    pub ty: GgmlType,
    /// Number of elements along each axis.
    pub ne: [i64; GGML_MAX_DIMS],
    /// Byte stride along each axis.
    pub nb: [usize; GGML_MAX_DIMS],
}

/// The stride of dimension `k` in a contiguous layout: a block, a row, and
/// from there on as many of the dimension before as it has.
pub open spec fn stride(ty: GgmlType, ne: Seq<i64>, k: nat) -> int
    decreases k,
{
    if k == 0 {
        ty.bytes_per_block()
    } else if k == 1 {
        ty.row_bytes(ne[0])
    } else {
        stride(ty, ne, (k - 1) as nat) * (ne[k - 1] as usize)
    }
}

impl TensorLayout {
    /// Build a contiguous (row-major, block-packed) layout for a tensor of
    /// element type `ty` and extents `ne`.
    ///
    /// ```text
    /// nb[0] = type_size
    /// nb[1] = nb[0] * ne[0] / block_size
    /// nb[k] = nb[k-1] * ne[k-1]      for k >= 2
    /// ```
    ///
    /// `ne[0]` must be a multiple of the block size.
    pub fn contiguous(ty: GgmlType, ne: [i64; GGML_MAX_DIMS]) -> (r: Self)
        requires
            ne@[0] as int % ty.elements_per_block() == 0,
            ty.bytes_per_block() * (ne@[0] as usize) <= usize::MAX,
            forall|k: nat| 2 <= k < GGML_MAX_DIMS ==> #[trigger] stride(ty, ne@, k) <= usize::MAX,
        ensures
            r.ty == ty,
            r.ne == ne,
            forall|k: int|
                0 <= k < GGML_MAX_DIMS ==> #[trigger] r.nb@[k] == stride(ty, ne@, k as nat),
            r.nb@[0] == ty.bytes_per_block(),
            0 <= ne@[0] <= usize::MAX ==> r.nb@[1] * ty.elements_per_block() == ne@[0]
                * ty.bytes_per_block(),
            0 <= ne@[1] <= usize::MAX ==> r.nb@[2] == r.nb@[1] * ne@[1],
            0 <= ne@[2] <= usize::MAX ==> r.nb@[3] == r.nb@[2] * ne@[2],
    {
        let blck: usize = ty.block_size() as usize;
        let mut nb: [usize; GGML_MAX_DIMS] = [0;GGML_MAX_DIMS];
        nb[0] = ty.type_size();
        nb[1] = nb[0] * (ne[0] as usize) / blck;
        let mut k: usize = 2;
        while k < GGML_MAX_DIMS
            invariant
                2 <= k <= GGML_MAX_DIMS,
                forall|i: nat|
                    2 <= i < GGML_MAX_DIMS ==> #[trigger] stride(ty, ne@, i) <= usize::MAX,
                forall|i: int| 0 <= i < k ==> #[trigger] nb@[i] == stride(ty, ne@, i as nat),
            decreases GGML_MAX_DIMS - k,
        {
            assert(stride(ty, ne@, k as nat) == nb@[k - 1] * (ne@[k - 1] as usize));
            nb[k] = nb[k - 1] * (ne[k - 1] as usize);
            k = k + 1;
        }
        proof {
            if 0 <= ne@[0] <= usize::MAX {
                types::law_row_bytes(ty, ne@[0]);
            }
            assert(nb@[0] == stride(ty, ne@, 0));
            assert(nb@[1] == stride(ty, ne@, 1));
            assert(nb@[2] == stride(ty, ne@, 2));
            assert(nb@[3] == stride(ty, ne@, 3));
        }
        TensorLayout { ty, ne, nb }
    }
}

/// The strides of a contiguous layout grow to the packed size of the tensor: the
/// last stride times its extent is all of the tensor's bytes. A tensor with
/// fewer dimensions than a layout has one element along each of the others.
pub proof fn law_strides_span_the_tensor(ty: GgmlType, ne: Seq<i64>, dims: Seq<u64>)
    requires
        ne.len() == GGML_MAX_DIMS,
        1 <= dims.len() <= GGML_MAX_DIMS,
        forall|k: int| 0 <= k < GGML_MAX_DIMS ==> 0 <= #[trigger] ne[k] <= usize::MAX,
        forall|k: int| 0 <= k < dims.len() ==> #[trigger] dims[k] == ne[k],
        forall|k: int| dims.len() <= k < GGML_MAX_DIMS ==> #[trigger] ne[k] == 1,
    ensures
        stride(ty, ne, (GGML_MAX_DIMS - 1) as nat) * ne[GGML_MAX_DIMS - 1] == tensor::packed_size(
            ty,
            dims,
        ),
{
    let n = dims.len();
    lemma_stride_is_product(ty, ne, dims, n);
    assert(dims.take(n as int) =~= dims);
    lemma_ones_keep_stride(ty, ne, n, GGML_MAX_DIMS as nat);
}

/// Dimensions of extent one leave the stride as it is.
proof fn lemma_ones_keep_stride(ty: GgmlType, ne: Seq<i64>, from: nat, to: nat)
    requires
        1 <= from <= to <= ne.len(),
        forall|i: int| from <= i < to ==> #[trigger] ne[i] == 1,
    ensures
        stride(ty, ne, to) == stride(ty, ne, from),
    decreases to,
{
    if from < to {
        let before = (to - 1) as nat;
        lemma_ones_keep_stride(ty, ne, from, before);
        assert(ne[to - 1] == 1);
        let s = stride(ty, ne, before);
        assert(stride(ty, ne, to) == s * (ne[to - 1] as usize));
        assert(s * 1 == s);
    }
}

/// The stride behind the first `k` dimensions is the size of a tensor with only
/// these.
proof fn lemma_stride_is_product(ty: GgmlType, ne: Seq<i64>, dims: Seq<u64>, k: nat)
    requires
        1 <= k <= dims.len() <= ne.len(),
        forall|i: int| 0 <= i < ne.len() ==> 0 <= #[trigger] ne[i] <= usize::MAX,
        forall|i: int| 0 <= i < dims.len() ==> #[trigger] dims[i] == ne[i],
    ensures
        stride(ty, ne, k) == tensor::packed_size(ty, dims.take(k as int)),
    decreases k,
{
    let rest = dims.take(k as int).skip(1);
    assert(dims[0] == ne[0]);
    let row = ty.row_bytes(ne[0]);
    if k == 1 {
        assert(rest.len() == 0);
        assert(tensor::product(rest) == 1);
        assert(row * 1 == row);
    } else {
        let front = dims.take(k - 1).skip(1);
        lemma_stride_is_product(ty, ne, dims, (k - 1) as nat);
        assert(rest.drop_last() =~= front);
        assert(rest.last() == dims[k - 1]);
        let a = tensor::product(front) as int;
        let b = ne[k - 1] as int;
        assert(0 <= b);
        assert(tensor::product(rest) == a * b);
        assert((row * a) * b == row * (a * b)) by (nonlinear_arith);
    }
}

} // verus!
