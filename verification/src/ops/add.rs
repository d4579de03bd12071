//! Element-wise in-place addition over slices.

use vstd::prelude::*;

use crate::arith;
use crate::arith::Arithmetic;

verus! {

/// Compute `dst[i] += src[i]` for every `i` in `0..dst.len()`.
pub fn add_inplace<T: Copy, A: Arithmetic<T>>(ops: &A, dst: &mut [T], src: &[T])
    requires
        old(dst)@.len() == src@.len(),
    ensures
        final(dst)@.len() == old(dst)@.len(),
        forall|i: int|
            0 <= i < final(dst)@.len() ==> arith::sum(
                ops,
                old(dst)@[i],
                src@[i],
                #[trigger] final(dst)@[i],
            ),
{
    let len: usize = src.len();
    let mut i: usize = 0;
    while i < len
        invariant
            i <= len,
            len == src@.len(),
            dst@.len() == len,
            old(dst)@.len() == len,
            forall|p: int| i <= p < len ==> #[trigger] dst@[p] == old(dst)@[p],
            forall|p: int|
                0 <= p < i ==> arith::sum(ops, old(dst)@[p], src@[p], #[trigger] dst@[p]),
        decreases len - i,
    {
        dst[i] = ops.add(dst[i], src[i]);
        i = i + 1;
    }
}

} // verus!
