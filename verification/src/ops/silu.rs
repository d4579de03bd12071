//! SiLU (Swish-1) activation over a slice, in place.

use vstd::prelude::*;

use crate::arith;
use crate::arith::Arithmetic;

verus! {

/// `r` can be `v / (1 + exp(-v))`.
pub open spec fn activation<T, A: Arithmetic<T>>(ops: &A, v: T, r: T) -> bool {
    exists|minus: T, e: T, o: T, d: T|
        {
            &&& arith::negation(ops, v, minus)
            &&& #[trigger] arith::exponential(ops, minus, e)
            &&& arith::one(ops, o)
            &&& #[trigger] arith::sum(ops, o, e, d)
            &&& arith::quotient(ops, v, d, r)
        }
}

/// Compute `x[i] = x[i] * sigmoid(x[i])` for every `i`, in place.
///
/// Uses the standard `x / (1 + exp(-x))` form rather than the equivalent
/// `x * (1 / (1 + exp(-x)))`.
pub fn silu_inplace<T: Copy, A: Arithmetic<T>>(ops: &A, x: &mut [T])
    ensures
        final(x)@.len() == old(x)@.len(),
        forall|i: int|
            0 <= i < final(x)@.len() ==> activation(ops, old(x)@[i], #[trigger] final(x)@[i]),
{
    let len: usize = x.len();
    let mut i: usize = 0;
    while i < len
        invariant
            i <= len,
            x@.len() == len,
            old(x)@.len() == len,
            forall|p: int| i <= p < len ==> #[trigger] x@[p] == old(x)@[p],
            forall|p: int| 0 <= p < i ==> activation(ops, old(x)@[p], #[trigger] x@[p]),
        decreases len - i,
    {
        let v = x[i];
        let minus = ops.neg(v);
        let e = ops.exp(minus);
        let o = ops.one();
        let d = ops.add(o, e);
        let r = ops.div(v, d);
        assert(arith::exponential(ops, minus, e));
        assert(arith::sum(ops, o, e, d));
        assert(activation(ops, v, r));
        x[i] = r;
        i = i + 1;
    }
}

/// Where the operations give one result each, so does the activation.
pub proof fn law_activation_is_determined<T, A: Arithmetic<T>>(ops: &A, v: T, r: T, s: T)
    requires
        arith::determined::<T, A>(ops),
        activation(ops, v, r),
        activation(ops, v, s),
    ensures
        r == s,
{
}

/// The activation step by step: the exponential of the element with its sign
/// turned, one more than that, and the element divided by it.
pub proof fn law_activation_steps<T, A: Arithmetic<T>>(ops: &A, v: T, r: T) -> (w: (T, T, T, T))
    requires
        activation(ops, v, r),
    ensures
        call_ensures(A::neg, (ops, v), w.0),
        call_ensures(A::exp, (ops, w.0), w.1),
        call_ensures(A::one, (ops,), w.2),
        call_ensures(A::add, (ops, w.2, w.1), w.3),
        call_ensures(A::div, (ops, v, w.3), r),
{
    let (minus, e, o, d) = choose|minus: T, e: T, o: T, d: T|
        {
            &&& arith::negation(ops, v, minus)
            &&& #[trigger] arith::exponential(ops, minus, e)
            &&& arith::one(ops, o)
            &&& #[trigger] arith::sum(ops, o, e, d)
            &&& arith::quotient(ops, v, d, r)
        };
    (minus, e, o, d)
}

/// Without rounding, the output times `1 + exp(-v)` is the input.
pub proof fn law_activation_is_exact<T, A: Arithmetic<T>>(
    ops: &A,
    ideal: arith::Ideal<T>,
    v: T,
    r: T,
)
    requires
        arith::exact(ops, ideal),
        activation(ops, v, r),
        1 as real + (ideal.exp)(-(ideal.value)(v)) != 0 as real,
    ensures
        (ideal.value)(r) * (1 as real + (ideal.exp)(-(ideal.value)(v))) == (ideal.value)(v),
{
    let w = law_activation_steps(ops, v, r);
    assert((ideal.value)(w.0) == -(ideal.value)(v));
    assert((ideal.value)(w.3) == 1 as real + (ideal.exp)(-(ideal.value)(v)));
}

} // verus!
