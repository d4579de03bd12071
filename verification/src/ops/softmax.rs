//! Numerically stable softmax over a slice, in place.
//!
//! The sum of the exponentials is accumulated in the element type, with Kahan
//! compensation. Each call works on one row, on the calling thread.

use vstd::prelude::*;

use crate::arith;
use crate::arith::Arithmetic;

verus! {

/// `r` can be the greatest of the first `n` elements of `x`: starting below all
/// values, each element that is greater than the greatest so far takes its
/// place.
pub open spec fn greatest<T, A: Arithmetic<T>>(ops: &A, x: Seq<T>, n: nat, r: T) -> bool
    decreases n,
{
    if n == 0 {
        arith::neg_infinity(ops, r)
    } else {
        let m = (n - 1) as nat;
        exists|prev: T, above: bool|
            {
                &&& greatest(ops, x, m, prev)
                &&& #[trigger] arith::greater(ops, x[m as int], prev, above)
                &&& r == if above {
                    x[m as int]
                } else {
                    prev
                }
            }
    }
}

/// `r` can be `exp(v - max)`.
pub open spec fn shifted_exponential<T, A: Arithmetic<T>>(ops: &A, v: T, max: T, r: T) -> bool {
    exists|d: T| #[trigger] arith::difference(ops, v, max, d) && arith::exponential(ops, d, r)
}

/// Every element of `es` can be `exp(v - max)`, with `v` that of `x`.
pub open spec fn shifted_exponentials<T, A: Arithmetic<T>>(
    ops: &A,
    x: Seq<T>,
    max: T,
    es: Seq<T>,
) -> bool {
    &&& es.len() == x.len()
    &&& forall|i: int| 0 <= i < x.len() ==> shifted_exponential(ops, x[i], max, #[trigger] es[i])
}

/// `total` can be the sum of the first `n` elements of `es`, and `c` the
/// compensation carried along, as Kahan's summation gives them.
pub open spec fn kahan<T, A: Arithmetic<T>>(ops: &A, es: Seq<T>, n: nat, total: T, c: T) -> bool
    decreases n,
{
    if n == 0 {
        arith::zero(ops, total) && arith::zero(ops, c)
    } else {
        let m = (n - 1) as nat;
        exists|sum: T, prev: T, y: T, d: T|
            {
                &&& kahan(ops, es, m, sum, prev)
                &&& #[trigger] arith::difference(ops, es[m as int], prev, y)
                &&& #[trigger] arith::sum(ops, sum, y, total)
                &&& arith::difference(ops, total, sum, d)
                &&& #[trigger] arith::difference(ops, d, y, c)
            }
    }
}

/// `total` can be the compensated sum of `es`.
pub open spec fn compensated_sum<T, A: Arithmetic<T>>(ops: &A, es: Seq<T>, total: T) -> bool {
    exists|c: T| kahan(ops, es, es.len(), total, c)
}

/// Every element of `y` can be that of `x` times `factor`.
pub open spec fn scaled<T, A: Arithmetic<T>>(ops: &A, x: Seq<T>, factor: T, y: Seq<T>) -> bool {
    &&& y.len() == x.len()
    &&& forall|i: int| 0 <= i < x.len() ==> arith::product(ops, x[i], factor, #[trigger] y[i])
}

/// `y` can be the elements of `x` scaled to a sum of one:
/// `exp(v - max) / sum`, with the greatest element and the compensated sum.
pub open spec fn stabilized<T, A: Arithmetic<T>>(ops: &A, x: Seq<T>, y: Seq<T>) -> bool {
    exists|max: T, es: Seq<T>, total: T, inv: T|
        {
            &&& greatest(ops, x, x.len(), max)
            &&& #[trigger] shifted_exponentials(ops, x, max, es)
            &&& #[trigger] compensated_sum(ops, es, total)
            &&& arith::reciprocal(ops, total, inv)
            &&& #[trigger] scaled(ops, es, inv, y)
        }
}

/// `v` can be found to be a number, not a NaN: it is above the value below all
/// others, or below one. A NaN is neither.
pub open spec fn ordered<T, A: Arithmetic<T>>(ops: &A, v: T, r: bool) -> bool {
    exists|low: T, above: bool, o: T, below: bool|
        {
            &&& arith::neg_infinity(ops, low)
            &&& #[trigger] arith::greater(ops, v, low, above)
            &&& arith::one(ops, o)
            &&& #[trigger] arith::greater(ops, o, v, below)
            &&& r == (above || below)
        }
}

/// `y` can be the softmax of `x`: nothing for an empty input, one for a single
/// number, and otherwise the stabilized quotients.
pub open spec fn softmax<T, A: Arithmetic<T>>(ops: &A, x: Seq<T>, y: Seq<T>) -> bool {
    if x.len() == 0 {
        y.len() == 0
    } else if x.len() == 1 {
        exists|number: bool| #[trigger]
            ordered(ops, x[0], number) && if number {
                y.len() == 1 && arith::one(ops, y[0])
            } else {
                stabilized(ops, x, y)
            }
    } else {
        stabilized(ops, x, y)
    }
}

/// Is this a number, not a NaN?
fn is_ordered<T: Copy, A: Arithmetic<T>>(ops: &A, v: T) -> (r: bool)
    ensures
        ordered(ops, v, r),
{
    let low = ops.neg_infinity();
    let above = ops.gt(v, low);
    let o = ops.one();
    let below = ops.gt(o, v);
    assert(arith::greater(ops, v, low, above));
    assert(arith::greater(ops, o, v, below));
    above || below
}

/// Compute the softmax of `x` in place using the standard max-subtraction
/// stabilization: `x[i] := exp(x[i] - max(x)) / sum_j(exp(x[j] - max(x)))`.
///
/// An empty input is a no-op. For a single-element input the output is one.
///
/// `x` must not contain NaN; if it does, NaN propagates into the output.
pub fn softmax_inplace<T: Copy, A: Arithmetic<T>>(ops: &A, x: &mut [T])
    ensures
        softmax(ops, old(x)@, final(x)@),
{
    let len: usize = x.len();
    if len == 0 {
        return ;
    }
    if len == 1 {
        let number = is_ordered(ops, x[0]);
        if number {
            x[0] = ops.one();
            assert(ordered(ops, old(x)@[0], number));
            return ;
        }
    }
    stabilize(ops, x);
}

/// Replace the elements of `x` by the stabilized quotients.
fn stabilize<T: Copy, A: Arithmetic<T>>(ops: &A, x: &mut [T])
    requires
        old(x)@.len() > 0,
    ensures
        stabilized(ops, old(x)@, final(x)@),
{
    let len: usize = x.len();
    let ghost before = x@;
    let mut max: T = ops.neg_infinity();
    let mut i: usize = 0;
    while i < len
        invariant
            i <= len,
            x@.len() == len,
            x@ == before,
            greatest(ops, before, i as nat, max),
        decreases len - i,
    {
        let v = x[i];
        let ghost prev = max;
        let above = ops.gt(v, max);
        if above {
            max = v;
        }
        assert(arith::greater(ops, before[i as int], prev, above));
        i = i + 1;
        assert((i - 1) as nat == i - 1);
        assert(greatest(ops, before, (i - 1) as nat, prev));
    }

    let mut sum: T = ops.zero();
    let mut c: T = ops.zero();
    i = 0;
    while i < len
        invariant
            i <= len,
            x@.len() == len,
            before.len() == len,
            forall|p: int| i <= p < len ==> #[trigger] x@[p] == before[p],
            forall|p: int| 0 <= p < i ==> shifted_exponential(ops, before[p], max, #[trigger] x@[p]),
            kahan(ops, x@, i as nat, sum, c),
        decreases len - i,
    {
        let ghost start = x@;
        let shift = ops.sub(x[i], max);
        let e = ops.exp(shift);
        assert(arith::difference(ops, before[i as int], max, shift));
        x[i] = e;
        proof {
            lemma_kahan_is_local(ops, start, x@, i as nat, sum, c);
        }
        let ghost carried = c;
        let y = ops.sub(e, c);
        let t = ops.add(sum, y);
        let d = ops.sub(t, sum);
        c = ops.sub(d, y);
        assert(arith::difference(ops, x@[i as int], carried, y));
        assert(arith::sum(ops, sum, y, t));
        assert(arith::difference(ops, d, y, c));
        let ghost total = sum;
        sum = t;
        i = i + 1;
        assert(kahan(ops, x@, (i - 1) as nat, total, carried));
    }

    let ghost es = x@;
    let inv = arith::reciprocal_of(ops, sum);
    i = 0;
    while i < len
        invariant
            i <= len,
            x@.len() == len,
            es.len() == len,
            forall|p: int| i <= p < len ==> #[trigger] x@[p] == es[p],
            forall|p: int| 0 <= p < i ==> arith::product(ops, es[p], inv, #[trigger] x@[p]),
        decreases len - i,
    {
        x[i] = ops.mul(x[i], inv);
        i = i + 1;
    }
    assert(shifted_exponentials(ops, before, max, es));
    assert(compensated_sum(ops, es, sum));
    assert(scaled(ops, es, inv, x@));
}

/// The sum of the first `n` elements does not depend on the others.
proof fn lemma_kahan_is_local<T, A: Arithmetic<T>>(
    ops: &A,
    s: Seq<T>,
    t: Seq<T>,
    n: nat,
    total: T,
    c: T,
)
    requires
        kahan(ops, s, n, total, c),
        forall|p: int| 0 <= p < n ==> s[p] == t[p],
    ensures
        kahan(ops, t, n, total, c),
    decreases n,
{
    if n > 0 {
        let m = (n - 1) as nat;
        let (sum, prev, y, d) = choose|sum: T, prev: T, y: T, d: T|
            {
                &&& kahan(ops, s, m, sum, prev)
                &&& #[trigger] arith::difference(ops, s[m as int], prev, y)
                &&& #[trigger] arith::sum(ops, sum, y, total)
                &&& arith::difference(ops, total, sum, d)
                &&& #[trigger] arith::difference(ops, d, y, c)
            };
        lemma_kahan_is_local(ops, s, t, m, sum, prev);
        assert(arith::difference(ops, t[m as int], prev, y));
    }
}

proof fn lemma_kahan_is_determined<T, A: Arithmetic<T>>(
    ops: &A,
    es: Seq<T>,
    n: nat,
    r: T,
    c: T,
    s: T,
    d: T,
)
    requires
        arith::determined::<T, A>(ops),
        kahan(ops, es, n, r, c),
        kahan(ops, es, n, s, d),
    ensures
        r == s,
        c == d,
    decreases n,
{
    if n > 0 {
        let m = (n - 1) as nat;
        let (r0, c0, ry, rd) = choose|sum: T, prev: T, y: T, q: T|
            {
                &&& kahan(ops, es, m, sum, prev)
                &&& #[trigger] arith::difference(ops, es[m as int], prev, y)
                &&& #[trigger] arith::sum(ops, sum, y, r)
                &&& arith::difference(ops, r, sum, q)
                &&& #[trigger] arith::difference(ops, q, y, c)
            };
        let (s0, d0, sy, sd) = choose|sum: T, prev: T, y: T, q: T|
            {
                &&& kahan(ops, es, m, sum, prev)
                &&& #[trigger] arith::difference(ops, es[m as int], prev, y)
                &&& #[trigger] arith::sum(ops, sum, y, s)
                &&& arith::difference(ops, s, sum, q)
                &&& #[trigger] arith::difference(ops, q, y, d)
            };
        lemma_kahan_is_determined(ops, es, m, r0, c0, s0, d0);
    }
}

proof fn lemma_greatest_is_determined<T, A: Arithmetic<T>>(ops: &A, x: Seq<T>, n: nat, r: T, s: T)
    requires
        arith::determined::<T, A>(ops),
        greatest(ops, x, n, r),
        greatest(ops, x, n, s),
    ensures
        r == s,
    decreases n,
{
    if n > 0 {
        let m = (n - 1) as nat;
        let v = x[m as int];
        let (r0, ra) = choose|prev: T, above: bool|
            {
                &&& greatest(ops, x, m, prev)
                &&& #[trigger] arith::greater(ops, v, prev, above)
                &&& r == if above {
                    v
                } else {
                    prev
                }
            };
        let (s0, sa) = choose|prev: T, above: bool|
            {
                &&& greatest(ops, x, m, prev)
                &&& #[trigger] arith::greater(ops, v, prev, above)
                &&& s == if above {
                    v
                } else {
                    prev
                }
            };
        lemma_greatest_is_determined(ops, x, m, r0, s0);
    }
}

proof fn lemma_stabilized_is_determined<T, A: Arithmetic<T>>(
    ops: &A,
    x: Seq<T>,
    r: Seq<T>,
    s: Seq<T>,
)
    requires
        arith::determined::<T, A>(ops),
        stabilized(ops, x, r),
        stabilized(ops, x, s),
    ensures
        r == s,
{
    let (rmax, res, rtotal, rinv) = choose|max: T, es: Seq<T>, total: T, inv: T|
        {
            &&& greatest(ops, x, x.len(), max)
            &&& #[trigger] shifted_exponentials(ops, x, max, es)
            &&& #[trigger] compensated_sum(ops, es, total)
            &&& arith::reciprocal(ops, total, inv)
            &&& #[trigger] scaled(ops, es, inv, r)
        };
    let (smax, ses, stotal, sinv) = choose|max: T, es: Seq<T>, total: T, inv: T|
        {
            &&& greatest(ops, x, x.len(), max)
            &&& #[trigger] shifted_exponentials(ops, x, max, es)
            &&& #[trigger] compensated_sum(ops, es, total)
            &&& arith::reciprocal(ops, total, inv)
            &&& #[trigger] scaled(ops, es, inv, s)
        };
    lemma_greatest_is_determined(ops, x, x.len(), rmax, smax);
    assert forall|i: int| 0 <= i < x.len() implies res[i] == ses[i] by {
        assert(shifted_exponential(ops, x[i], rmax, res[i]));
        assert(shifted_exponential(ops, x[i], smax, ses[i]));
    }
    assert(res =~= ses);
    let c = choose|c: T| kahan(ops, res, res.len(), rtotal, c);
    let d = choose|c: T| kahan(ops, ses, ses.len(), stotal, c);
    lemma_kahan_is_determined(ops, res, res.len(), rtotal, c, stotal, d);
    assert(rinv == sinv);
    assert forall|i: int| 0 <= i < x.len() implies r[i] == s[i] by {
        assert(arith::product(ops, res[i], rinv, r[i]));
        assert(arith::product(ops, ses[i], sinv, s[i]));
    }
    assert(r =~= s);
}

/// Where the operations give one result each, so does the softmax.
pub proof fn law_softmax_is_determined<T, A: Arithmetic<T>>(
    ops: &A,
    x: Seq<T>,
    r: Seq<T>,
    s: Seq<T>,
)
    requires
        arith::determined::<T, A>(ops),
        softmax(ops, x, r),
        softmax(ops, x, s),
    ensures
        r == s,
{
    if x.len() == 0 {
        assert(r =~= s);
    } else if x.len() == 1 {
        let a = choose|number: bool| #[trigger]
            ordered(ops, x[0], number) && if number {
                r.len() == 1 && arith::one(ops, r[0])
            } else {
                stabilized(ops, x, r)
            };
        let b = choose|number: bool| #[trigger]
            ordered(ops, x[0], number) && if number {
                s.len() == 1 && arith::one(ops, s[0])
            } else {
                stabilized(ops, x, s)
            };
        lemma_ordered_is_determined(ops, x[0], a, b);
        if a {
            assert(r =~= s);
        } else {
            lemma_stabilized_is_determined(ops, x, r, s);
        }
    } else {
        lemma_stabilized_is_determined(ops, x, r, s);
    }
}

proof fn lemma_ordered_is_determined<T, A: Arithmetic<T>>(ops: &A, v: T, r: bool, s: bool)
    requires
        arith::order_determined::<T, A>(ops),
        ordered(ops, v, r),
        ordered(ops, v, s),
    ensures
        r == s,
{
}

/// The softmax of a single number is one: of anything that is above the value
/// below all others, or below one. A comparison gives one result.
pub proof fn law_softmax_of_one<T, A: Arithmetic<T>>(ops: &A, v: T, y: Seq<T>)
    requires
        arith::order_determined::<T, A>(ops),
        (exists|low: T| arith::neg_infinity(ops, low) && #[trigger] arith::greater(
            ops,
            v,
            low,
            true,
        )) || (exists|o: T| arith::one(ops, o) && #[trigger] arith::greater(ops, o, v, true)),
        softmax(ops, seq![v], y),
    ensures
        y.len() == 1,
        arith::one(ops, y[0]),
{
    let number = choose|number: bool| #[trigger]
        ordered(ops, v, number) && if number {
            y.len() == 1 && arith::one(ops, y[0])
        } else {
            stabilized(ops, seq![v], y)
        };
    assert(seq![v][0] == v);
    assert(ordered(ops, v, number));
    assert(number);
}

/// What comes up in a softmax.
pub struct SoftmaxSteps<T> {
    /// The greatest element so far.
    pub maxima: Seq<T>,
    /// Whether an element is greater than the greatest before it.
    pub above: Seq<bool>,
    /// The elements less the greatest.
    pub shifts: Seq<T>,
    /// Their exponentials.
    pub exponentials: Seq<T>,
    /// The exponentials less the compensation.
    pub terms: Seq<T>,
    /// The sum so far.
    pub sums: Seq<T>,
    /// By how much a term changed the sum.
    pub changes: Seq<T>,
    /// The compensation so far.
    pub carried: Seq<T>,
    pub one: T,
    pub inverse: T,
}

proof fn lemma_greatest_steps<T, A: Arithmetic<T>>(ops: &A, x: Seq<T>, n: nat, r: T) -> (w: (
    Seq<T>,
    Seq<bool>,
))
    requires
        greatest(ops, x, n, r),
    ensures
        w.0.len() == n + 1,
        w.1.len() == n,
        call_ensures(A::neg_infinity, (ops,), w.0[0]),
        forall|i: int|
            0 <= i < n ==> call_ensures(A::gt, (ops, x[i], w.0[i]), #[trigger] w.1[i]),
        forall|i: int|
            #![trigger w.1[i]]
            0 <= i < n ==> w.0[i + 1] == if w.1[i] {
                x[i]
            } else {
                w.0[i]
            },
        w.0[n as int] == r,
    decreases n,
{
    if n == 0 {
        (seq![r], Seq::empty())
    } else {
        let m = (n - 1) as nat;
        let (prev, above) = choose|prev: T, above: bool|
            {
                &&& greatest(ops, x, m, prev)
                &&& #[trigger] arith::greater(ops, x[m as int], prev, above)
                &&& r == if above {
                    x[m as int]
                } else {
                    prev
                }
            };
        let front = lemma_greatest_steps(ops, x, m, prev);
        let maxima = front.0.push(r);
        let flags = front.1.push(above);
        assert forall|i: int|
            #![trigger flags[i]]
            0 <= i < n implies call_ensures(A::gt, (ops, x[i], maxima[i]), flags[i]) && maxima[i
            + 1] == if flags[i] {
            x[i]
        } else {
            maxima[i]
        } by {
            assert(maxima[i] == front.0[i]);
            if i < m {
                assert(flags[i] == front.1[i]);
                assert(maxima[i + 1] == front.0[i + 1]);
            }
        }
        (maxima, flags)
    }
}

proof fn lemma_kahan_steps<T, A: Arithmetic<T>>(ops: &A, es: Seq<T>, n: nat, r: T, c: T) -> (w: (
    Seq<T>,
    Seq<T>,
    Seq<T>,
    Seq<T>,
))
    requires
        kahan(ops, es, n, r, c),
    ensures
        w.0.len() == n,
        w.1.len() == n + 1,
        w.2.len() == n,
        w.3.len() == n + 1,
        call_ensures(A::zero, (ops,), w.1[0]),
        call_ensures(A::zero, (ops,), w.3[0]),
        forall|i: int|
            0 <= i < n ==> call_ensures(A::sub, (ops, es[i], w.3[i]), #[trigger] w.0[i]),
        forall|i: int|
            0 <= i < n ==> call_ensures(A::add, (ops, #[trigger] w.1[i], w.0[i]), w.1[i + 1]),
        forall|i: int|
            0 <= i < n ==> call_ensures(A::sub, (ops, w.1[i + 1], w.1[i]), #[trigger] w.2[i]),
        forall|i: int|
            0 <= i < n ==> call_ensures(A::sub, (ops, #[trigger] w.2[i], w.0[i]), w.3[i + 1]),
        w.1[n as int] == r,
        w.3[n as int] == c,
    decreases n,
{
    if n == 0 {
        (Seq::empty(), seq![r], Seq::empty(), seq![c])
    } else {
        let m = (n - 1) as nat;
        let (sum, prev, y, d) = choose|sum: T, prev: T, y: T, d: T|
            {
                &&& kahan(ops, es, m, sum, prev)
                &&& #[trigger] arith::difference(ops, es[m as int], prev, y)
                &&& #[trigger] arith::sum(ops, sum, y, r)
                &&& arith::difference(ops, r, sum, d)
                &&& #[trigger] arith::difference(ops, d, y, c)
            };
        let front = lemma_kahan_steps(ops, es, m, sum, prev);
        let terms = front.0.push(y);
        let sums = front.1.push(r);
        let changes = front.2.push(d);
        let carried = front.3.push(c);
        assert forall|i: int| 0 <= i < n implies {
            &&& call_ensures(A::sub, (ops, es[i], carried[i]), #[trigger] terms[i])
            &&& call_ensures(A::add, (ops, sums[i], terms[i]), sums[i + 1])
            &&& call_ensures(A::sub, (ops, sums[i + 1], sums[i]), changes[i])
            &&& call_ensures(A::sub, (ops, changes[i], terms[i]), carried[i + 1])
        } by {
            assert(sums[i] == front.1[i] && carried[i] == front.3[i]);
            if i < m {
                assert(terms[i] == front.0[i] && changes[i] == front.2[i]);
                assert(sums[i + 1] == front.1[i + 1] && carried[i + 1] == front.3[i + 1]);
            }
        }
        assert forall|i: int| 0 <= i < n implies call_ensures(
            A::add,
            (ops, #[trigger] sums[i], terms[i]),
            sums[i + 1],
        ) by {
            assert(call_ensures(A::sub, (ops, es[i], carried[i]), terms[i]));
        }
        assert forall|i: int| 0 <= i < n implies call_ensures(
            A::sub,
            (ops, sums[i + 1], sums[i]),
            #[trigger] changes[i],
        ) && call_ensures(A::sub, (ops, changes[i], terms[i]), carried[i + 1]) by {
            assert(call_ensures(A::sub, (ops, es[i], carried[i]), terms[i]));
        }
        (terms, sums, changes, carried)
    }
}

proof fn lemma_stabilized_steps<T, A: Arithmetic<T>>(ops: &A, x: Seq<T>, y: Seq<T>) -> (w:
    SoftmaxSteps<T>)
    requires
        stabilized(ops, x, y),
    ensures
        stabilized_by(ops, x, y, w),
{
    let (max, es, total, inv) = choose|max: T, es: Seq<T>, total: T, inv: T|
        {
            &&& greatest(ops, x, x.len(), max)
            &&& #[trigger] shifted_exponentials(ops, x, max, es)
            &&& #[trigger] compensated_sum(ops, es, total)
            &&& arith::reciprocal(ops, total, inv)
            &&& #[trigger] scaled(ops, es, inv, y)
        };
    let n = x.len();
    let c = choose|c: T| kahan(ops, es, es.len(), total, c);
    let tops = lemma_greatest_steps(ops, x, n, max);
    let sums = lemma_kahan_steps(ops, es, n, total, c);
    let one = choose|o: T| arith::one(ops, o) && #[trigger] arith::quotient(ops, o, total, inv);
    let shifts = Seq::new(
        n,
        |i: int|
            choose|d: T| #[trigger]
                arith::difference(ops, x[i], max, d) && arith::exponential(ops, d, es[i]),
    );
    assert forall|i: int| 0 <= i < n implies call_ensures(
        A::sub,
        (ops, x[i], max),
        #[trigger] shifts[i],
    ) && call_ensures(A::exp, (ops, shifts[i]), es[i]) by {
        assert(shifted_exponential(ops, x[i], max, es[i]));
    }
    assert forall|i: int| 0 <= i < n implies call_ensures(
        A::mul,
        (ops, es[i], inv),
        #[trigger] y[i],
    ) by {
        assert(arith::product(ops, es[i], inv, y[i]));
    }
    SoftmaxSteps {
        maxima: tops.0,
        above: tops.1,
        shifts,
        exponentials: es,
        terms: sums.0,
        sums: sums.1,
        changes: sums.2,
        carried: sums.3,
        one,
        inverse: inv,
    }
}

/// The softmax of several elements, or of a single one that is neither above the
/// value below all others nor below one, step by step: the greatest of all elements is
/// found in order, from the value below all others; every element less that one
/// is exponentiated; all the exponentials are added up in order from zero, with
/// the compensation of each step carried over to the next; and each of them is
/// taken times one over their sum.
pub proof fn law_softmax_steps<T, A: Arithmetic<T>>(ops: &A, x: Seq<T>, y: Seq<T>) -> (w:
    SoftmaxSteps<T>)
    requires
        x.len() >= 2 || {
            &&& x.len() == 1
            &&& forall|low: T, r: bool| #[trigger]
                call_ensures(A::neg_infinity, (ops,), low) && #[trigger] call_ensures(
                    A::gt,
                    (ops, x[0], low),
                    r,
                ) ==> !r
            &&& forall|one: T, r: bool| #[trigger]
                call_ensures(A::one, (ops,), one) && #[trigger] call_ensures(
                    A::gt,
                    (ops, one, x[0]),
                    r,
                ) ==> !r
        },
        softmax(ops, x, y),
    ensures
        y.len() == x.len(),
        w.maxima.len() == x.len() + 1,
        call_ensures(A::neg_infinity, (ops,), w.maxima[0]),
        forall|i: int|
            #![trigger w.above[i]]
            0 <= i < x.len() ==> {
                &&& call_ensures(A::gt, (ops, x[i], w.maxima[i]), w.above[i])
                &&& w.maxima[i + 1] == if w.above[i] {
                    x[i]
                } else {
                    w.maxima[i]
                }
            },
        forall|i: int|
            #![trigger w.shifts[i]]
            0 <= i < x.len() ==> {
                &&& call_ensures(A::sub, (ops, x[i], w.maxima[x.len() as int]), w.shifts[i])
                &&& call_ensures(A::exp, (ops, w.shifts[i]), w.exponentials[i])
            },
        call_ensures(A::zero, (ops,), w.sums[0]),
        call_ensures(A::zero, (ops,), w.carried[0]),
        forall|i: int|
            #![trigger w.terms[i]]
            0 <= i < x.len() ==> {
                &&& call_ensures(A::sub, (ops, w.exponentials[i], w.carried[i]), w.terms[i])
                &&& call_ensures(A::add, (ops, w.sums[i], w.terms[i]), w.sums[i + 1])
                &&& call_ensures(A::sub, (ops, w.sums[i + 1], w.sums[i]), w.changes[i])
                &&& call_ensures(A::sub, (ops, w.changes[i], w.terms[i]), w.carried[i + 1])
            },
        call_ensures(A::one, (ops,), w.one),
        call_ensures(A::div, (ops, w.one, w.sums[x.len() as int]), w.inverse),
        forall|i: int|
            0 <= i < x.len() ==> call_ensures(
                A::mul,
                (ops, w.exponentials[i], w.inverse),
                #[trigger] y[i],
            ),
{
    if x.len() == 1 {
        assert forall|number: bool| #[trigger] ordered(ops, x[0], number) implies !number by {
            let (low, above, o, below) = choose|low: T, above: bool, o: T, below: bool|
                {
                    &&& arith::neg_infinity(ops, low)
                    &&& #[trigger] arith::greater(ops, x[0], low, above)
                    &&& arith::one(ops, o)
                    &&& #[trigger] arith::greater(ops, o, x[0], below)
                    &&& number == (above || below)
                };
            assert(call_ensures(A::gt, (ops, x[0], low), above));
            assert(call_ensures(A::gt, (ops, o, x[0]), below));
        }
    }
    lemma_stabilized_steps(ops, x, y)
}

/// The steps lead from `x` to `y`.
spec fn stabilized_by<T, A: Arithmetic<T>>(
    ops: &A,
    x: Seq<T>,
    y: Seq<T>,
    w: SoftmaxSteps<T>,
) -> bool {
    let n = x.len();
    &&& y.len() == n
    &&& w.maxima.len() == n + 1
    &&& w.above.len() == n
    &&& w.shifts.len() == n
    &&& w.exponentials.len() == n
    &&& w.terms.len() == n
    &&& w.sums.len() == n + 1
    &&& w.changes.len() == n
    &&& w.carried.len() == n + 1
    &&& call_ensures(A::neg_infinity, (ops,), w.maxima[0])
    &&& forall|i: int|
        #![trigger w.above[i]]
        0 <= i < n ==> {
            &&& call_ensures(A::gt, (ops, x[i], w.maxima[i]), w.above[i])
            &&& w.maxima[i + 1] == if w.above[i] {
                x[i]
            } else {
                w.maxima[i]
            }
        }
    &&& forall|i: int|
        #![trigger w.shifts[i]]
        0 <= i < n ==> {
            &&& call_ensures(A::sub, (ops, x[i], w.maxima[n as int]), w.shifts[i])
            &&& call_ensures(A::exp, (ops, w.shifts[i]), w.exponentials[i])
        }
    &&& call_ensures(A::zero, (ops,), w.sums[0])
    &&& call_ensures(A::zero, (ops,), w.carried[0])
    &&& forall|i: int|
        #![trigger w.terms[i]]
        0 <= i < n ==> {
            &&& call_ensures(A::sub, (ops, w.exponentials[i], w.carried[i]), w.terms[i])
            &&& call_ensures(A::add, (ops, w.sums[i], w.terms[i]), w.sums[i + 1])
            &&& call_ensures(A::sub, (ops, w.sums[i + 1], w.sums[i]), w.changes[i])
            &&& call_ensures(A::sub, (ops, w.changes[i], w.terms[i]), w.carried[i + 1])
        }
    &&& call_ensures(A::one, (ops,), w.one)
    &&& call_ensures(A::div, (ops, w.one, w.sums[n as int]), w.inverse)
    &&& forall|i: int|
        0 <= i < n ==> call_ensures(A::mul, (ops, w.exponentials[i], w.inverse), #[trigger] y[i])
}

/// Without rounding, the greatest is at least every element before it and one of
/// them.
proof fn lemma_maxima_are_exact<T, A: Arithmetic<T>>(
    ops: &A,
    ideal: arith::Ideal<T>,
    x: Seq<T>,
    y: Seq<T>,
    w: SoftmaxSteps<T>,
    n: nat,
)
    requires
        arith::exact(ops, ideal),
        forall|low: T, i: int|
            #![trigger call_ensures(A::neg_infinity, (ops,), low), x[i]]
            0 <= i < x.len() && call_ensures(A::neg_infinity, (ops,), low) ==> (ideal.value)(low)
                < (ideal.value)(x[i]),
        stabilized_by(ops, x, y, w),
        n <= x.len(),
    ensures
        forall|i: int|
            0 <= i < n ==> (ideal.value)(#[trigger] x[i]) <= (ideal.value)(w.maxima[n as int]),
        n > 0 ==> exists|i: int| 0 <= i < n && #[trigger] x[i] == w.maxima[n as int],
        n == 0 ==> w.maxima[0] == w.maxima[n as int],
    decreases n,
{
    if n > 0 {
        let m = (n - 1) as nat;
        lemma_maxima_are_exact(ops, ideal, x, y, w, m);
        assert(w.above[m as int] == w.above[m as int]);
        assert(call_ensures(A::gt, (ops, x[m as int], w.maxima[m as int]), w.above[m as int]));
        if w.above[m as int] {
            assert(x[m as int] == w.maxima[n as int]);
        } else {
            assert(m > 0) by {
                assert(call_ensures(A::neg_infinity, (ops,), w.maxima[0]));
                assert((ideal.value)(w.maxima[0]) < (ideal.value)(x[m as int]));
            }
            let i = choose|i: int| 0 <= i < m && #[trigger] x[i] == w.maxima[m as int];
            assert(x[i] == w.maxima[n as int]);
        }
    }
}

/// Without rounding, the compensation stays zero.
proof fn lemma_carried_is_zero<T, A: Arithmetic<T>>(
    ops: &A,
    ideal: arith::Ideal<T>,
    x: Seq<T>,
    y: Seq<T>,
    w: SoftmaxSteps<T>,
    n: nat,
)
    requires
        arith::exact(ops, ideal),
        stabilized_by(ops, x, y, w),
        n <= x.len(),
    ensures
        (ideal.value)(w.carried[n as int]) == 0 as real,
        (ideal.value)(w.sums[n as int]) == arith::total(
            Seq::new(n, |i: int| (ideal.value)(w.exponentials[i])),
        ),
    decreases n,
{
    let v = ideal.value;
    let all = Seq::new(n, |i: int| v(w.exponentials[i]));
    if n == 0 {
        arith::law_total(all, 0 as real);
        assert(all =~= Seq::empty());
    } else {
        let m = (n - 1) as nat;
        lemma_carried_is_zero(ops, ideal, x, y, w, m);
        assert(call_ensures(
            A::sub,
            (ops, w.exponentials[m as int], w.carried[m as int]),
            w.terms[m as int],
        ));
        let front = Seq::new(m, |i: int| v(w.exponentials[i]));
        arith::law_total(front, v(w.exponentials[m as int]));
        assert(all =~= front.push(v(w.exponentials[m as int])));
    }
}

proof fn lemma_total_is_positive(terms: Seq<real>)
    requires
        terms.len() > 0,
        forall|i: int| 0 <= i < terms.len() ==> #[trigger] terms[i] > 0 as real,
    ensures
        arith::total(terms) > 0 as real,
    decreases terms.len(),
{
    let front = terms.drop_last();
    arith::law_total(front, terms.last());
    assert(front.push(terms.last()) =~= terms);
    if front.len() > 0 {
        assert forall|i: int| 0 <= i < front.len() implies #[trigger] front[i] > 0 as real by {
            assert(front[i] == terms[i]);
        }
        lemma_total_is_positive(front);
    } else {
        assert(front =~= Seq::empty());
    }
}

/// Without rounding, an output times the sum of `exp(x[j] - max)` over all the
/// elements is its own `exp(x[i] - max)`, where `max` is the greatest element,
/// and the outputs add up to one. Gives the greatest.
pub proof fn law_softmax_is_exact<T, A: Arithmetic<T>>(
    ops: &A,
    ideal: arith::Ideal<T>,
    x: Seq<T>,
    y: Seq<T>,
) -> (max: real)
    requires
        arith::exact(ops, ideal),
        forall|a: real| #[trigger] (ideal.exp)(a) > 0 as real,
        forall|low: T, i: int|
            #![trigger call_ensures(A::neg_infinity, (ops,), low), x[i]]
            0 <= i < x.len() && call_ensures(A::neg_infinity, (ops,), low) ==> (ideal.value)(low)
                < (ideal.value)(x[i]),
        x.len() > 0,
        softmax(ops, x, y),
    ensures
        y.len() == x.len(),
        forall|i: int| 0 <= i < x.len() ==> (ideal.value)(#[trigger] x[i]) <= max,
        exists|i: int| 0 <= i < x.len() && (ideal.value)(#[trigger] x[i]) == max,
        forall|i: int|
            0 <= i < x.len() ==> (ideal.value)(#[trigger] y[i]) * arith::total(
                Seq::new(x.len(), |j: int| (ideal.exp)((ideal.value)(x[j]) - max)),
            ) == (ideal.exp)((ideal.value)(x[i]) - max),
        arith::total(Seq::new(x.len(), |i: int| (ideal.value)(y[i]))) == 1 as real,
{
    let v = ideal.value;
    let n = x.len();
    let out = Seq::new(n, |i: int| v(y[i]));
    if n == 1 && exists|number: bool| number && #[trigger] ordered(ops, x[0], number) && y.len()
        == 1 && arith::one(ops, y[0]) {
        let max = v(x[0]);
        let parts = Seq::new(n, |j: int| (ideal.exp)(v(x[j]) - max));
        let none = Seq::<real>::empty();
        arith::law_total(none, parts[0]);
        arith::law_total(none, out[0]);
        assert(none.push(parts[0]) =~= parts);
        assert(none.push(out[0]) =~= out);
        assert((1 as real) * parts[0] == parts[0]);
        max
    } else {
        assert(stabilized(ops, x, y)) by {
            if n == 1 {
                let number = choose|number: bool| #[trigger]
                    ordered(ops, x[0], number) && if number {
                        y.len() == 1 && arith::one(ops, y[0])
                    } else {
                        stabilized(ops, x, y)
                    };
                assert(ordered(ops, x[0], number));
            }
        }
        let w = lemma_stabilized_steps(ops, x, y);
        lemma_maxima_are_exact(ops, ideal, x, y, w, n);
        lemma_carried_is_zero(ops, ideal, x, y, w, n);
        let max = v(w.maxima[n as int]);
        let parts = Seq::new(n, |j: int| (ideal.exp)(v(x[j]) - max));
        let got = Seq::new(n, |i: int| v(w.exponentials[i]));
        assert forall|i: int| 0 <= i < n implies parts[i] == got[i] by {
            assert(call_ensures(A::sub, (ops, x[i], w.maxima[n as int]), w.shifts[i]));
            assert(call_ensures(A::exp, (ops, w.shifts[i]), w.exponentials[i]));
        }
        assert(parts =~= got);
        lemma_total_is_positive(parts);
        let sum = arith::total(parts);
        let inv = v(w.inverse);
        assert(inv * sum == 1 as real);
        assert forall|i: int| 0 <= i < n implies v(#[trigger] y[i]) * sum == (ideal.exp)(
            v(x[i]) - max,
        ) by {
            assert(call_ensures(A::mul, (ops, w.exponentials[i], w.inverse), y[i]));
            let e = parts[i];
            assert(v(y[i]) == e * inv);
            assert((e * inv) * sum == e) by (nonlinear_arith)
                requires
                    inv * sum == 1 as real,
            ;
        }
        assert forall|i: int| 0 <= i < n implies #[trigger] out[i] == parts[i] * inv by {
            assert(call_ensures(A::mul, (ops, w.exponentials[i], w.inverse), y[i]));
        }
        arith::lemma_total_scales(parts, out, inv);
        assert(sum * inv == inv * sum) by (nonlinear_arith);
        let i = choose|i: int| 0 <= i < n && #[trigger] x[i] == w.maxima[n as int];
        assert(v(x[i]) == max);
        max
    }
}

/// Without rounding, the softmax of `n` equal elements is `1 / n` each.
pub proof fn law_softmax_of_equals<T, A: Arithmetic<T>>(
    ops: &A,
    ideal: arith::Ideal<T>,
    x: Seq<T>,
    y: Seq<T>,
    i: int,
)
    requires
        arith::exact(ops, ideal),
        forall|a: real| #[trigger] (ideal.exp)(a) > 0 as real,
        forall|low: T, i: int|
            #![trigger call_ensures(A::neg_infinity, (ops,), low), x[i]]
            0 <= i < x.len() && call_ensures(A::neg_infinity, (ops,), low) ==> (ideal.value)(low)
                < (ideal.value)(x[i]),
        forall|j: int| 0 <= j < x.len() ==> #[trigger] x[j] == x[0],
        softmax(ops, x, y),
        0 <= i < x.len(),
    ensures
        (ideal.value)(y[i]) * (x.len() as int as real) == 1 as real,
{
    let v = ideal.value;
    let max = law_softmax_is_exact(ops, ideal, x, y);
    let parts = Seq::new(x.len(), |j: int| (ideal.exp)(v(x[j]) - max));
    let e = (ideal.exp)(v(x[0]) - max);
    assert forall|j: int| 0 <= j < parts.len() implies #[trigger] parts[j] == e by {
        assert(x[j] == x[0]);
    }
    lemma_total_of_equals(parts, e);
    assert(x[i] == x[0]);
    let c = x.len() as int as real;
    let t = v(y[i]);
    assert(t * (c * e) == e);
    assert(t * c == 1 as real) by (nonlinear_arith)
        requires
            t * (c * e) == e,
            e > 0 as real,
    ;
}

proof fn lemma_total_of_equals(terms: Seq<real>, e: real)
    requires
        forall|j: int| 0 <= j < terms.len() ==> #[trigger] terms[j] == e,
    ensures
        arith::total(terms) == (terms.len() as int as real) * e,
    decreases terms.len(),
{
    if terms.len() == 0 {
        arith::law_total(terms, e);
        assert(terms =~= Seq::empty());
        assert((0 as real) * e == 0 as real);
    } else {
        let front = terms.drop_last();
        arith::law_total(front, e);
        assert(front.push(e) =~= terms);
        lemma_total_of_equals(front, e);
        let c = front.len() as int as real;
        assert(terms.len() as int as real == c + 1 as real);
        assert((c + 1 as real) * e == c * e + e) by (nonlinear_arith);
    }
}

} // verus!
