//! Row-parallel matrix multiply.
//!
//! The rows of the output are shared out among threads. Each row is computed
//! by one thread, with a sequential accumulator over the inner dimension, so
//! the output does not depend on the number of threads.

use rayon::iter::{IndexedParallelIterator, ParallelIterator};
use rayon::slice::ParallelSliceMut;
use vstd::prelude::*;

use crate::arith;
use crate::arith::Arithmetic;
use crate::rows;

verus! {

/// `out` can be row `i` of the product of `a`, with `k` columns, and `b`, with
/// `n` columns.
pub open spec fn product_row<T, A: Arithmetic<T>>(
    ops: &A,
    a: Seq<T>,
    k: nat,
    b: Seq<T>,
    n: nat,
    i: int,
    out: Seq<T>,
) -> bool {
    &&& out.len() == n
    &&& forall|j: int|
        0 <= j < n ==> arith::dot(
            ops,
            rows::row(a, k, i),
            rows::column(b, n, k, j),
            k,
            #[trigger] out[j],
        )
}

/// `out` can be the product of `a`, of `m` rows and `k` columns, and `b`, of
/// `k` rows and `n` columns.
pub open spec fn product_matrix<T, A: Arithmetic<T>>(
    ops: &A,
    a: Seq<T>,
    b: Seq<T>,
    m: nat,
    k: nat,
    n: nat,
    out: Seq<T>,
) -> bool {
    &&& out.len() == m * n
    &&& forall|i: int|
        0 <= i < m ==> product_row(ops, a, k, b, n, i, #[trigger] rows::row(out, n, i))
}

/// One element of the product.
fn matmul_cell<T: Copy, A: Arithmetic<T>>(
    ops: &A,
    a: &[T],
    b: &[T],
    m: usize,
    k: usize,
    n: usize,
    i: usize,
    j: usize,
) -> (r: T)
    requires
        a@.len() == m * k,
        b@.len() == k * n,
        i < m,
        j < n,
    ensures
        arith::dot(
            ops,
            rows::row(a@, k as nat, i as int),
            rows::column(b@, n as nat, k as nat, j as int),
            k as nat,
            r,
        ),
{
    let ghost xs = rows::row(a@, k as nat, i as int);
    let ghost ys = rows::column(b@, n as nat, k as nat, j as int);
    assert(a@.len() == a.len() && b@.len() == b.len());
    proof {
        rows::lemma_row_bounds(m as int, k as int, i as int);
    }
    let base: usize = i * k;
    let mut acc: T = ops.zero();
    let mut kk: usize = 0;
    while kk < k
        invariant
            kk <= k,
            a@.len() == m * k,
            b@.len() == k * n,
            a@.len() == a.len(),
            b@.len() == b.len(),
            i < m,
            j < n,
            base == i * k,
            base + k <= a@.len(),
            xs == rows::row(a@, k as nat, i as int),
            ys == rows::column(b@, n as nat, k as nat, j as int),
            arith::dot(ops, xs, ys, kk as nat, acc),
        decreases k - kk,
    {
        proof {
            rows::lemma_position(k as int, n as int, kk as int, j as int);
        }
        let x = a[base + kk];
        let y = b[kk * n + j];
        let p = ops.mul(x, y);
        let ghost prev = acc;
        acc = ops.add(acc, p);
        assert(xs[kk as int] == x && ys[kk as int] == y);
        assert(arith::sum(ops, prev, p, acc));
        kk = kk + 1;
    }
    acc
}

/// Compute row `i` of the product into `out`.
fn matmul_row<T: Copy, A: Arithmetic<T>>(
    ops: &A,
    a: &[T],
    b: &[T],
    m: usize,
    k: usize,
    n: usize,
    i: usize,
    out: &mut [T],
)
    requires
        a@.len() == m * k,
        b@.len() == k * n,
        i < m,
        old(out)@.len() == n,
    ensures
        product_row(ops, a@, k as nat, b@, n as nat, i as int, final(out)@),
{
    let mut j: usize = 0;
    while j < n
        invariant
            j <= n,
            a@.len() == m * k,
            b@.len() == k * n,
            i < m,
            out@.len() == n,
            forall|c: int|
                0 <= c < j ==> arith::dot(
                    ops,
                    rows::row(a@, k as nat, i as int),
                    rows::column(b@, n as nat, k as nat, c),
                    k as nat,
                    #[trigger] out@[c],
                ),
        decreases n - j,
    {
        out[j] = matmul_cell(ops, a, b, m, k, n, i, j);
        j = j + 1;
    }
}

/// Rayon's `par_chunks_mut`, `enumerate` and `for_each`: `out` is cut into
/// consecutive chunks of `n` elements, and `matmul_row` is called once for each
/// of them, with its position among the chunks. So each row of `out` is as
/// `matmul_row` leaves it, whichever thread computed it.
#[verifier::external_body]
fn matmul_rows_in_parallel<T: Copy + Send + Sync, A: Arithmetic<T> + Sync>(
    ops: &A,
    a: &[T],
    b: &[T],
    m: usize,
    k: usize,
    n: usize,
    out: &mut [T],
)
    requires
        n > 0,
        a@.len() == m * k,
        b@.len() == k * n,
        old(out)@.len() == m * n,
    ensures
        product_matrix(ops, a@, b@, m as nat, k as nat, n as nat, final(out)@),
{
    out.par_chunks_mut(n).enumerate().for_each(
        |(i, chunk)| matmul_row(ops, a, b, m, k, n, i, chunk),
    );
}

/// Compute `out = a * b` where `a` has shape `(M, K)` and `b` has shape
/// `(K, N)`, both stored row-major. `out` is row-major `(M, N)`.
///
/// Each output row is computed by a single thread; the reduction over `K` is
/// sequential within that thread.
pub fn matmul_f32<T: Copy + Send + Sync, A: Arithmetic<T> + Sync>(
    ops: &A,
    a: &[T],
    a_shape: (usize, usize),
    b: &[T],
    b_shape: (usize, usize),
    out: &mut [T],
)
    requires
        a_shape.1 == b_shape.0,
        a@.len() == a_shape.0 * a_shape.1,
        b@.len() == b_shape.0 * b_shape.1,
        old(out)@.len() == a_shape.0 * b_shape.1,
    ensures
        product_matrix(
            ops,
            a@,
            b@,
            a_shape.0 as nat,
            a_shape.1 as nat,
            b_shape.1 as nat,
            final(out)@,
        ),
{
    if b_shape.1 > 0 {
        matmul_rows_in_parallel(ops, a, b, a_shape.0, a_shape.1, b_shape.1, out);
    }
}

/// The same as [`matmul_f32`], row by row on the calling thread.
pub fn matmul_f32_serial<T: Copy, A: Arithmetic<T>>(
    ops: &A,
    a: &[T],
    a_shape: (usize, usize),
    b: &[T],
    b_shape: (usize, usize),
    out: &mut [T],
)
    requires
        a_shape.1 == b_shape.0,
        a@.len() == a_shape.0 * a_shape.1,
        b@.len() == b_shape.0 * b_shape.1,
        old(out)@.len() == a_shape.0 * b_shape.1,
    ensures
        product_matrix(
            ops,
            a@,
            b@,
            a_shape.0 as nat,
            a_shape.1 as nat,
            b_shape.1 as nat,
            final(out)@,
        ),
{
    let m: usize = a_shape.0;
    let k: usize = a_shape.1;
    let n: usize = b_shape.1;
    let mut i: usize = 0;
    while i < m
        invariant
            i <= m,
            a@.len() == m * k,
            b@.len() == k * n,
            out@.len() == m * n,
            forall|r: int|
                0 <= r < i ==> product_row(
                    ops,
                    a@,
                    k as nat,
                    b@,
                    n as nat,
                    r,
                    #[trigger] rows::row(out@, n as nat, r),
                ),
        decreases m - i,
    {
        let ghost before = out@;
        assert(out@.len() == out.len());
        proof {
            rows::lemma_row_bounds(m as int, n as int, i as int);
        }
        let base: usize = i * n;
        let mut j: usize = 0;
        while j < n
            invariant
                j <= n,
                i < m,
                a@.len() == m * k,
                b@.len() == k * n,
                out@.len() == m * n,
                before.len() == m * n,
                base == i * n,
                base + n <= m * n,
                m * n <= usize::MAX,
                forall|p: int| 0 <= p < base ==> #[trigger] out@[p] == before[p],
                forall|c: int|
                    #![trigger out@[base + c]]
                    0 <= c < j ==> arith::dot(
                        ops,
                        rows::row(a@, k as nat, i as int),
                        rows::column(b@, n as nat, k as nat, c),
                        k as nat,
                        out@[base + c],
                    ),
            decreases n - j,
        {
            let v = matmul_cell(ops, a, b, m, k, n, i, j);
            out[base + j] = v;
            j = j + 1;
        }
        assert forall|r: int| 0 <= r < i + 1 implies product_row(
            ops,
            a@,
            k as nat,
            b@,
            n as nat,
            r,
            #[trigger] rows::row(out@, n as nat, r),
        ) by {
            if r < i {
                rows::lemma_row_bounds(i as int, n as int, r);
                rows::lemma_row_unchanged(before, out@, m as int, n as nat, r);
                assert(rows::row(before, n as nat, r) == rows::row(out@, n as nat, r));
            } else {
                let last = rows::row(out@, n as nat, r);
                assert forall|c: int| 0 <= c < n implies arith::dot(
                    ops,
                    rows::row(a@, k as nat, r),
                    rows::column(b@, n as nat, k as nat, c),
                    k as nat,
                    #[trigger] last[c],
                ) by {
                    assert(last[c] == out@[base + c]);
                }
            }
        }
        i = i + 1;
    }
}

/// How the rows are shared out does not show: a matrix that takes each row from
/// one of two products of the same factors is a product of them too.
pub proof fn law_rows_are_independent<T, A: Arithmetic<T>>(
    ops: &A,
    a: Seq<T>,
    b: Seq<T>,
    m: nat,
    k: nat,
    n: nat,
    r: Seq<T>,
    s: Seq<T>,
    mixed: Seq<T>,
)
    requires
        product_matrix(ops, a, b, m, k, n, r),
        product_matrix(ops, a, b, m, k, n, s),
        mixed.len() == m * n,
        forall|i: int|
            0 <= i < m ==> #[trigger] rows::row(mixed, n, i) == rows::row(r, n, i) || rows::row(
                mixed,
                n,
                i,
            ) == rows::row(s, n, i),
    ensures
        product_matrix(ops, a, b, m, k, n, mixed),
{
    assert forall|i: int| 0 <= i < m implies product_row(
        ops,
        a,
        k,
        b,
        n,
        i,
        #[trigger] rows::row(mixed, n, i),
    ) by {
        assert(product_row(ops, a, k, b, n, i, rows::row(r, n, i)));
        assert(product_row(ops, a, k, b, n, i, rows::row(s, n, i)));
    }
}

/// The product is determined by the factors wherever the operations that it
/// takes give one result each: two calls leave the same output, element for
/// element, on any number of threads and whatever the output held before.
pub proof fn law_product_is_determined<T, A: Arithmetic<T>>(
    ops: &A,
    a: Seq<T>,
    b: Seq<T>,
    m: nat,
    k: nat,
    n: nat,
    r: Seq<T>,
    s: Seq<T>,
)
    requires
        forall|i: int, j: int|
            0 <= i < m && 0 <= j < n ==> arith::steps_determined(
                ops,
                #[trigger] rows::row(a, k, i),
                #[trigger] rows::column(b, n, k, j),
                k,
            ),
        product_matrix(ops, a, b, m, k, n, r),
        product_matrix(ops, a, b, m, k, n, s),
    ensures
        r == s,
{
    assert forall|i: int| 0 <= i < m implies #[trigger] rows::row(r, n, i) == rows::row(s, n, i) by {
        let x = rows::row(r, n, i);
        let y = rows::row(s, n, i);
        assert forall|j: int| 0 <= j < n implies x[j] == y[j] by {
            arith::law_dot_is_determined(
                ops,
                rows::row(a, k, i),
                rows::column(b, n, k, j),
                k,
                x[j],
                y[j],
            );
        }
        assert(x =~= y);
    }
    rows::lemma_same_rows(r, s, m, n);
}

/// An element of the product step by step, on the elements of the factors: over
/// all of the inner dimension in order, the product of an element of the row of
/// `a` and one of the column of `b` is added to the sum so far, which is zero at
/// first.
pub proof fn law_product_steps<T, A: Arithmetic<T>>(
    ops: &A,
    a: Seq<T>,
    b: Seq<T>,
    m: nat,
    k: nat,
    n: nat,
    out: Seq<T>,
    i: int,
    j: int,
) -> (steps: (Seq<T>, Seq<T>))
    requires
        a.len() == m * k,
        b.len() == k * n,
        product_matrix(ops, a, b, m, k, n, out),
        0 <= i < m,
        0 <= j < n,
    ensures
        steps.0.len() == k,
        steps.1.len() == k + 1,
        call_ensures(A::zero, (ops,), steps.1[0]),
        forall|q: int|
            0 <= q < k ==> call_ensures(
                A::mul,
                (ops, a[i * k + q], b[q * n + j]),
                #[trigger] steps.0[q],
            ),
        forall|q: int|
            0 <= q < k ==> call_ensures(
                A::add,
                (ops, #[trigger] steps.1[q], steps.0[q]),
                steps.1[q + 1],
            ),
        steps.1[k as int] == out[i * n + j],
        out.len() == m * n,
{
    let xs = rows::row(a, k, i);
    let ys = rows::column(b, n, k, j);
    rows::law_row(out, m, n, i, j);
    let line = rows::row(out, n, i);
    assert(arith::dot(ops, xs, ys, k, line[j]));
    let steps = arith::law_dot_steps(ops, xs, ys, k, line[j]);
    assert forall|q: int| 0 <= q < k implies call_ensures(
        A::mul,
        (ops, a[i * k + q], b[q * n + j]),
        #[trigger] steps.0[q],
    ) by {
        rows::law_row(a, m, k, i, q);
        rows::law_column(b, k, n, q, j);
        assert(call_ensures(A::mul, (ops, xs[q], ys[q]), steps.0[q]));
    }
    steps
}

/// Without rounding, an element of the product is the sum over all of the inner
/// dimension of the products of the elements of `a` and `b`.
pub proof fn law_product_is_exact<T, A: Arithmetic<T>>(
    ops: &A,
    ideal: arith::Ideal<T>,
    a: Seq<T>,
    b: Seq<T>,
    m: nat,
    k: nat,
    n: nat,
    out: Seq<T>,
    i: int,
    j: int,
)
    requires
        arith::exact(ops, ideal),
        a.len() == m * k,
        b.len() == k * n,
        product_matrix(ops, a, b, m, k, n, out),
        0 <= i < m,
        0 <= j < n,
    ensures
        (ideal.value)(out[i * n + j]) == arith::total(
            Seq::new(k, |q: int| (ideal.value)(a[i * k + q]) * (ideal.value)(b[q * n + j])),
        ),
{
    let v = ideal.value;
    let xs = rows::row(a, k, i);
    let ys = rows::column(b, n, k, j);
    rows::law_row(out, m, n, i, j);
    let line = rows::row(out, n, i);
    assert(arith::dot(ops, xs, ys, k, line[j]));
    arith::law_dot_is_exact(ops, ideal, xs, ys, k, line[j]);
    let terms = Seq::new(k, |q: int| v(a[i * k + q]) * v(b[q * n + j]));
    let got = Seq::new(k, |q: int| v(xs[q]) * v(ys[q]));
    assert forall|q: int| 0 <= q < k implies terms[q] == got[q] by {
        rows::law_row(a, m, k, i, q);
        rows::law_column(b, k, n, q, j);
    }
    assert(terms =~= got);
}

/// Without rounding, the product with the identity matrix is the other factor,
/// whatever its size.
pub proof fn law_identity<T, A: Arithmetic<T>>(
    ops: &A,
    ideal: arith::Ideal<T>,
    a: Seq<T>,
    b: Seq<T>,
    m: nat,
    k: nat,
    out: Seq<T>,
    i: int,
    j: int,
)
    requires
        arith::exact(ops, ideal),
        a.len() == m * k,
        b.len() == k * k,
        forall|p: int, q: int|
            #![trigger b[p * k + q]]
            0 <= p < k && 0 <= q < k ==> (ideal.value)(b[p * k + q]) == if p == q {
                1 as real
            } else {
                0 as real
            },
        product_matrix(ops, a, b, m, k, k, out),
        0 <= i < m,
        0 <= j < k,
    ensures
        (ideal.value)(out[i * k + j]) == (ideal.value)(a[i * k + j]),
{
    let v = ideal.value;
    law_product_is_exact(ops, ideal, a, b, m, k, k, out, i, j);
    let terms = Seq::new(k, |q: int| v(a[i * k + q]) * v(b[q * k + j]));
    assert forall|q: int| 0 <= q < k implies #[trigger] terms[q] == if q == j {
        v(a[i * k + j])
    } else {
        0 as real
    } by {
        let x = v(a[i * k + q]);
        assert(v(b[q * k + j]) == if q == j {
            1 as real
        } else {
            0 as real
        });
        assert(x * (1 as real) == x && x * (0 as real) == 0 as real);
    }
    lemma_one_term(terms, j, v(a[i * k + j]), k);
    assert(terms.take(k as int) =~= terms);
}

/// The sum of numbers of which all but one are zero.
proof fn lemma_one_term(terms: Seq<real>, j: int, x: real, n: nat)
    requires
        n <= terms.len(),
        forall|q: int|
            0 <= q < terms.len() ==> #[trigger] terms[q] == if q == j {
                x
            } else {
                0 as real
            },
    ensures
        arith::total(terms.take(n as int)) == if 0 <= j < n {
            x
        } else {
            0 as real
        },
    decreases n,
{
    if n == 0 {
        arith::law_total(terms.take(0), 0 as real);
        assert(terms.take(0) =~= Seq::empty());
    } else {
        lemma_one_term(terms, j, x, (n - 1) as nat);
        arith::law_total(terms.take(n - 1), terms[n - 1]);
        assert(terms.take(n as int) =~= terms.take(n - 1).push(terms[n - 1]));
    }
}

} // verus!
