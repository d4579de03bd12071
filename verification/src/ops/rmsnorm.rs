//! Row-wise RMS normalization with a multiplicative weight, in place.
//!
//! The sum of squares of a row is accumulated in the element type, in order.

use vstd::prelude::*;

use crate::arith;
use crate::arith::Arithmetic;
use crate::ieee;
use crate::rows;

verus! {

/// `r` can be `1 / sqrt(mean(x * x) + eps)`, with the mean taken over `x`.
pub open spec fn rms_scale<T, A: Arithmetic<T>>(
    ops: &A,
    x: Seq<T>,
    n: usize,
    eps: u32,
    r: T,
) -> bool {
    exists|squares: T, inv: T, mean: T, e: T, shifted: T, root: T|
        {
            &&& arith::dot(ops, x, x, n as nat, squares)
            &&& arith::count_reciprocal(ops, n, inv)
            &&& #[trigger] arith::product(ops, squares, inv, mean)
            &&& arith::pattern(ops, eps, e)
            &&& #[trigger] arith::sum(ops, mean, e, shifted)
            &&& #[trigger] arith::root(ops, shifted, root)
            &&& arith::reciprocal(ops, root, r)
        }
}

/// `y` can be `x * scale * w`.
pub open spec fn weighted<T, A: Arithmetic<T>>(ops: &A, x: T, scale: T, w: T, y: T) -> bool {
    exists|p: T| arith::product(ops, x, scale, p) && #[trigger] arith::product(ops, p, w, y)
}

/// Every element of `y` can be that of `x` times `scale` and its weight.
pub open spec fn weighted_row<T, A: Arithmetic<T>>(
    ops: &A,
    x: Seq<T>,
    scale: T,
    weight: Seq<T>,
    y: Seq<T>,
) -> bool {
    forall|j: int| 0 <= j < weight.len() ==> weighted(ops, x[j], scale, weight[j], #[trigger] y[j])
}

/// `y` can be the row `x` normalized: every element times
/// `1 / sqrt(mean(x * x) + eps)`, times its weight.
pub open spec fn normalized_row<T, A: Arithmetic<T>>(
    ops: &A,
    x: Seq<T>,
    weight: Seq<T>,
    eps: u32,
    y: Seq<T>,
) -> bool {
    exists|scale: T|
        {
            &&& rms_scale(ops, x, weight.len() as usize, eps, scale)
            &&& #[trigger] weighted_row(ops, x, scale, weight, y)
        }
}

/// `y` can be `x` with every row normalized.
pub open spec fn normalized<T, A: Arithmetic<T>>(
    ops: &A,
    x: Seq<T>,
    weight: Seq<T>,
    eps: u32,
    y: Seq<T>,
) -> bool {
    &&& y.len() == x.len()
    &&& forall|r: int|
        0 <= r < x.len() / weight.len() ==> normalized_row(
            ops,
            rows::row(x, weight.len(), r),
            weight,
            eps,
            #[trigger] rows::row(y, weight.len(), r),
        )
}

/// The factor of the row of `n` elements that starts at `base`.
fn scale_of_row<T: Copy, A: Arithmetic<T>>(
    ops: &A,
    x: &[T],
    base: usize,
    n: usize,
    inv: T,
    Ghost(eps): Ghost<u32>,
    e: T,
) -> (r: T)
    requires
        base + n <= x@.len(),
        arith::count_reciprocal(ops, n, inv),
        arith::pattern(ops, eps, e),
    ensures
        rms_scale(ops, x@.subrange(base as int, base + n), n, eps, r),
{
    let ghost xs = x@.subrange(base as int, base + n);
    assert(x@.len() == x.len());
    let mut squares: T = ops.zero();
    let mut j: usize = 0;
    while j < n
        invariant
            j <= n,
            base + n <= x@.len() <= usize::MAX,
            xs == x@.subrange(base as int, base + n),
            arith::dot(ops, xs, xs, j as nat, squares),
        decreases n - j,
    {
        let v = x[base + j];
        let p = ops.mul(v, v);
        let ghost prev = squares;
        squares = ops.add(squares, p);
        assert(xs[j as int] == v);
        assert(arith::sum(ops, prev, p, squares));
        j = j + 1;
    }
    let mean = ops.mul(squares, inv);
    let shifted = ops.add(mean, e);
    let root = ops.sqrt(shifted);
    assert(arith::product(ops, squares, inv, mean));
    assert(arith::sum(ops, mean, e, shifted));
    assert(arith::root(ops, shifted, root));
    arith::reciprocal_of(ops, root)
}

/// Compute `x[i] = x[i] * weight[i % n] / sqrt(mean(x[row]^2) + eps)` for
/// every row of length `n = weight.len()` in `x`, in place. `eps` is given as a
/// binary32 bit pattern.
pub fn rmsnorm<T: Copy, A: Arithmetic<T>>(ops: &A, x: &mut [T], weight: &[T], eps: u32)
    requires
        weight@.len() > 0,
        old(x)@.len() % weight@.len() == 0,
        ieee::non_negative_finite(eps),
    ensures
        normalized(ops, old(x)@, weight@, eps, final(x)@),
{
    let n: usize = weight.len();
    let len: usize = x.len();
    let ghost before = x@;
    proof {
        rows::lemma_whole_rows(len as int, n as int);
    }
    let m: usize = len / n;
    let inv = arith::reciprocal_of_count(ops, n);
    let e = ops.from_bits(eps);
    let mut i: usize = 0;
    while i < m
        invariant
            i <= m,
            n == weight@.len(),
            len == m * n,
            m == len / n,
            before == old(x)@,
            before.len() == len,
            x@.len() == len,
            arith::count_reciprocal(ops, n, inv),
            arith::pattern(ops, eps, e),
            forall|r: int|
                0 <= r < i ==> normalized_row(
                    ops,
                    rows::row(before, n as nat, r),
                    weight@,
                    eps,
                    #[trigger] rows::row(x@, n as nat, r),
                ),
            forall|r: int|
                i <= r < m ==> #[trigger] rows::row(x@, n as nat, r) == rows::row(
                    before,
                    n as nat,
                    r,
                ),
        decreases m - i,
    {
        let ghost start = x@;
        proof {
            rows::lemma_row_bounds(m as int, n as int, i as int);
        }
        let base: usize = i * n;
        let scale = scale_of_row(ops, x, base, n, inv, Ghost(eps), e);
        let mut j: usize = 0;
        while j < n
            invariant
                j <= n,
                n == weight@.len(),
                base + n <= len,
                x@.len() == len,
                start.len() == len,
                forall|p: int|
                    0 <= p < base || base + j <= p < len ==> #[trigger] x@[p] == start[p],
                forall|c: int|
                    #![trigger x@[base + c]]
                    0 <= c < j ==> weighted(ops, start[base + c], scale, weight@[c], x@[base + c]),
            decreases n - j,
        {
            let p = ops.mul(x[base + j], scale);
            let y = ops.mul(p, weight[j]);
            assert(arith::product(ops, p, weight@[j as int], y));
            x[base + j] = y;
            j = j + 1;
        }
        proof {
            let xs = rows::row(start, n as nat, i as int);
            let ys = rows::row(x@, n as nat, i as int);
            assert forall|c: int| 0 <= c < n implies weighted(
                ops,
                xs[c],
                scale,
                weight@[c],
                #[trigger] ys[c],
            ) by {
                assert(ys[c] == x@[base + c]);
            }
            assert(weighted_row(ops, xs, scale, weight@, ys));
            rows::lemma_other_rows_kept(start, x@, m as int, n as nat, i as int);
        }
        i = i + 1;
    }
}

/// Where the operations give one result each, so does the normalization.
pub proof fn law_normalization_is_determined<T, A: Arithmetic<T>>(
    ops: &A,
    x: Seq<T>,
    weight: Seq<T>,
    eps: u32,
    r: Seq<T>,
    s: Seq<T>,
)
    requires
        arith::determined::<T, A>(ops),
        0 < weight.len() <= usize::MAX,
        x.len() % weight.len() == 0,
        normalized(ops, x, weight, eps, r),
        normalized(ops, x, weight, eps, s),
    ensures
        r == s,
{
    let n = weight.len();
    let m = (x.len() / n) as nat;
    rows::lemma_whole_rows(x.len() as int, n as int);
    assert forall|i: int| 0 <= i < m implies #[trigger] rows::row(r, n, i) == rows::row(s, n, i) by {
        let xs = rows::row(x, n, i);
        let y = rows::row(r, n, i);
        let z = rows::row(s, n, i);
        rows::lemma_row_bounds(m as int, n as int, i);
        let a = choose|scale: T|
            {
                &&& rms_scale(ops, xs, n as usize, eps, scale)
                &&& #[trigger] weighted_row(ops, xs, scale, weight, y)
            };
        let b = choose|scale: T|
            {
                &&& rms_scale(ops, xs, n as usize, eps, scale)
                &&& #[trigger] weighted_row(ops, xs, scale, weight, z)
            };
        lemma_scale_is_determined(ops, xs, n as usize, eps, a, b);
        assert forall|j: int| 0 <= j < n implies y[j] == z[j] by {
            assert(weighted(ops, xs[j], a, weight[j], y[j]));
            assert(weighted(ops, xs[j], b, weight[j], z[j]));
        }
        assert(y =~= z);
    }
    rows::lemma_same_rows(r, s, m, n);
}

proof fn lemma_scale_is_determined<T, A: Arithmetic<T>>(
    ops: &A,
    x: Seq<T>,
    n: usize,
    eps: u32,
    r: T,
    s: T,
)
    requires
        arith::determined::<T, A>(ops),
        rms_scale(ops, x, n, eps, r),
        rms_scale(ops, x, n, eps, s),
    ensures
        r == s,
{
    assert forall|a: T, b: T|
        #![trigger arith::dot(ops, x, x, n as nat, a), arith::dot(ops, x, x, n as nat, b)]
        arith::dot(ops, x, x, n as nat, a) && arith::dot(ops, x, x, n as nat, b) implies a == b by {
        arith::law_dot_is_determined(ops, x, x, n as nat, a, b);
    }
}

/// What comes up while a row is normalized.
pub struct NormSteps<T> {
    pub squares: Seq<T>,
    pub sums: Seq<T>,
    pub count: T,
    pub one: T,
    pub inverse: T,
    pub mean: T,
    pub eps: T,
    pub shifted: T,
    pub root: T,
    pub unit: T,
    pub scale: T,
    pub scaled: Seq<T>,
}

/// The normalization of row `r` step by step, on the elements: the squares of
/// all the elements of the row are added up in order from zero, the sum is taken
/// times one over their number, `eps` is added, and one over the root of that
/// scales every element before its weight does.
pub proof fn law_normalization_steps<T, A: Arithmetic<T>>(
    ops: &A,
    x: Seq<T>,
    weight: Seq<T>,
    eps: u32,
    y: Seq<T>,
    r: int,
) -> (w: NormSteps<T>)
    requires
        0 < weight.len() <= usize::MAX,
        x.len() % weight.len() == 0,
        normalized(ops, x, weight, eps, y),
        0 <= r < x.len() / weight.len(),
    ensures
        y.len() == x.len(),
        w.squares.len() == weight.len(),
        w.sums.len() == weight.len() + 1,
        w.scaled.len() == weight.len(),
        forall|j: int|
            0 <= j < weight.len() ==> call_ensures(
                A::mul,
                (ops, x[r * weight.len() + j], x[r * weight.len() + j]),
                #[trigger] w.squares[j],
            ),
        call_ensures(A::zero, (ops,), w.sums[0]),
        forall|j: int|
            0 <= j < weight.len() ==> call_ensures(
                A::add,
                (ops, #[trigger] w.sums[j], w.squares[j]),
                w.sums[j + 1],
            ),
        call_ensures(A::from_usize, (ops, weight.len() as usize), w.count),
        call_ensures(A::one, (ops,), w.one),
        call_ensures(A::div, (ops, w.one, w.count), w.inverse),
        call_ensures(A::mul, (ops, w.sums[weight.len() as int], w.inverse), w.mean),
        call_ensures(A::from_bits, (ops, eps), w.eps),
        call_ensures(A::add, (ops, w.mean, w.eps), w.shifted),
        call_ensures(A::sqrt, (ops, w.shifted), w.root),
        call_ensures(A::one, (ops,), w.unit),
        call_ensures(A::div, (ops, w.unit, w.root), w.scale),
        forall|j: int|
            0 <= j < weight.len() ==> call_ensures(
                A::mul,
                (ops, x[r * weight.len() + j], w.scale),
                #[trigger] w.scaled[j],
            ),
        forall|j: int|
            0 <= j < weight.len() ==> call_ensures(
                A::mul,
                (ops, #[trigger] w.scaled[j], weight[j]),
                y[r * weight.len() + j],
            ),
{
    let n = weight.len();
    let m = (x.len() / n) as nat;
    rows::lemma_whole_rows(x.len() as int, n as int);
    let xs = rows::row(x, n, r);
    let ys = rows::row(y, n, r);
    assert forall|j: int| 0 <= j < n implies xs[j] == x[r * n + j] && ys[j] == y[r * n + j] by {
        rows::law_row(x, m, n, r, j);
        rows::law_row(y, m, n, r, j);
    }
    assert(normalized_row(ops, xs, weight, eps, ys));
    let scale = choose|scale: T|
        {
            &&& rms_scale(ops, xs, n as usize, eps, scale)
            &&& #[trigger] weighted_row(ops, xs, scale, weight, ys)
        };
    let (squares, inverse, mean, e, shifted, root) = choose|
        squares: T,
        inv: T,
        mean: T,
        e: T,
        shifted: T,
        root: T,
    |
        {
            &&& arith::dot(ops, xs, xs, n, squares)
            &&& arith::count_reciprocal(ops, n as usize, inv)
            &&& #[trigger] arith::product(ops, squares, inv, mean)
            &&& arith::pattern(ops, eps, e)
            &&& #[trigger] arith::sum(ops, mean, e, shifted)
            &&& #[trigger] arith::root(ops, shifted, root)
            &&& arith::reciprocal(ops, root, scale)
        };
    let steps = arith::law_dot_steps(ops, xs, xs, n, squares);
    let count = choose|c: T|
        arith::count(ops, n as usize, c) && #[trigger] arith::reciprocal(ops, c, inverse);
    let one = choose|o: T| arith::one(ops, o) && #[trigger] arith::quotient(ops, o, count, inverse);
    let unit = choose|o: T| arith::one(ops, o) && #[trigger] arith::quotient(ops, o, root, scale);
    let scaled = Seq::new(
        n,
        |j: int|
            choose|p: T|
                arith::product(ops, xs[j], scale, p) && #[trigger] arith::product(
                    ops,
                    p,
                    weight[j],
                    ys[j],
                ),
    );
    assert forall|j: int| 0 <= j < n implies arith::product(ops, xs[j], scale, #[trigger] scaled[j])
        && arith::product(ops, scaled[j], weight[j], ys[j]) by {
        assert(weighted(ops, xs[j], scale, weight[j], ys[j]));
    }
    NormSteps {
        squares: steps.0,
        sums: steps.1,
        count,
        one,
        inverse,
        mean,
        eps: e,
        shifted,
        root,
        unit,
        scale,
        scaled,
    }
}

/// Without rounding, every row is scaled by the root of its mean square, taken
/// over the whole row, with `eps` added: there is a positive number whose square
/// is that mean, and an element of the output times that number is the element
/// of the input times its weight.
pub proof fn law_normalization_is_exact<T, A: Arithmetic<T>>(
    ops: &A,
    ideal: arith::Ideal<T>,
    x: Seq<T>,
    weight: Seq<T>,
    eps: u32,
    y: Seq<T>,
    r: int,
) -> (s: real)
    requires
        arith::exact(ops, ideal),
        0 < weight.len() <= usize::MAX,
        x.len() % weight.len() == 0,
        normalized(ops, x, weight, eps, y),
        0 <= r < x.len() / weight.len(),
        arith::total(
            Seq::new(
                weight.len(),
                |j: int|
                    (ideal.value)(x[r * weight.len() + j]) * (ideal.value)(
                        x[r * weight.len() + j],
                    ),
            ),
        ) + (weight.len() as int as real) * (ideal.decode)(eps) > 0 as real,
    ensures
        s > 0 as real,
        s * s * (weight.len() as int as real) == arith::total(
            Seq::new(
                weight.len(),
                |j: int|
                    (ideal.value)(x[r * weight.len() + j]) * (ideal.value)(
                        x[r * weight.len() + j],
                    ),
            ),
        ) + (weight.len() as int as real) * (ideal.decode)(eps),
        forall|j: int|
            #![trigger weight[j]]
            0 <= j < weight.len() ==> (ideal.value)(y[r * weight.len() + j]) * s == (ideal.value)(
                x[r * weight.len() + j],
            ) * (ideal.value)(weight[j]),
{
    let v = ideal.value;
    let n = weight.len();
    let w = law_normalization_steps(ops, x, weight, eps, y, r);
    let terms = Seq::new(n, |j: int| v(x[r * n + j]) * v(x[r * n + j]));
    let got = Seq::new(n, |j: int| v(w.squares[j]));
    assert forall|j: int| 0 <= j < n implies terms[j] == got[j] by {
        assert(call_ensures(A::mul, (ops, x[r * n + j], x[r * n + j]), w.squares[j]));
    }
    assert(terms =~= got);
    arith::lemma_sums_are_exact(ops, ideal, w.squares, w.sums, n);
    let all = arith::total(terms);
    let c = n as int as real;
    let e = (ideal.decode)(eps);
    let s = v(w.root);
    assert(v(w.count) == c && c > 0 as real);
    assert(v(w.inverse) * c == 1 as real);
    assert(v(w.mean) == all * v(w.inverse));
    assert(v(w.shifted) * c == all + c * e) by (nonlinear_arith)
        requires
            v(w.shifted) == all * v(w.inverse) + e,
            v(w.inverse) * c == 1 as real,
    ;
    assert(v(w.shifted) > 0 as real) by (nonlinear_arith)
        requires
            v(w.shifted) * c == all + c * e,
            all + c * e > 0 as real,
            c > 0 as real,
    ;
    assert(s > 0 as real) by (nonlinear_arith)
        requires
            s >= 0 as real,
            s * s == v(w.shifted),
            v(w.shifted) > 0 as real,
    ;
    assert(v(w.scale) * s == 1 as real);
    assert forall|j: int|
        #![trigger weight[j]]
        0 <= j < n implies v(y[r * n + j]) * s == v(x[r * n + j]) * v(weight[j]) by {
        let a = v(x[r * n + j]);
        let b = v(weight[j]);
        let p = v(w.scaled[j]);
        assert(call_ensures(A::mul, (ops, x[r * n + j], w.scale), w.scaled[j]));
        assert(call_ensures(A::mul, (ops, w.scaled[j], weight[j]), y[r * n + j]));
        let t = v(w.scale);
        assert((a * t) * b * s == a * b) by (nonlinear_arith)
            requires
                t * s == 1 as real,
        ;
    }
    s
}

/// Without rounding, and with `eps` zero and weights of one, the squares of a
/// normalized row that is not all zero add up to the number of its elements.
pub proof fn law_normalized_squares<T, A: Arithmetic<T>>(
    ops: &A,
    ideal: arith::Ideal<T>,
    x: Seq<T>,
    weight: Seq<T>,
    eps: u32,
    y: Seq<T>,
    r: int,
)
    requires
        arith::exact(ops, ideal),
        0 < weight.len() <= usize::MAX,
        x.len() % weight.len() == 0,
        normalized(ops, x, weight, eps, y),
        0 <= r < x.len() / weight.len(),
        (ideal.decode)(eps) == 0 as real,
        forall|j: int| 0 <= j < weight.len() ==> (ideal.value)(#[trigger] weight[j]) == 1 as real,
        arith::total(
            Seq::new(
                weight.len(),
                |j: int|
                    (ideal.value)(x[r * weight.len() + j]) * (ideal.value)(
                        x[r * weight.len() + j],
                    ),
            ),
        ) > 0 as real,
    ensures
        arith::total(
            Seq::new(
                weight.len(),
                |j: int|
                    (ideal.value)(y[r * weight.len() + j]) * (ideal.value)(
                        y[r * weight.len() + j],
                    ),
            ),
        ) == weight.len() as int as real,
{
    let v = ideal.value;
    let n = weight.len();
    let c = n as int as real;
    let before = Seq::new(n, |j: int| v(x[r * n + j]) * v(x[r * n + j]));
    let after = Seq::new(n, |j: int| v(y[r * n + j]) * v(y[r * n + j]));
    assert(c * (0 as real) == 0 as real);
    let s = law_normalization_is_exact(ops, ideal, x, weight, eps, y, r);
    assert forall|j: int| 0 <= j < n implies #[trigger] before[j] == after[j] * (s * s) by {
        let a = v(x[r * n + j]);
        let b = v(y[r * n + j]);
        assert(v(weight[j]) == 1 as real);
        assert(b * s == a);
        assert(a * a == (b * b) * (s * s)) by (nonlinear_arith)
            requires
                b * s == a,
        ;
    }
    arith::lemma_total_scales(after, before, s * s);
    let t = arith::total(after);
    assert(t == c) by (nonlinear_arith)
        requires
            s > 0 as real,
            s * s * c == t * (s * s),
    ;
}

} // verus!
