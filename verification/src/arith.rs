//! The arithmetic that the kernels are built on.
//!
//! A kernel fixes which operations are done on which elements and in which
//! order; the operations themselves are supplied by the caller, so one kernel
//! serves every number format. Nothing is assumed of an operation, not even
//! that it gives the same result twice: the contracts of the kernels say that
//! each result is one that the operation gave.

use vstd::prelude::*;

verus! {

/// Arithmetic on elements of type `T`.
pub trait Arithmetic<T> {
    /// Zero.
    fn zero(&self) -> T;

    /// One.
    fn one(&self) -> T;

    /// The value below all others.
    fn neg_infinity(&self) -> T;

    /// The element nearest to a count.
    fn from_usize(&self, n: usize) -> T;

    /// The element nearest to an integer.
    fn from_i32(&self, n: i32) -> T;

    /// The element that a binary32 bit pattern stands for.
    fn from_bits(&self, bits: u32) -> T;

    /// `a + b`
    fn add(&self, a: T, b: T) -> T;

    /// `a - b`
    fn sub(&self, a: T, b: T) -> T;

    /// `a * b`
    fn mul(&self, a: T, b: T) -> T;

    /// `a / b`
    fn div(&self, a: T, b: T) -> T;

    /// `-a`
    fn neg(&self, a: T) -> T;

    /// The exponential of `a`.
    fn exp(&self, a: T) -> T;

    /// The square root of `a`.
    fn sqrt(&self, a: T) -> T;

    /// `a` to the power `b`.
    fn powf(&self, a: T, b: T) -> T;

    /// The sine and the cosine of `a`.
    fn sin_cos(&self, a: T) -> (T, T);

    /// `a > b`
    fn gt(&self, a: T, b: T) -> bool;
}

/// `r` can be what `ops` gives for zero.
pub open spec fn zero<T, A: Arithmetic<T>>(ops: &A, r: T) -> bool {
    call_ensures(A::zero, (ops,), r)
}

/// `r` can be what `ops` gives for one.
pub open spec fn one<T, A: Arithmetic<T>>(ops: &A, r: T) -> bool {
    call_ensures(A::one, (ops,), r)
}

/// `r` can be what `ops` gives for the value below all others.
pub open spec fn neg_infinity<T, A: Arithmetic<T>>(ops: &A, r: T) -> bool {
    call_ensures(A::neg_infinity, (ops,), r)
}

/// `r` can be what `ops` gives for the count `n`.
pub open spec fn count<T, A: Arithmetic<T>>(ops: &A, n: usize, r: T) -> bool {
    call_ensures(A::from_usize, (ops, n), r)
}

/// `r` can be what `ops` gives for the integer `n`.
pub open spec fn integer<T, A: Arithmetic<T>>(ops: &A, n: i32, r: T) -> bool {
    call_ensures(A::from_i32, (ops, n), r)
}

/// `r` can be what `ops` gives for the bit pattern `bits`.
pub open spec fn pattern<T, A: Arithmetic<T>>(ops: &A, bits: u32, r: T) -> bool {
    call_ensures(A::from_bits, (ops, bits), r)
}

/// `r` can be what `ops` gives for `a + b`.
pub open spec fn sum<T, A: Arithmetic<T>>(ops: &A, a: T, b: T, r: T) -> bool {
    call_ensures(A::add, (ops, a, b), r)
}

/// `r` can be what `ops` gives for `a - b`.
pub open spec fn difference<T, A: Arithmetic<T>>(ops: &A, a: T, b: T, r: T) -> bool {
    call_ensures(A::sub, (ops, a, b), r)
}

/// `r` can be what `ops` gives for `a * b`.
pub open spec fn product<T, A: Arithmetic<T>>(ops: &A, a: T, b: T, r: T) -> bool {
    call_ensures(A::mul, (ops, a, b), r)
}

/// `r` can be what `ops` gives for `a / b`.
pub open spec fn quotient<T, A: Arithmetic<T>>(ops: &A, a: T, b: T, r: T) -> bool {
    call_ensures(A::div, (ops, a, b), r)
}

/// `r` can be what `ops` gives for `-a`.
pub open spec fn negation<T, A: Arithmetic<T>>(ops: &A, a: T, r: T) -> bool {
    call_ensures(A::neg, (ops, a), r)
}

/// `r` can be what `ops` gives for the exponential of `a`.
pub open spec fn exponential<T, A: Arithmetic<T>>(ops: &A, a: T, r: T) -> bool {
    call_ensures(A::exp, (ops, a), r)
}

/// `r` can be what `ops` gives for the square root of `a`.
pub open spec fn root<T, A: Arithmetic<T>>(ops: &A, a: T, r: T) -> bool {
    call_ensures(A::sqrt, (ops, a), r)
}

/// `r` can be what `ops` gives for `a` to the power `b`.
pub open spec fn power<T, A: Arithmetic<T>>(ops: &A, a: T, b: T, r: T) -> bool {
    call_ensures(A::powf, (ops, a, b), r)
}

/// `sin` and `cos` can be what `ops` gives for the sine and cosine of `a`.
pub open spec fn sine_cosine<T, A: Arithmetic<T>>(ops: &A, a: T, sin: T, cos: T) -> bool {
    call_ensures(A::sin_cos, (ops, a), (sin, cos))
}

/// `r` can be what `ops` gives for `a > b`.
pub open spec fn greater<T, A: Arithmetic<T>>(ops: &A, a: T, b: T, r: bool) -> bool {
    call_ensures(A::gt, (ops, a, b), r)
}

/// `acc` can be the sum of the products of the first `n` elements of `xs` and
/// `ys`, added up from zero, first to last.
pub open spec fn dot<T, A: Arithmetic<T>>(
    ops: &A,
    xs: Seq<T>,
    ys: Seq<T>,
    n: nat,
    acc: T,
) -> bool
    decreases n,
{
    if n == 0 {
        zero(ops, acc)
    } else {
        let m = (n - 1) as nat;
        exists|prev: T, p: T|
            {
                &&& dot(ops, xs, ys, m, prev)
                &&& product(ops, xs[m as int], ys[m as int], p)
                &&& #[trigger] sum(ops, prev, p, acc)
            }
    }
}

/// `r` can be what `ops` gives for `1 / a`.
pub open spec fn reciprocal<T, A: Arithmetic<T>>(ops: &A, a: T, r: T) -> bool {
    exists|o: T| one(ops, o) && #[trigger] quotient(ops, o, a, r)
}

/// `r` can be what `ops` gives for `1 / n`.
pub open spec fn count_reciprocal<T, A: Arithmetic<T>>(ops: &A, n: usize, r: T) -> bool {
    exists|c: T| count(ops, n, c) && #[trigger] reciprocal(ops, c, r)
}

/// Compute `1 / a`.
pub(crate) fn reciprocal_of<T, A: Arithmetic<T>>(ops: &A, a: T) -> (r: T)
    ensures
        reciprocal(ops, a, r),
{
    let o = ops.one();
    let r = ops.div(o, a);
    assert(quotient(ops, o, a, r));
    r
}

/// Compute `1 / n`.
pub(crate) fn reciprocal_of_count<T, A: Arithmetic<T>>(ops: &A, n: usize) -> (r: T)
    ensures
        count_reciprocal(ops, n, r),
{
    let c = ops.from_usize(n);
    reciprocal_of(ops, c)
}

/// The operations that a dot product uses give one result each.
pub open spec fn dot_determined<T, A: Arithmetic<T>>(ops: &A) -> bool {
    &&& forall|r: T, s: T| #[trigger] zero(ops, r) && #[trigger] zero(ops, s) ==> r == s
    &&& forall|a: T, b: T, r: T, s: T| #[trigger]
        product(ops, a, b, r) && #[trigger] product(ops, a, b, s) ==> r == s
    &&& forall|a: T, b: T, r: T, s: T| #[trigger]
        sum(ops, a, b, r) && #[trigger] sum(ops, a, b, s) ==> r == s
}

/// The operations of this one dot product give one result each: the zero that
/// it starts from, its first `n` products, and the sums that it comes by.
pub open spec fn steps_determined<T, A: Arithmetic<T>>(
    ops: &A,
    xs: Seq<T>,
    ys: Seq<T>,
    n: nat,
) -> bool {
    &&& forall|r: T, s: T| #[trigger] zero(ops, r) && #[trigger] zero(ops, s) ==> r == s
    &&& forall|i: nat, r: T, s: T|
        i < n && #[trigger] product(ops, xs[i as int], ys[i as int], r) && #[trigger] product(
            ops,
            xs[i as int],
            ys[i as int],
            s,
        ) ==> r == s
    &&& forall|i: nat, a: T, b: T, r: T, s: T|
        {
            &&& i < n
            &&& #[trigger] dot(ops, xs, ys, i, a)
            &&& product(ops, xs[i as int], ys[i as int], b)
            &&& #[trigger] sum(ops, a, b, r)
            &&& #[trigger] sum(ops, a, b, s)
        } ==> r == s
}

/// Comparing with one and with the value below all others gives one result
/// each.
pub open spec fn order_determined<T, A: Arithmetic<T>>(ops: &A) -> bool {
    &&& forall|r: T, s: T| #[trigger] one(ops, r) && #[trigger] one(ops, s) ==> r == s
    &&& forall|r: T, s: T| #[trigger]
        neg_infinity(ops, r) && #[trigger] neg_infinity(ops, s) ==> r == s
    &&& forall|a: T, b: T, r: bool, s: bool| #[trigger]
        greater(ops, a, b, r) && #[trigger] greater(ops, a, b, s) ==> r == s
}

/// The operations give one result each.
pub open spec fn determined<T, A: Arithmetic<T>>(ops: &A) -> bool {
    &&& dot_determined::<T, A>(ops)
    &&& order_determined::<T, A>(ops)
    &&& forall|n: usize, r: T, s: T| #[trigger]
        count(ops, n, r) && #[trigger] count(ops, n, s) ==> r == s
    &&& forall|n: i32, r: T, s: T| #[trigger]
        integer(ops, n, r) && #[trigger] integer(ops, n, s) ==> r == s
    &&& forall|b: u32, r: T, s: T| #[trigger]
        pattern(ops, b, r) && #[trigger] pattern(ops, b, s) ==> r == s
    &&& forall|a: T, b: T, r: T, s: T| #[trigger]
        difference(ops, a, b, r) && #[trigger] difference(ops, a, b, s) ==> r == s
    &&& forall|a: T, b: T, r: T, s: T| #[trigger]
        quotient(ops, a, b, r) && #[trigger] quotient(ops, a, b, s) ==> r == s
    &&& forall|a: T, r: T, s: T| #[trigger]
        negation(ops, a, r) && #[trigger] negation(ops, a, s) ==> r == s
    &&& forall|a: T, r: T, s: T| #[trigger]
        exponential(ops, a, r) && #[trigger] exponential(ops, a, s) ==> r == s
    &&& forall|a: T, r: T, s: T| #[trigger]
        root(ops, a, r) && #[trigger] root(ops, a, s) ==> r == s
    &&& forall|a: T, b: T, r: T, s: T| #[trigger]
        power(ops, a, b, r) && #[trigger] power(ops, a, b, s) ==> r == s
    &&& forall|a: T, r: T, q: T, s: T, t: T| #[trigger]
        sine_cosine(ops, a, r, q) && #[trigger] sine_cosine(ops, a, s, t) ==> r == s && q == t
}

/// Where the operations of a dot product give one result each, so does it.
pub proof fn law_dot_is_determined<T, A: Arithmetic<T>>(
    ops: &A,
    xs: Seq<T>,
    ys: Seq<T>,
    n: nat,
    r: T,
    s: T,
)
    requires
        steps_determined(ops, xs, ys, n),
        dot(ops, xs, ys, n, r),
        dot(ops, xs, ys, n, s),
    ensures
        r == s,
    decreases n,
{
    if n > 0 {
        let m = (n - 1) as nat;
        let (r0, rp) = choose|prev: T, p: T|
            {
                &&& dot(ops, xs, ys, m, prev)
                &&& product(ops, xs[m as int], ys[m as int], p)
                &&& #[trigger] sum(ops, prev, p, r)
            };
        let (s0, sp) = choose|prev: T, p: T|
            {
                &&& dot(ops, xs, ys, m, prev)
                &&& product(ops, xs[m as int], ys[m as int], p)
                &&& #[trigger] sum(ops, prev, p, s)
            };
        law_dot_is_determined(ops, xs, ys, m, r0, s0);
        assert(rp == sp);
        assert(dot(ops, xs, ys, m, r0) && sum(ops, r0, rp, r) && sum(ops, r0, rp, s));
    }
}

/// Real numbers for the elements: what the operations would compute if they did
/// not round.
#[verifier::reject_recursive_types(T)]
pub struct Ideal<T> {
    /// The number that an element stands for.
    pub value: spec_fn(T) -> real,
    /// The exponential.
    pub exp: spec_fn(real) -> real,
    /// Powers.
    pub pow: spec_fn(real, real) -> real,
    /// The sine.
    pub sin: spec_fn(real) -> real,
    /// The cosine.
    pub cos: spec_fn(real) -> real,
    /// The number that a binary32 bit pattern stands for.
    pub decode: spec_fn(u32) -> real,
}

/// The operations do not round: each gives the number that it is named after.
pub open spec fn exact<T, A: Arithmetic<T>>(ops: &A, ideal: Ideal<T>) -> bool {
    let v = ideal.value;
    &&& forall|r: T| #[trigger] call_ensures(A::zero, (ops,), r) ==> v(r) == 0 as real
    &&& forall|r: T| #[trigger] call_ensures(A::one, (ops,), r) ==> v(r) == 1 as real
    &&& forall|n: usize, r: T| #[trigger]
        call_ensures(A::from_usize, (ops, n), r) ==> v(r) == n as int as real
    &&& forall|n: i32, r: T| #[trigger]
        call_ensures(A::from_i32, (ops, n), r) ==> v(r) == n as int as real
    &&& forall|b: u32, r: T| #[trigger]
        call_ensures(A::from_bits, (ops, b), r) ==> v(r) == (ideal.decode)(b)
    &&& forall|a: T, b: T, r: T| #[trigger]
        call_ensures(A::add, (ops, a, b), r) ==> v(r) == v(a) + v(b)
    &&& forall|a: T, b: T, r: T| #[trigger]
        call_ensures(A::sub, (ops, a, b), r) ==> v(r) == v(a) - v(b)
    &&& forall|a: T, b: T, r: T| #[trigger]
        call_ensures(A::mul, (ops, a, b), r) ==> v(r) == v(a) * v(b)
    &&& forall|a: T, b: T, r: T| #[trigger]
        call_ensures(A::div, (ops, a, b), r) ==> v(b) != 0 as real ==> v(r) * v(b) == v(a)
    &&& forall|a: T, r: T| #[trigger] call_ensures(A::neg, (ops, a), r) ==> v(r) == -v(a)
    &&& forall|a: T, r: T| #[trigger]
        call_ensures(A::exp, (ops, a), r) ==> v(r) == (ideal.exp)(v(a))
    &&& forall|a: T, r: T| #[trigger]
        call_ensures(A::sqrt, (ops, a), r) ==> v(a) >= 0 as real ==> v(r) >= 0 as real && v(r) * v(
            r,
        ) == v(a)
    &&& forall|a: T, b: T, r: T| #[trigger]
        call_ensures(A::powf, (ops, a, b), r) ==> v(r) == (ideal.pow)(v(a), v(b))
    &&& forall|a: T, r: T, q: T| #[trigger]
        call_ensures(A::sin_cos, (ops, a), (r, q)) ==> v(r) == (ideal.sin)(v(a)) && v(q)
            == (ideal.cos)(v(a))
    &&& forall|a: T, b: T, r: bool| #[trigger]
        call_ensures(A::gt, (ops, a, b), r) ==> r == (v(a) > v(b))
}

/// The sum of numbers.
pub open spec fn total(terms: Seq<real>) -> real {
    terms.fold_left(0 as real, |s: real, t: real| s + t)
}

/// A sum starts at zero, and one more number adds that number to it.
pub proof fn law_total(terms: Seq<real>, last: real)
    ensures
        total(Seq::empty()) == 0 as real,
        total(terms.push(last)) == total(terms) + last,
{
    assert(terms.push(last).drop_last() =~= terms);
    reveal_with_fuel(Seq::fold_left, 2);
}

/// Without rounding, the dot product is the sum of all the products.
pub proof fn law_dot_is_exact<T, A: Arithmetic<T>>(
    ops: &A,
    ideal: Ideal<T>,
    xs: Seq<T>,
    ys: Seq<T>,
    n: nat,
    r: T,
)
    requires
        exact(ops, ideal),
        dot(ops, xs, ys, n, r),
    ensures
        (ideal.value)(r) == total(Seq::new(n, |i: int| (ideal.value)(xs[i]) * (ideal.value)(ys[i]))),
    decreases n,
{
    let v = ideal.value;
    let terms = Seq::new(n, |i: int| v(xs[i]) * v(ys[i]));
    if n == 0 {
        law_total(terms, 0 as real);
        assert(terms =~= Seq::empty());
    } else {
        let m = (n - 1) as nat;
        let (prev, p) = choose|prev: T, p: T|
            {
                &&& dot(ops, xs, ys, m, prev)
                &&& product(ops, xs[m as int], ys[m as int], p)
                &&& #[trigger] sum(ops, prev, p, r)
            };
        law_dot_is_exact(ops, ideal, xs, ys, m, prev);
        let front = Seq::new(m, |i: int| v(xs[i]) * v(ys[i]));
        law_total(front, v(xs[m as int]) * v(ys[m as int]));
        assert(terms =~= front.push(v(xs[m as int]) * v(ys[m as int])));
    }
}

/// What the relations are called by is what the operations gave.
pub proof fn law_relations<T, A: Arithmetic<T>>(
    ops: &A,
    a: T,
    b: T,
    r: T,
    q: T,
    n: usize,
    m: i32,
    bits: u32,
    t: bool,
)
    ensures
        zero(ops, r) <==> call_ensures(A::zero, (ops,), r),
        one(ops, r) <==> call_ensures(A::one, (ops,), r),
        neg_infinity(ops, r) <==> call_ensures(A::neg_infinity, (ops,), r),
        count(ops, n, r) <==> call_ensures(A::from_usize, (ops, n), r),
        integer(ops, m, r) <==> call_ensures(A::from_i32, (ops, m), r),
        pattern(ops, bits, r) <==> call_ensures(A::from_bits, (ops, bits), r),
        sum(ops, a, b, r) <==> call_ensures(A::add, (ops, a, b), r),
        difference(ops, a, b, r) <==> call_ensures(A::sub, (ops, a, b), r),
        product(ops, a, b, r) <==> call_ensures(A::mul, (ops, a, b), r),
        quotient(ops, a, b, r) <==> call_ensures(A::div, (ops, a, b), r),
        negation(ops, a, r) <==> call_ensures(A::neg, (ops, a), r),
        exponential(ops, a, r) <==> call_ensures(A::exp, (ops, a), r),
        root(ops, a, r) <==> call_ensures(A::sqrt, (ops, a), r),
        power(ops, a, b, r) <==> call_ensures(A::powf, (ops, a, b), r),
        sine_cosine(ops, a, r, q) <==> call_ensures(A::sin_cos, (ops, a), (r, q)),
        greater(ops, a, b, t) <==> call_ensures(A::gt, (ops, a, b), t),
{
}

/// The dot product step by step: there are `n` products and `n + 1` sums, where
/// the first sum is zero, each product is added to the sum before it, and the
/// last sum is the result.
pub proof fn law_dot_steps<T, A: Arithmetic<T>>(
    ops: &A,
    xs: Seq<T>,
    ys: Seq<T>,
    n: nat,
    r: T,
) -> (steps: (Seq<T>, Seq<T>))
    requires
        dot(ops, xs, ys, n, r),
    ensures
        steps.0.len() == n,
        steps.1.len() == n + 1,
        call_ensures(A::zero, (ops,), steps.1[0]),
        forall|i: int|
            0 <= i < n ==> call_ensures(A::mul, (ops, xs[i], ys[i]), #[trigger] steps.0[i]),
        forall|i: int|
            0 <= i < n ==> call_ensures(
                A::add,
                (ops, #[trigger] steps.1[i], steps.0[i]),
                steps.1[i + 1],
            ),
        steps.1[n as int] == r,
    decreases n,
{
    if n == 0 {
        (Seq::empty(), seq![r])
    } else {
        let m = (n - 1) as nat;
        let (prev, p) = choose|prev: T, p: T|
            {
                &&& dot(ops, xs, ys, m, prev)
                &&& product(ops, xs[m as int], ys[m as int], p)
                &&& #[trigger] sum(ops, prev, p, r)
            };
        let front = law_dot_steps(ops, xs, ys, m, prev);
        let products = front.0.push(p);
        let sums = front.1.push(r);
        assert forall|i: int| 0 <= i < n implies call_ensures(
            A::mul,
            (ops, xs[i], ys[i]),
            #[trigger] products[i],
        ) by {
            if i < m {
                assert(products[i] == front.0[i]);
            }
        }
        assert forall|i: int| 0 <= i < n implies call_ensures(
            A::add,
            (ops, #[trigger] sums[i], products[i]),
            sums[i + 1],
        ) by {
            assert(sums[i] == front.1[i]);
            if i < m {
                assert(products[i] == front.0[i]);
                assert(sums[i + 1] == front.1[i + 1]);
            }
        }
        (products, sums)
    }
}

/// Without rounding, sums that start at zero and grow by one product at a time
/// end at the sum of all the products.
pub(crate) proof fn lemma_sums_are_exact<T, A: Arithmetic<T>>(
    ops: &A,
    ideal: Ideal<T>,
    terms: Seq<T>,
    sums: Seq<T>,
    n: nat,
)
    requires
        exact(ops, ideal),
        n <= terms.len(),
        n < sums.len(),
        call_ensures(A::zero, (ops,), sums[0]),
        forall|i: int|
            0 <= i < n ==> call_ensures(A::add, (ops, #[trigger] sums[i], terms[i]), sums[i + 1]),
    ensures
        (ideal.value)(sums[n as int]) == total(Seq::new(n, |i: int| (ideal.value)(terms[i]))),
    decreases n,
{
    let v = ideal.value;
    let all = Seq::new(n, |i: int| v(terms[i]));
    if n == 0 {
        law_total(all, 0 as real);
        assert(all =~= Seq::empty());
    } else {
        lemma_sums_are_exact(ops, ideal, terms, sums, (n - 1) as nat);
        let front = Seq::new((n - 1) as nat, |i: int| v(terms[i]));
        law_total(front, v(terms[n - 1]));
        assert(all =~= front.push(v(terms[n - 1])));
        assert(call_ensures(A::add, (ops, sums[n - 1], terms[n - 1]), sums[n - 1 + 1]));
    }
}

/// Scaling all numbers scales their sum.
pub(crate) proof fn lemma_total_scales(terms: Seq<real>, scaled: Seq<real>, factor: real)
    requires
        terms.len() == scaled.len(),
        forall|i: int| 0 <= i < terms.len() ==> #[trigger] scaled[i] == terms[i] * factor,
    ensures
        total(scaled) == total(terms) * factor,
    decreases terms.len(),
{
    if terms.len() == 0 {
        law_total(terms, 0 as real);
        assert(terms =~= Seq::empty() && scaled =~= Seq::empty());
        assert((0 as real) * factor == 0 as real);
    } else {
        let n = terms.len() - 1;
        let a = terms.drop_last();
        let b = scaled.drop_last();
        assert forall|i: int| 0 <= i < a.len() implies #[trigger] b[i] == a[i] * factor by {
            assert(scaled[i] == terms[i] * factor);
        }
        lemma_total_scales(a, b, factor);
        law_total(a, terms[n]);
        law_total(b, scaled[n]);
        assert(a.push(terms[n]) =~= terms && b.push(scaled[n]) =~= scaled);
        let s = total(a);
        let t = terms[n];
        assert((s + t) * factor == s * factor + t * factor) by (nonlinear_arith);
    }
}

} // verus!
