//! Rotary position embedding over a slice, in place.
//!
//! The pairs are adjacent elements of a head: `(x[2i], x[2i+1])` for
//! `i in 0..head_dim/2`. Each pair is rotated by `angle = pos * freq[i]` where
//! `freq[i] = 1 / theta^(2 * i / head_dim)`.

use vstd::prelude::*;

use crate::arith;
use crate::arith::Arithmetic;
use crate::ieee;
use crate::rows;

verus! {

/// `r` can be `1 / theta^(2 * i / head_dim)`.
pub open spec fn frequency<T, A: Arithmetic<T>>(
    ops: &A,
    head_dim: usize,
    theta: u32,
    i: usize,
    r: T,
) -> bool {
    exists|two: T, index: T, doubled: T, inv: T, exponent: T, t: T, power: T|
        {
            &&& arith::count(ops, 2, two)
            &&& arith::count(ops, i, index)
            &&& #[trigger] arith::product(ops, two, index, doubled)
            &&& arith::count_reciprocal(ops, head_dim, inv)
            &&& #[trigger] arith::product(ops, doubled, inv, exponent)
            &&& arith::pattern(ops, theta, t)
            &&& #[trigger] arith::power(ops, t, exponent, power)
            &&& arith::reciprocal(ops, power, r)
        }
}

/// `r` can be `pos * frequency`.
pub open spec fn angle<T, A: Arithmetic<T>>(
    ops: &A,
    head_dim: usize,
    pos: usize,
    theta: u32,
    i: usize,
    r: T,
) -> bool {
    exists|p: T, f: T|
        {
            &&& arith::count(ops, pos, p)
            &&& frequency(ops, head_dim, theta, i, f)
            &&& #[trigger] arith::product(ops, p, f, r)
        }
}

/// `(y0, y1)` can be `(x0 * cos - x1 * sin, x0 * sin + x1 * cos)`.
pub open spec fn turned<T, A: Arithmetic<T>>(
    ops: &A,
    sin: T,
    cos: T,
    x0: T,
    x1: T,
    y0: T,
    y1: T,
) -> bool {
    &&& exists|a: T, b: T|
        {
            &&& arith::product(ops, x0, cos, a)
            &&& arith::product(ops, x1, sin, b)
            &&& #[trigger] arith::difference(ops, a, b, y0)
        }
    &&& exists|a: T, b: T|
        {
            &&& arith::product(ops, x0, sin, a)
            &&& arith::product(ops, x1, cos, b)
            &&& #[trigger] arith::sum(ops, a, b, y1)
        }
}

/// Pair `i` of `y` can be that of `x` rotated by its angle.
pub open spec fn rotated_pair<T, A: Arithmetic<T>>(
    ops: &A,
    pos: usize,
    theta: u32,
    i: int,
    x: Seq<T>,
    y: Seq<T>,
) -> bool {
    exists|turn: T, sin: T, cos: T|
        {
            &&& angle(ops, x.len() as usize, pos, theta, i as usize, turn)
            &&& #[trigger] arith::sine_cosine(ops, turn, sin, cos)
            &&& turned(ops, sin, cos, x[2 * i], x[2 * i + 1], y[2 * i], y[2 * i + 1])
        }
}

/// `y` can be the head `x` with every pair rotated.
pub open spec fn rotated_head<T, A: Arithmetic<T>>(
    ops: &A,
    pos: usize,
    theta: u32,
    x: Seq<T>,
    y: Seq<T>,
) -> bool {
    forall|i: int| 0 <= i < x.len() / 2 ==> #[trigger] rotated_pair(ops, pos, theta, i, x, y)
}

/// `y` can be `x`, which holds `n_heads` heads, with every head rotated.
pub open spec fn rotated<T, A: Arithmetic<T>>(
    ops: &A,
    x: Seq<T>,
    head_dim: usize,
    n_heads: usize,
    pos: usize,
    theta: u32,
    y: Seq<T>,
) -> bool {
    &&& y.len() == x.len()
    &&& forall|h: int|
        0 <= h < n_heads ==> rotated_head(
            ops,
            pos,
            theta,
            rows::row(x, head_dim as nat, h),
            #[trigger] rows::row(y, head_dim as nat, h),
        )
}

/// The angle by which pair `i` of a head is rotated.
fn angle_of_pair<T: Copy, A: Arithmetic<T>>(
    ops: &A,
    Ghost(head_dim): Ghost<usize>,
    inv: T,
    Ghost(pos): Ghost<usize>,
    pos_f: T,
    Ghost(theta): Ghost<u32>,
    theta_f: T,
    i: usize,
) -> (r: T)
    requires
        arith::count_reciprocal(ops, head_dim, inv),
        arith::count(ops, pos, pos_f),
        arith::pattern(ops, theta, theta_f),
    ensures
        angle(ops, head_dim, pos, theta, i, r),
{
    let two = ops.from_usize(2);
    let index = ops.from_usize(i);
    let doubled = ops.mul(two, index);
    let exponent = ops.mul(doubled, inv);
    let power = ops.powf(theta_f, exponent);
    let freq = arith::reciprocal_of(ops, power);
    assert(arith::product(ops, two, index, doubled));
    assert(arith::product(ops, doubled, inv, exponent));
    assert(arith::power(ops, theta_f, exponent, power));
    let r = ops.mul(pos_f, freq);
    assert(arith::product(ops, pos_f, freq, r));
    r
}

/// Rotate one pair.
fn turn_pair<T: Copy, A: Arithmetic<T>>(ops: &A, sin: T, cos: T, x0: T, x1: T) -> (r: (T, T))
    ensures
        turned(ops, sin, cos, x0, x1, r.0, r.1),
{
    let a = ops.mul(x0, cos);
    let b = ops.mul(x1, sin);
    let y0 = ops.sub(a, b);
    let c = ops.mul(x0, sin);
    let d = ops.mul(x1, cos);
    let y1 = ops.add(c, d);
    assert(arith::difference(ops, a, b, y0));
    assert(arith::sum(ops, c, d, y1));
    (y0, y1)
}

/// Apply RoPE in place to `x`, a packed tensor of `n_heads * head_dim` elements
/// stored as `n_heads` contiguous `head_dim`-sized heads. `theta` is given as a
/// binary32 bit pattern.
///
/// For each head and each pair index `i in 0..head_dim/2`, the pair
/// `(x[2i], x[2i+1])` is rotated by `pos * freq[i]` where
/// `freq[i] = 1 / theta^(2 * i / head_dim)`:
///
/// ```text
/// x[2i]   := x[2i] * cos - x[2i+1] * sin
/// x[2i+1] := x[2i] * sin + x[2i+1] * cos
/// ```
pub fn rope_inplace_neox<T: Copy, A: Arithmetic<T>>(
    ops: &A,
    x: &mut [T],
    head_dim: usize,
    n_heads: usize,
    pos: usize,
    theta: u32,
)
    requires
        head_dim % 2 == 0,
        old(x)@.len() == head_dim * n_heads,
        ieee::positive_finite(theta),
    ensures
        rotated(ops, old(x)@, head_dim, n_heads, pos, theta, final(x)@),
{
    if head_dim == 0 || n_heads == 0 {
        return ;
    }
    let half: usize = head_dim / 2;
    let len: usize = x.len();
    let ghost before = x@;
    assert(head_dim * n_heads == n_heads * head_dim) by (nonlinear_arith);
    let inv = arith::reciprocal_of_count(ops, head_dim);
    let pos_f = ops.from_usize(pos);
    let theta_f = ops.from_bits(theta);
    let mut h: usize = 0;
    while h < n_heads
        invariant
            h <= n_heads,
            head_dim % 2 == 0,
            half == head_dim / 2,
            len == n_heads * head_dim,
            before == old(x)@,
            before.len() == len,
            x@.len() == len,
            arith::count_reciprocal(ops, head_dim, inv),
            arith::count(ops, pos, pos_f),
            arith::pattern(ops, theta, theta_f),
            forall|r: int|
                0 <= r < h ==> rotated_head(
                    ops,
                    pos,
                    theta,
                    rows::row(before, head_dim as nat, r),
                    #[trigger] rows::row(x@, head_dim as nat, r),
                ),
            forall|r: int|
                h <= r < n_heads ==> #[trigger] rows::row(x@, head_dim as nat, r) == rows::row(
                    before,
                    head_dim as nat,
                    r,
                ),
        decreases n_heads - h,
    {
        let ghost start = x@;
        let ghost xs = rows::row(start, head_dim as nat, h as int);
        proof {
            rows::lemma_row_bounds(n_heads as int, head_dim as int, h as int);
        }
        let base: usize = h * head_dim;
        let mut i: usize = 0;
        while i < half
            invariant
                i <= half,
                head_dim % 2 == 0,
                half == head_dim / 2,
                base == h * head_dim,
                base + head_dim <= len,
                x@.len() == len,
                start.len() == len,
                xs == rows::row(start, head_dim as nat, h as int),
                xs.len() == head_dim,
                arith::count_reciprocal(ops, head_dim, inv),
                arith::count(ops, pos, pos_f),
                arith::pattern(ops, theta, theta_f),
                forall|p: int|
                    0 <= p < base || base + 2 * i <= p < len ==> #[trigger] x@[p] == start[p],
                forall|c: int|
                    0 <= c < i ==> #[trigger] rotated_pair(
                        ops,
                        pos,
                        theta,
                        c,
                        xs,
                        rows::row(x@, head_dim as nat, h as int),
                    ),
            decreases half - i,
        {
            let ghost ys = rows::row(x@, head_dim as nat, h as int);
            let turn = angle_of_pair(
                ops,
                Ghost(head_dim),
                inv,
                Ghost(pos),
                pos_f,
                Ghost(theta),
                theta_f,
                i,
            );
            let (sin, cos) = ops.sin_cos(turn);
            let (y0, y1) = turn_pair(ops, sin, cos, x[base + 2 * i], x[base + 2 * i + 1]);
            x[base + 2 * i] = y0;
            x[base + 2 * i + 1] = y1;
            proof {
                let zs = rows::row(x@, head_dim as nat, h as int);
                assert(arith::sine_cosine(ops, turn, sin, cos));
                assert(zs[2 * i] == y0 && zs[2 * i + 1] == y1);
                assert(rotated_pair(ops, pos, theta, i as int, xs, zs));
                assert forall|c: int| 0 <= c < i + 1 implies #[trigger] rotated_pair(
                    ops,
                    pos,
                    theta,
                    c,
                    xs,
                    zs,
                ) by {
                    if c < i {
                        assert(rotated_pair(ops, pos, theta, c, xs, ys));
                        assert(zs[2 * c] == ys[2 * c] && zs[2 * c + 1] == ys[2 * c + 1]);
                    }
                }
            }
            i = i + 1;
        }
        proof {
            rows::lemma_other_rows_kept(start, x@, n_heads as int, head_dim as nat, h as int);
        }
        h = h + 1;
    }
}

/// Where the operations give one result each, so does the rotation.
pub proof fn law_rotation_is_determined<T, A: Arithmetic<T>>(
    ops: &A,
    x: Seq<T>,
    head_dim: usize,
    n_heads: usize,
    pos: usize,
    theta: u32,
    r: Seq<T>,
    s: Seq<T>,
)
    requires
        arith::determined::<T, A>(ops),
        head_dim % 2 == 0,
        x.len() == head_dim * n_heads,
        rotated(ops, x, head_dim, n_heads, pos, theta, r),
        rotated(ops, x, head_dim, n_heads, pos, theta, s),
    ensures
        r == s,
{
    let n = head_dim as nat;
    assert(head_dim * n_heads == n_heads * head_dim) by (nonlinear_arith);
    assert forall|h: int| 0 <= h < n_heads implies #[trigger] rows::row(r, n, h) == rows::row(
        s,
        n,
        h,
    ) by {
        rows::lemma_row_bounds(n_heads as int, n as int, h);
        let xs = rows::row(x, n, h);
        let y = rows::row(r, n, h);
        let z = rows::row(s, n, h);
        assert forall|p: int| 0 <= p < n implies y[p] == z[p] by {
            let i = p / 2;
            assert(rotated_pair(ops, pos, theta, i, xs, y));
            assert(rotated_pair(ops, pos, theta, i, xs, z));
            assert(p == 2 * i || p == 2 * i + 1);
        }
        assert(y =~= z);
    }
    rows::lemma_same_rows(r, s, n_heads as nat, n);
}

/// What comes up while a pair is rotated.
pub struct RopeSteps<T> {
    pub two: T,
    pub index: T,
    pub doubled: T,
    pub count: T,
    pub one: T,
    pub inverse: T,
    pub exponent: T,
    pub theta: T,
    pub power: T,
    pub unit: T,
    pub frequency: T,
    pub position: T,
    pub angle: T,
    pub sin: T,
    pub cos: T,
    pub first_by_cos: T,
    pub second_by_sin: T,
    pub first_by_sin: T,
    pub second_by_cos: T,
}

/// The angle of pair `i` step by step: twice the number of the pair, times one
/// over the size of the head, is the exponent of `theta`, and the position is
/// taken times one over that power.
pub proof fn law_angle_steps<T, A: Arithmetic<T>>(
    ops: &A,
    head_dim: usize,
    pos: usize,
    theta: u32,
    i: usize,
    r: T,
) -> (w: RopeSteps<T>)
    requires
        angle(ops, head_dim, pos, theta, i, r),
    ensures
        call_ensures(A::from_usize, (ops, 2usize), w.two),
        call_ensures(A::from_usize, (ops, i), w.index),
        call_ensures(A::mul, (ops, w.two, w.index), w.doubled),
        call_ensures(A::from_usize, (ops, head_dim), w.count),
        call_ensures(A::one, (ops,), w.one),
        call_ensures(A::div, (ops, w.one, w.count), w.inverse),
        call_ensures(A::mul, (ops, w.doubled, w.inverse), w.exponent),
        call_ensures(A::from_bits, (ops, theta), w.theta),
        call_ensures(A::powf, (ops, w.theta, w.exponent), w.power),
        call_ensures(A::one, (ops,), w.unit),
        call_ensures(A::div, (ops, w.unit, w.power), w.frequency),
        call_ensures(A::from_usize, (ops, pos), w.position),
        call_ensures(A::mul, (ops, w.position, w.frequency), w.angle),
        w.angle == r,
{
    let (position, freq) = choose|p: T, f: T|
        {
            &&& arith::count(ops, pos, p)
            &&& frequency(ops, head_dim, theta, i, f)
            &&& #[trigger] arith::product(ops, p, f, r)
        };
    let (two, index, doubled, inverse, exponent, t, power) = choose|
        two: T,
        index: T,
        doubled: T,
        inv: T,
        exponent: T,
        t: T,
        power: T,
    |
        {
            &&& arith::count(ops, 2, two)
            &&& arith::count(ops, i, index)
            &&& #[trigger] arith::product(ops, two, index, doubled)
            &&& arith::count_reciprocal(ops, head_dim, inv)
            &&& #[trigger] arith::product(ops, doubled, inv, exponent)
            &&& arith::pattern(ops, theta, t)
            &&& #[trigger] arith::power(ops, t, exponent, power)
            &&& arith::reciprocal(ops, power, freq)
        };
    let count = choose|c: T|
        arith::count(ops, head_dim, c) && #[trigger] arith::reciprocal(ops, c, inverse);
    let one = choose|o: T| arith::one(ops, o) && #[trigger] arith::quotient(ops, o, count, inverse);
    let unit = choose|o: T| arith::one(ops, o) && #[trigger] arith::quotient(ops, o, power, freq);
    RopeSteps {
        two,
        index,
        doubled,
        count,
        one,
        inverse,
        exponent,
        theta: t,
        power,
        unit,
        frequency: freq,
        position,
        angle: r,
        sin: r,
        cos: r,
        first_by_cos: r,
        second_by_sin: r,
        first_by_sin: r,
        second_by_cos: r,
    }
}

/// The rotation of pair `i` of head `h` step by step, on the elements: its angle
/// comes from the number of the pair and the position, and the two elements next
/// to each other are turned by its sine and cosine.
pub proof fn law_rotation_steps<T, A: Arithmetic<T>>(
    ops: &A,
    x: Seq<T>,
    head_dim: usize,
    n_heads: usize,
    pos: usize,
    theta: u32,
    y: Seq<T>,
    h: int,
    i: usize,
) -> (w: RopeSteps<T>)
    requires
        head_dim % 2 == 0,
        x.len() == head_dim * n_heads,
        rotated(ops, x, head_dim, n_heads, pos, theta, y),
        0 <= h < n_heads,
        2 * i < head_dim,
    ensures
        y.len() == x.len(),
        call_ensures(A::from_usize, (ops, 2usize), w.two),
        call_ensures(A::from_usize, (ops, i), w.index),
        call_ensures(A::mul, (ops, w.two, w.index), w.doubled),
        call_ensures(A::from_usize, (ops, head_dim), w.count),
        call_ensures(A::one, (ops,), w.one),
        call_ensures(A::div, (ops, w.one, w.count), w.inverse),
        call_ensures(A::mul, (ops, w.doubled, w.inverse), w.exponent),
        call_ensures(A::from_bits, (ops, theta), w.theta),
        call_ensures(A::powf, (ops, w.theta, w.exponent), w.power),
        call_ensures(A::one, (ops,), w.unit),
        call_ensures(A::div, (ops, w.unit, w.power), w.frequency),
        call_ensures(A::from_usize, (ops, pos), w.position),
        call_ensures(A::mul, (ops, w.position, w.frequency), w.angle),
        call_ensures(A::sin_cos, (ops, w.angle), (w.sin, w.cos)),
        call_ensures(A::mul, (ops, x[h * head_dim + 2 * i], w.cos), w.first_by_cos),
        call_ensures(A::mul, (ops, x[h * head_dim + 2 * i + 1], w.sin), w.second_by_sin),
        call_ensures(A::sub, (ops, w.first_by_cos, w.second_by_sin), y[h * head_dim + 2 * i]),
        call_ensures(A::mul, (ops, x[h * head_dim + 2 * i], w.sin), w.first_by_sin),
        call_ensures(A::mul, (ops, x[h * head_dim + 2 * i + 1], w.cos), w.second_by_cos),
        call_ensures(A::add, (ops, w.first_by_sin, w.second_by_cos), y[h * head_dim + 2 * i + 1]),
{
    let n = head_dim as nat;
    assert(head_dim * n_heads == n_heads * head_dim) by (nonlinear_arith);
    let xs = rows::row(x, n, h);
    let ys = rows::row(y, n, h);
    rows::law_row(x, n_heads as nat, n, h, 2 * i);
    rows::law_row(x, n_heads as nat, n, h, 2 * i + 1);
    rows::law_row(y, n_heads as nat, n, h, 2 * i);
    rows::law_row(y, n_heads as nat, n, h, 2 * i + 1);
    assert(rotated_head(ops, pos, theta, xs, ys));
    assert(rotated_pair(ops, pos, theta, i as int, xs, ys));
    let (turn, sin, cos) = choose|turn: T, sin: T, cos: T|
        {
            &&& angle(ops, xs.len() as usize, pos, theta, i, turn)
            &&& #[trigger] arith::sine_cosine(ops, turn, sin, cos)
            &&& turned(ops, sin, cos, xs[2 * i], xs[2 * i + 1], ys[2 * i], ys[2 * i + 1])
        };
    let w = law_angle_steps(ops, head_dim, pos, theta, i, turn);
    let (a, b) = choose|a: T, b: T|
        {
            &&& arith::product(ops, xs[2 * i], cos, a)
            &&& arith::product(ops, xs[2 * i + 1], sin, b)
            &&& #[trigger] arith::difference(ops, a, b, ys[2 * i])
        };
    let (c, d) = choose|a: T, b: T|
        {
            &&& arith::product(ops, xs[2 * i], sin, a)
            &&& arith::product(ops, xs[2 * i + 1], cos, b)
            &&& #[trigger] arith::sum(ops, a, b, ys[2 * i + 1])
        };
    RopeSteps {
        sin,
        cos,
        first_by_cos: a,
        second_by_sin: b,
        first_by_sin: c,
        second_by_cos: d,
        ..w
    }
}

/// Without rounding, pair `i` is turned by the position over `theta` to the power
/// `2 * i / head_dim`, with no other number in the place of `i`. Gives the angle
/// and the exponent.
pub proof fn law_rotation_is_exact<T, A: Arithmetic<T>>(
    ops: &A,
    ideal: arith::Ideal<T>,
    x: Seq<T>,
    head_dim: usize,
    n_heads: usize,
    pos: usize,
    theta: u32,
    y: Seq<T>,
    h: int,
    i: usize,
) -> (w: (real, real))
    requires
        arith::exact(ops, ideal),
        forall|e: real| #[trigger] (ideal.pow)((ideal.decode)(theta), e) > 0 as real,
        head_dim % 2 == 0,
        x.len() == head_dim * n_heads,
        rotated(ops, x, head_dim, n_heads, pos, theta, y),
        0 <= h < n_heads,
        2 * i < head_dim,
    ensures
        w.1 * (head_dim as int as real) == (2 * i) as real,
        w.0 * (ideal.pow)((ideal.decode)(theta), w.1) == pos as int as real,
        (ideal.value)(y[h * head_dim + 2 * i]) == (ideal.value)(x[h * head_dim + 2 * i]) * (
        ideal.cos)(w.0) - (ideal.value)(x[h * head_dim + 2 * i + 1]) * (ideal.sin)(w.0),
        (ideal.value)(y[h * head_dim + 2 * i + 1]) == (ideal.value)(x[h * head_dim + 2 * i]) * (
        ideal.sin)(w.0) + (ideal.value)(x[h * head_dim + 2 * i + 1]) * (ideal.cos)(w.0),
{
    let v = ideal.value;
    let w = law_rotation_steps(ops, x, head_dim, n_heads, pos, theta, y, h, i);
    lemma_angle_is_exact(ops, ideal, head_dim, pos, theta, i, w);
    (v(w.angle), v(w.exponent))
}

proof fn lemma_angle_is_exact<T, A: Arithmetic<T>>(
    ops: &A,
    ideal: arith::Ideal<T>,
    head_dim: usize,
    pos: usize,
    theta: u32,
    i: usize,
    w: RopeSteps<T>,
)
    requires
        arith::exact(ops, ideal),
        forall|e: real| #[trigger] (ideal.pow)((ideal.decode)(theta), e) > 0 as real,
        head_dim > 0,
        call_ensures(A::from_usize, (ops, 2usize), w.two),
        call_ensures(A::from_usize, (ops, i), w.index),
        call_ensures(A::mul, (ops, w.two, w.index), w.doubled),
        call_ensures(A::from_usize, (ops, head_dim), w.count),
        call_ensures(A::one, (ops,), w.one),
        call_ensures(A::div, (ops, w.one, w.count), w.inverse),
        call_ensures(A::mul, (ops, w.doubled, w.inverse), w.exponent),
        call_ensures(A::from_bits, (ops, theta), w.theta),
        call_ensures(A::powf, (ops, w.theta, w.exponent), w.power),
        call_ensures(A::one, (ops,), w.unit),
        call_ensures(A::div, (ops, w.unit, w.power), w.frequency),
        call_ensures(A::from_usize, (ops, pos), w.position),
        call_ensures(A::mul, (ops, w.position, w.frequency), w.angle),
    ensures
        (ideal.value)(w.exponent) * (head_dim as int as real) == (2 * i) as real,
        (ideal.value)(w.angle) * (ideal.pow)((ideal.decode)(theta), (ideal.value)(w.exponent))
            == pos as int as real,
{
    let v = ideal.value;
    let n = head_dim as int as real;
    let d = v(w.doubled);
    assert(v(w.two) == 2 as real);
    assert(v(w.index) == i as int as real);
    assert(d == (2 as real) * (i as int as real)) by (nonlinear_arith)
        requires
            d == v(w.two) * v(w.index),
            v(w.two) == 2 as real,
            v(w.index) == i as int as real,
    ;
    assert(d == (2 * i) as real);
    assert(v(w.inverse) * n == 1 as real);
    assert((d * v(w.inverse)) * n == d) by (nonlinear_arith)
        requires
            v(w.inverse) * n == 1 as real,
    ;
    let q = v(w.power);
    let p = pos as int as real;
    let f = v(w.frequency);
    assert(f * q == 1 as real);
    assert((p * f) * q == p) by (nonlinear_arith)
        requires
            f * q == 1 as real,
    ;
}

/// Without rounding, and for a base whose powers grow with the exponent, the
/// angles at a position behind the first fall strictly from pair to pair over
/// the whole head: no two pairs turn alike.
pub proof fn law_angles_fall<T, A: Arithmetic<T>>(
    ops: &A,
    ideal: arith::Ideal<T>,
    head_dim: usize,
    pos: usize,
    theta: u32,
    i: usize,
    j: usize,
    r: T,
    s: T,
)
    requires
        arith::exact(ops, ideal),
        forall|e: real| #[trigger] (ideal.pow)((ideal.decode)(theta), e) > 0 as real,
        forall|d: real, e: real|
            d < e ==> #[trigger] (ideal.pow)((ideal.decode)(theta), d) < #[trigger] (ideal.pow)(
                (ideal.decode)(theta),
                e,
            ),
        pos > 0,
        i < j,
        2 * j < head_dim,
        angle(ops, head_dim, pos, theta, i, r),
        angle(ops, head_dim, pos, theta, j, s),
    ensures
        (ideal.value)(r) > (ideal.value)(s) > 0 as real,
{
    let v = ideal.value;
    let a = law_angle_steps(ops, head_dim, pos, theta, i, r);
    let b = law_angle_steps(ops, head_dim, pos, theta, j, s);
    lemma_angle_is_exact(ops, ideal, head_dim, pos, theta, i, a);
    lemma_angle_is_exact(ops, ideal, head_dim, pos, theta, j, b);
    let n = head_dim as int as real;
    let d = v(a.exponent);
    let e = v(b.exponent);
    assert(((2 * i) as real) < ((2 * j) as real));
    assert(d < e) by (nonlinear_arith)
        requires
            d * n < e * n,
            n > 0 as real,
    ;
    let p = (ideal.pow)((ideal.decode)(theta), d);
    let q = (ideal.pow)((ideal.decode)(theta), e);
    let x = v(r);
    let y = v(s);
    let t = pos as int as real;
    assert(x > y && y > 0 as real) by (nonlinear_arith)
        requires
            p > 0 as real,
            q > p,
            x * p == t,
            y * q == t,
            t > 0 as real,
    ;
}

} // verus!
