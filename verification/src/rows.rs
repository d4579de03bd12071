//! Rows of a row-major matrix.

use vstd::prelude::*;

verus! {

/// Row `i` of a matrix with `n` columns.
pub open spec fn row<T>(s: Seq<T>, n: nat, i: int) -> Seq<T> {
    s.subrange(i * n, i * n + n)
}

/// The first `k` elements of column `j` of a matrix with `n` columns.
pub open spec fn column<T>(s: Seq<T>, n: nat, k: nat, j: int) -> Seq<T> {
    Seq::new(k, |i: int| s[i * n + j])
}

/// An element of a row lies within the matrix, behind the rows before and
/// before the rows behind.
pub proof fn lemma_position(m: int, n: int, i: int, j: int)
    requires
        0 <= i < m,
        0 <= j < n,
    ensures
        0 <= i * n <= i * n + j < i * n + n <= m * n,
        (i + 1) * n == i * n + n,
{
    assert(0 <= i * n && (i + 1) * n == i * n + n && i * n + n <= m * n) by (nonlinear_arith)
        requires
            0 <= i < m,
            0 < n,
    ;
}

/// The rows of a matrix lie within it.
pub proof fn lemma_row_bounds(m: int, n: int, i: int)
    requires
        0 <= i < m,
        0 <= n,
    ensures
        0 <= i * n <= i * n + n <= m * n,
        (i + 1) * n == i * n + n,
{
    assert(0 <= i * n && (i + 1) * n == i * n + n && i * n + n <= m * n) by (nonlinear_arith)
        requires
            0 <= i < m,
            0 <= n,
    ;
}

/// A row keeps its elements where two matrices agree on its positions.
pub proof fn lemma_row_unchanged<T>(s: Seq<T>, t: Seq<T>, m: int, n: nat, i: int)
    requires
        0 <= i < m,
        s.len() == m * n,
        t.len() == m * n,
        forall|p: int| i * n <= p < i * n + n ==> s[p] == t[p],
    ensures
        row(s, n, i) == row(t, n, i),
{
    lemma_row_bounds(m, n as int, i);
    assert(row(s, n, i) =~= row(t, n, i));
}

/// Changing one row of a matrix leaves the other rows as they were.
pub proof fn lemma_other_rows_kept<T>(s: Seq<T>, t: Seq<T>, m: int, n: nat, i: int)
    requires
        0 <= i < m,
        s.len() == m * n,
        t.len() == m * n,
        forall|p: int|
            0 <= p < i * n || i * n + n <= p < s.len() ==> #[trigger] t[p] == s[p],
    ensures
        forall|r: int| 0 <= r < m && r != i ==> #[trigger] row(t, n, r) == row(s, n, r),
{
    assert forall|r: int| 0 <= r < m && r != i implies #[trigger] row(t, n, r) == row(
        s,
        n,
        r,
    ) by {
        lemma_row_bounds(m, n as int, i);
        lemma_row_bounds(m, n as int, r);
        assert(r * n + n <= i * n || i * n + n <= r * n) by (nonlinear_arith)
            requires
                r != i,
                0 <= n,
        ;
        lemma_row_unchanged(s, t, m, n, r);
    }
}

/// A matrix whose length is a multiple of that of a row holds whole rows.
pub proof fn lemma_whole_rows(len: int, n: int)
    requires
        0 <= len,
        0 < n,
        len % n == 0,
    ensures
        len == (len / n) * n,
        0 <= len / n,
{
    vstd::arithmetic::div_mod::lemma_fundamental_div_mod(len, n);
    vstd::arithmetic::div_mod::lemma_div_pos_is_pos(len, n);
    assert(n * (len / n) == (len / n) * n) by (nonlinear_arith);
}

/// Matrices with the same rows are the same.
pub proof fn lemma_same_rows<T>(s: Seq<T>, t: Seq<T>, m: nat, n: nat)
    requires
        s.len() == m * n,
        t.len() == m * n,
        forall|i: int| 0 <= i < m ==> #[trigger] row(s, n, i) == row(t, n, i),
    ensures
        s == t,
{
    assert forall|p: int| 0 <= p < s.len() implies s[p] == t[p] by {
        if n == 0 {
            assert(m * n == 0) by (nonlinear_arith)
                requires
                    n == 0,
            ;
        } else {
            let i = p / n as int;
            let j = p % n as int;
            vstd::arithmetic::div_mod::lemma_fundamental_div_mod(p, n as int);
            assert(0 <= i < m && p == i * n + j) by (nonlinear_arith)
                requires
                    p == n * i + j,
                    0 <= j < n,
                    0 <= p < m * n,
            ;
            lemma_position(m as int, n as int, i, j);
            assert(row(s, n, i)[j] == s[p]);
            assert(row(t, n, i)[j] == t[p]);
        }
    }
    assert(s =~= t);
}

/// Row `i` of a row-major matrix with `n` columns starts behind the `i` rows
/// before it, and each of its elements has a place of its own.
pub proof fn law_row<T>(s: Seq<T>, m: nat, n: nat, i: int, j: int)
    requires
        s.len() == m * n,
        0 <= i < m,
        0 <= j < n,
    ensures
        row(s, n, i).len() == n,
        row(s, n, i)[j] == s[i * n + j],
        0 <= i * n + j < s.len(),
{
    lemma_position(m as int, n as int, i, j);
}

/// Column `j` of a row-major matrix takes one element from each row.
pub proof fn law_column<T>(s: Seq<T>, m: nat, n: nat, i: int, j: int)
    requires
        s.len() == m * n,
        0 <= i < m,
        0 <= j < n,
    ensures
        column(s, n, m, j).len() == m,
        column(s, n, m, j)[i] == s[i * n + j],
{
}

} // verus!
