//! Arithmetic of cells stored row by row.

use vstd::arithmetic::div_mod;
use vstd::prelude::*;

verus! {

/// The cell in column `c` of row `r`, with `n` cells to a row.
pub proof fn lemma_cell(k: int, n: int, r: int, c: int)
    requires
        0 <= c < n,
        k == r * n + c,
    ensures
        k / n == r,
        k % n == c,
{
    div_mod::lemma_fundamental_div_mod_converse(k, n, r, c);
}

/// Which cells lie in columns `a` to `b` of row `r`.
pub proof fn lemma_row_range(k: int, n: int, r: int, a: int, b: int)
    requires
        0 < n,
        0 <= a,
        b <= n,
    ensures
        (r * n + a <= k < r * n + b) <==> (k / n == r && a <= k % n < b),
{
    div_mod::lemma_fundamental_div_mod(k, n);
    assert(n * (k / n) == (k / n) * n) by (nonlinear_arith);
    if r * n + a <= k < r * n + b {
        lemma_cell(k, n, r, k - r * n);
    }
}

/// The last cell of row `r` comes before row `rows` starts.
pub proof fn lemma_row_end(n: int, r: int, rows: int, b: int)
    requires
        0 <= r < rows,
        0 <= b <= n,
    ensures
        0 <= r * n,
        r * n + b <= rows * n,
{
    assert(0 <= r * n && r * n + b <= rows * n) by (nonlinear_arith)
        requires
            0 <= r < rows,
            0 <= b <= n,
    ;
}

/// Of `rows` full rows, each cell lies in one.
pub proof fn lemma_cell_in_rows(k: int, n: int, rows: int)
    requires
        0 < n,
        0 <= k < rows * n,
    ensures
        0 <= k / n < rows,
        0 <= k % n < n,
        k == (k / n) * n + k % n,
{
    div_mod::lemma_fundamental_div_mod(k, n);
    assert(n * (k / n) == (k / n) * n) by (nonlinear_arith);
    let q = k / n;
    let m = k % n;
    assert(0 <= q < rows) by (nonlinear_arith)
        requires
            0 < n,
            0 <= k < rows * n,
            k == q * n + m,
            0 <= m < n,
    ;
}

} // verus!
