//! The baseline multiplication strategy: the naive triple loop.
//!
//! `multiply_baseline` is the numerical reference of the engine.  Its
//! inner-product core also computes single result rows for the
//! row-parallel strategy, and serves as the base case of Strassen's
//! recursion.

use vstd::prelude::*;

verus! {

use crate::arith::{
    congruent,
    lemma_congruent_add,
    lemma_congruent_wrap,
    lemma_wrap_congruent,
    wadd,
    wmul,
    wrap_i64,
};
use crate::matrix::{lemma_entry_index, MatError, Matrix, MatrixModel};
use crate::product::{dot, is_product};

/// `row` is row `i` of the product of `a` by `b`.
pub open spec fn row_ok(a: MatrixModel, b: MatrixModel, i: int, row: Seq<i64>) -> bool {
    &&& row.len() == b.cols
    &&& forall|j: int|
        0 <= j < b.cols ==> #[trigger] row[j] as int == wrap_i64(dot(a, b, i, j, a.cols))
}

/// Computes row `i` of the product of `a` by `b`, accumulating each
/// element with a scalar accumulator reset to zero per output cell.
pub fn product_row(a: &Matrix, b: &Matrix, i: usize) -> (row: Vec<i64>)
    requires
        a.wf(),
        b.wf(),
        a@.cols == b@.rows,
        i < a@.rows,
    ensures
        row_ok(a@, b@, i as int, row@),
{
    let n = b.cols;
    let kd = a.cols;
    let mut row: Vec<i64> = Vec::new();
    let mut j: usize = 0;
    while j < n
        invariant
            a.wf(),
            b.wf(),
            a@.cols == b@.rows,
            i < a@.rows,
            n == b@.cols,
            kd == a@.cols,
            j <= n,
            row@.len() == j,
            forall|j2: int|
                0 <= j2 < j ==> #[trigger] row@[j2] as int == wrap_i64(
                    dot(a@, b@, i as int, j2, a@.cols),
                ),
        decreases n - j,
    {
        let mut acc: i64 = 0;
        let mut k: usize = 0;
        while k < kd
            invariant
                a.wf(),
                b.wf(),
                a@.cols == b@.rows,
                i < a@.rows,
                j < n,
                n == b@.cols,
                kd == a@.cols,
                k <= kd,
                congruent(acc as int, dot(a@, b@, i as int, j as int, k as nat)),
            decreases kd - k,
        {
            let ae = a.get(i, k);
            let be = b.get(k, j);
            let m = wmul(ae, be);
            let sum = wadd(acc, m);
            proof {
                let ghost d = dot(a@, b@, i as int, j as int, k as nat);
                lemma_wrap_congruent(ae as int * be as int);
                lemma_congruent_add(acc as int, m as int, d, ae as int * be as int);
                lemma_wrap_congruent(acc as int + m as int);
            }
            acc = sum;
            k += 1;
        }
        proof {
            lemma_congruent_wrap(acc as int, dot(a@, b@, i as int, j as int, a@.cols));
        }
        row.push(acc);
        j += 1;
    }
    row
}

/// Multiplies compatible matrices; shared core of the baseline and of
/// Strassen's base case.
pub(crate) fn mult_core(a: &Matrix, b: &Matrix) -> (r: Matrix)
    requires
        a.wf(),
        b.wf(),
        a@.cols == b@.rows,
        a@.rows * b@.cols <= usize::MAX,
    ensures
        r.wf(),
        is_product(r@, a@, b@),
{
    let rows = a.rows;
    let cols = b.cols;
    let mut data: Vec<i64> = Vec::new();
    let mut i: usize = 0;
    while i < rows
        invariant
            a.wf(),
            b.wf(),
            a@.cols == b@.rows,
            rows == a@.rows,
            cols == b@.cols,
            rows * cols <= usize::MAX,
            i <= rows,
            data@.len() == i * cols,
            forall|i2: int, j: int|
                0 <= i2 < i && 0 <= j < cols ==> #[trigger] data@[i2 * cols + j] as int
                    == wrap_i64(dot(a@, b@, i2, j, a@.cols)),
        decreases rows - i,
    {
        let mut row = product_row(a, b, i);
        proof {
            assert(i * cols + cols <= rows * cols) by (nonlinear_arith)
                requires
                    i < rows,
                    cols >= 0,
            ;
            assert((i + 1) * cols == i * cols + cols) by (nonlinear_arith);
            assert forall|i2: int, j: int| 0 <= i2 < i + 1 && 0 <= j < cols implies (data@
                + row@)[i2 * cols + j] as int == wrap_i64(dot(a@, b@, i2, j, a@.cols)) by {
                lemma_entry_index(i + 1, cols as int, i2, j);
                if i2 < i {
                    lemma_entry_index(i as int, cols as int, i2, j);
                } else {
                    assert(i2 * cols == i * cols);
                    assert((data@ + row@)[i2 * cols + j] == row@[j]);
                }
            }
        }
        data.append(&mut row);
        i += 1;
    }
    let r = Matrix { rows, cols, data };
    proof {
        assert forall|i2: int, j: int| 0 <= i2 < r@.rows && 0 <= j < r@.cols implies #[trigger] r@
            .entry(i2, j) == wrap_i64(dot(a@, b@, i2, j, a@.cols)) by {
            lemma_entry_index(rows as int, cols as int, i2, j);
        }
    }
    r
}

/// Baseline O(n³) multiplication: the reference strategy.
///
/// Returns the product when the shapes are compatible, and
/// `DimensionMismatch` — before any computation — exactly when they are
/// not.
pub fn multiply_baseline(a: &Matrix, b: &Matrix) -> (r: Result<Matrix, MatError>)
    requires
        a.wf(),
        b.wf(),
        a@.rows * b@.cols <= usize::MAX,
    ensures
        match r {
            Ok(m) => a@.cols == b@.rows && m.wf() && is_product(m@, a@, b@),
            Err(e) => a@.cols != b@.rows && e == MatError::DimensionMismatch,
        },
{
    if a.cols != b.rows {
        return Err(MatError::DimensionMismatch);
    }
    Ok(mult_core(a, b))
}

} // verus!
