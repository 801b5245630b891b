//! The row-parallel multiplication strategy.
//!
//! The output is partitioned by row: each worker computes one output
//! row with the same inner-product core as the baseline, reading the
//! shared operands only.  The workers' rows are collected in index
//! order and assembled into the result, so no two workers ever write
//! the same destination.

use rayon::iter::{
    IndexedParallelIterator, IntoParallelIterator, IntoParallelRefIterator, ParallelIterator,
};
use vstd::prelude::*;

verus! {

use crate::blocked::{band_ok, band_rows, clamp_add, compute_band};
use crate::matrix::{lemma_entry_index, MatError, Matrix};
use crate::multiply::{product_row, row_ok};
use crate::product::is_product;

/// Relies on rayon's `into_par_iter`, `map` and `collect` over a
/// `usize` range: the closure is applied to every index of the range
/// and the results are collected in index order.  The closure only
/// calls the verified `product_row`, whose contract gives each
/// collected row.
#[verifier::external_body]
fn par_rows(a: &Matrix, b: &Matrix) -> (rows: Vec<Vec<i64>>)
    requires
        a.wf(),
        b.wf(),
        a@.cols == b@.rows,
    ensures
        rows@.len() == a@.rows,
        forall|i: int| #![trigger rows@[i]] 0 <= i < rows@.len() ==> row_ok(a@, b@, i, rows@[i]@),
{
    (0..a.rows).into_par_iter().map(|i| product_row(a, b, i)).collect()
}

/// Assembles per-row results into the product matrix.
fn rows_to_matrix(a: &Matrix, b: &Matrix, rows: &Vec<Vec<i64>>) -> (r: Matrix)
    requires
        a.wf(),
        b.wf(),
        a@.cols == b@.rows,
        a@.rows * b@.cols <= usize::MAX,
        rows@.len() == a@.rows,
        forall|i: int| #![trigger rows@[i]] 0 <= i < rows@.len() ==> row_ok(a@, b@, i, rows@[i]@),
    ensures
        r.wf(),
        is_product(r@, a@, b@),
{
    let m = a.rows;
    let n = b.cols;
    let mut data: Vec<i64> = Vec::new();
    let mut i: usize = 0;
    while i < m
        invariant
            a.wf(),
            b.wf(),
            a@.cols == b@.rows,
            m == a@.rows,
            n == b@.cols,
            m * n <= usize::MAX,
            rows@.len() == m,
            forall|i2: int|
                #![trigger rows@[i2]]
                0 <= i2 < rows@.len() ==> row_ok(a@, b@, i2, rows@[i2]@),
            i <= m,
            data@.len() == i * n,
            forall|i2: int, j: int|
                0 <= i2 < i && 0 <= j < n ==> #[trigger] data@[i2 * n + j] == rows@[i2]@[j],
        decreases m - i,
    {
        let row = &rows[i];
        let mut j: usize = 0;
        proof {
            assert(i * n + n <= m * n) by (nonlinear_arith)
                requires
                    i < m,
                    n >= 0,
            ;
        }
        while j < n
            invariant
                rows@.len() == m,
                i < m,
                j <= n,
                row == rows@[i as int],
                row@.len() == n,
                i * n + n <= m * n <= usize::MAX,
                data@.len() == i * n + j,
                forall|i2: int, j2: int|
                    0 <= i2 < i && 0 <= j2 < n ==> #[trigger] data@[i2 * n + j2] == rows@[i2]@[j2],
                forall|j2: int| 0 <= j2 < j ==> #[trigger] data@[i * n + j2] == row@[j2],
            decreases n - j,
        {
            data.push(row[j]);
            proof {
                assert forall|i2: int, j2: int| 0 <= i2 < i && 0 <= j2 < n implies #[trigger] data@[
                    i2 * n + j2
                ] == rows@[i2]@[j2] by {
                    lemma_entry_index(i as int, n as int, i2, j2);
                }
            }
            j += 1;
        }
        proof {
            assert((i + 1) * n == i * n + n) by (nonlinear_arith);
        }
        i += 1;
    }
    let r = Matrix { rows: m, cols: n, data };
    proof {
        assert forall|i2: int, j: int| 0 <= i2 < r@.rows && 0 <= j < r@.cols implies #[trigger] r@
            .entry(i2, j) == wrap_row_entry(a@, b@, i2, j) by {
            lemma_entry_index(m as int, n as int, i2, j);
        }
    }
    r
}

/// The value `is_product` requires of the element at `(i, j)`.
spec fn wrap_row_entry(a: crate::matrix::MatrixModel, b: crate::matrix::MatrixModel, i: int, j: int) -> int {
    crate::arith::wrap_i64(crate::product::dot(a, b, i, j, a.cols))
}

/// Row-parallel multiplication: the same mathematical contract as the
/// baseline, with the output rows computed by a worker pool.
///
/// Returns the product when the shapes are compatible, and
/// `DimensionMismatch` exactly when they are not.
pub fn multiply_parallel_rows(a: &Matrix, b: &Matrix) -> (r: Result<Matrix, MatError>)
    requires
        a.wf(),
        b.wf(),
        a@.rows * b@.cols <= usize::MAX,
    ensures
        match r {
            Ok(m) => a@.cols == b@.rows && m.wf() && is_product(m@, a@, b@),
            Err(e) => a@.cols != b@.rows && e == MatError::DimensionMismatch,
        },
{
    if a.cols != b.rows {
        return Err(MatError::DimensionMismatch);
    }
    let rows = par_rows(a, b);
    Ok(rows_to_matrix(a, b, &rows))
}

/// Relies on rayon's `par_iter`, `map` and `collect` over a slice of
/// band start rows: the closure is applied to every start and the
/// results are collected in order.  The closure only calls the
/// verified `compute_band`, whose contract gives each collected band.
#[verifier::external_body]
fn par_bands(a: &Matrix, b: &Matrix, block_size: usize, starts: &Vec<usize>) -> (bands: Vec<
    Vec<i64>,
>)
    requires
        a.wf(),
        b.wf(),
        a@.cols == b@.rows,
        a@.rows * b@.cols <= usize::MAX,
        block_size >= 1,
        forall|t: int| 0 <= t < starts@.len() ==> #[trigger] starts@[t] < a@.rows,
    ensures
        bands@.len() == starts@.len(),
        forall|t: int|
            #![trigger bands@[t]]
            0 <= t < bands@.len() ==> band_ok(
                a@,
                b@,
                block_size as int,
                starts@[t] as int,
                bands@[t]@,
            ),
{
    starts.par_iter().map(|ii: &usize| compute_band(a, b, block_size, *ii)).collect()
}

/// Parallel blocked multiplication: the row-band coordinate is
/// distributed across workers, each accumulating its tiles in a local
/// buffer and writing back only into its own, non-overlapping band of
/// the result.
///
/// Returns the product when the shapes are compatible and the block
/// size is positive; `DimensionMismatch` exactly when the shapes are
/// incompatible, and `InvalidParameter` exactly when the shapes are
/// compatible but the block size is zero.
pub fn multiply_parallel_blocked(a: &Matrix, b: &Matrix, block_size: usize) -> (r: Result<
    Matrix,
    MatError,
>)
    requires
        a.wf(),
        b.wf(),
        a@.rows * b@.cols <= usize::MAX,
    ensures
        match r {
            Ok(m) => a@.cols == b@.rows && block_size >= 1 && m.wf() && is_product(m@, a@, b@),
            Err(e) => if a@.cols != b@.rows {
                e == MatError::DimensionMismatch
            } else {
                block_size == 0 && e == MatError::InvalidParameter
            },
        },
{
    if a.cols != b.rows {
        return Err(MatError::DimensionMismatch);
    }
    if block_size == 0 {
        return Err(MatError::InvalidParameter);
    }
    let m = a.rows;
    let n = b.cols;
    // The band start rows: 0, block_size, 2 * block_size, ...
    let mut starts: Vec<usize> = Vec::new();
    let mut i: usize = 0;
    while i < m
        invariant
            block_size >= 1,
            i <= m,
            forall|t: int| 0 <= t < starts@.len() ==> #[trigger] starts@[t] < m,
            forall|t: int|
                0 <= t < starts@.len() - 1 ==> #[trigger] starts@[t] + block_size == starts@[t
                    + 1] && starts@[t] + block_size < m,
            starts@.len() > 0 ==> starts@[0] == 0,
            starts@.len() == 0 ==> i == 0,
            starts@.len() > 0 ==> i == if starts@.last() + block_size <= m {
                starts@.last() + block_size
            } else {
                m as int
            },
        decreases m - i,
    {
        starts.push(i);
        i = clamp_add(i, block_size, m);
    }
    let bands = par_bands(a, b, block_size, &starts);
    // Concatenating the bands in order yields the rows 0 .. m of the
    // product.
    let mut data: Vec<i64> = Vec::new();
    let mut cursor: usize = 0;
    let mut t: usize = 0;
    while t < starts.len()
        invariant
            a.wf(),
            b.wf(),
            a@.cols == b@.rows,
            m == a@.rows,
            n == b@.cols,
            m * n <= usize::MAX,
            block_size >= 1,
            bands@.len() == starts@.len(),
            forall|t2: int| 0 <= t2 < starts@.len() ==> #[trigger] starts@[t2] < m,
            forall|t2: int|
                0 <= t2 < starts@.len() - 1 ==> #[trigger] starts@[t2] + block_size == starts@[t2
                    + 1] && starts@[t2] + block_size < m,
            starts@.len() > 0 ==> starts@.last() + block_size >= m,
            forall|t2: int|
                #![trigger bands@[t2]]
                0 <= t2 < bands@.len() ==> band_ok(
                    a@,
                    b@,
                    block_size as int,
                    starts@[t2] as int,
                    bands@[t2]@,
                ),
            t <= starts@.len(),
            t < starts@.len() ==> cursor == starts@[t as int],
            t == starts@.len() ==> cursor == m,
            starts@.len() == 0 ==> m == 0,
            cursor <= m,
            data@.len() == cursor * n,
            forall|i2: int, j: int|
                0 <= i2 < cursor && 0 <= j < n ==> elem_ok(
                    a@,
                    b@,
                    i2,
                    j,
                    #[trigger] data@[i2 * n + j],
                ),
        decreases starts@.len() - t,
    {
        let band = &bands[t];
        let rows_here = if m - cursor <= block_size {
            m - cursor
        } else {
            block_size
        };
        proof {
            assert(rows_here == band_rows(a@, block_size as int, cursor as int));
            assert(band@.len() == rows_here * n);
            assert(cursor * n + rows_here * n <= m * n) by (nonlinear_arith)
                requires
                    cursor + rows_here <= m,
                    0 <= cursor,
                    0 <= rows_here,
                    n >= 0,
            ;
        }
        let mut x: usize = 0;
        let band_len = band.len();
        while x < band_len
            invariant
                0 <= cursor,
                band_len == band@.len(),
                x <= band_len,
                cursor * n + band_len <= m * n <= usize::MAX,
                data@.len() == cursor * n + x,
                forall|i2: int, j: int|
                    0 <= i2 < cursor && 0 <= j < n ==> elem_ok(
                        a@,
                        b@,
                        i2,
                        j,
                        #[trigger] data@[i2 * n + j],
                    ),
                forall|x2: int| 0 <= x2 < x ==> #[trigger] data@[cursor * n + x2] == band@[x2],
                n == b@.cols,
            decreases band_len - x,
        {
            data.push(band[x]);
            proof {
                assert forall|i2: int, j: int| 0 <= i2 < cursor && 0 <= j < n implies elem_ok(
                    a@,
                    b@,
                    i2,
                    j,
                    #[trigger] data@[i2 * n + j],
                ) by {
                    lemma_entry_index(cursor as int, n as int, i2, j);
                }
            }
            x += 1;
        }
        proof {
            assert forall|i2: int, j: int| 0 <= i2 < cursor + rows_here && 0 <= j
                < n implies elem_ok(a@, b@, i2, j, #[trigger] data@[i2 * n + j]) by {
                if i2 >= cursor {
                    let r = i2 - cursor;
                    assert((cursor + r) * n + j == cursor * n + (r * n + j)) by (nonlinear_arith);
                    lemma_entry_index(rows_here as int, n as int, r, j);
                    assert(data@[cursor * n + (r * n + j)] == band@[r * n + j]);
                } else {
                    lemma_entry_index(cursor as int, n as int, i2, j);
                }
            }
            assert((cursor + rows_here) * n == cursor * n + rows_here * n) by (nonlinear_arith);
        }
        cursor = cursor + rows_here;
        t += 1;
    }
    let r = Matrix { rows: m, cols: n, data };
    proof {
        assert forall|i2: int, j: int| 0 <= i2 < r@.rows && 0 <= j < r@.cols implies #[trigger] r@
            .entry(i2, j) == wrap_row_entry(a@, b@, i2, j) by {
            lemma_entry_index(m as int, n as int, i2, j);
        }
    }
    Ok(r)
}

/// The flat element `v` holds the value `is_product` requires at
/// `(i, j)`.
spec fn elem_ok(
    a: crate::matrix::MatrixModel,
    b: crate::matrix::MatrixModel,
    i: int,
    j: int,
    v: i64,
) -> bool {
    v as int == wrap_row_entry(a, b, i, j)
}

} // verus!
