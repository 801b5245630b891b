//! Strassen's recursive multiplication strategy.
//!
//! A square power-of-two matrix pair is split into quadrants, seven
//! half-size products are computed recursively, and their signed sums
//! are reassembled into the result quadrants.  Small or
//! non-power-of-two squares fall back to the baseline.  Because element
//! arithmetic wraps — a ring homomorphism — Strassen's rearrangement is
//! proved to yield exactly the product relation of the baseline.

use vstd::prelude::*;

verus! {

use crate::arith::{
    congruent,
    lemma_congruent_add,
    lemma_congruent_sub,
    lemma_congruent_wrap,
    lemma_wrap_congruent,
    wadd,
    wrap_i64,
    wsub,
};
use crate::matrix::{is_pow2, lemma_entry_index, MatError, Matrix, MatrixModel};
use crate::multiply::mult_core;
use crate::product::{dot, is_product, lemma_dot_comb, lemma_dot_eq, lemma_dot_split_shift};

/// Copies the `h × h` sub-matrix of `m` whose top-left corner is
/// `(r0, c0)` into a fresh matrix.
fn extract(m: &Matrix, r0: usize, c0: usize, h: usize) -> (q: Matrix)
    requires
        m.wf(),
        r0 + h <= m@.rows,
        c0 + h <= m@.cols,
        h * h <= usize::MAX,
    ensures
        q.wf(),
        q@.rows == h,
        q@.cols == h,
        forall|i: int, j: int|
            0 <= i < h && 0 <= j < h ==> #[trigger] q@.entry(i, j) == m@.entry(r0 + i, c0 + j),
{
    let mut data: Vec<i64> = Vec::new();
    let mut i: usize = 0;
    while i < h
        invariant
            m.wf(),
            r0 + h <= m@.rows,
            c0 + h <= m@.cols,
            h * h <= usize::MAX,
            i <= h,
            data@.len() == i * h,
            forall|i2: int, j2: int|
                0 <= i2 < i && 0 <= j2 < h ==> #[trigger] data@[i2 * h + j2] as int == m@.entry(
                    r0 + i2,
                    c0 + j2,
                ),
        decreases h - i,
    {
        proof {
            assert(i * h + h <= h * h) by (nonlinear_arith)
                requires
                    i < h,
            ;
        }
        let mut j: usize = 0;
        while j < h
            invariant
                m.wf(),
                r0 + h <= m@.rows,
                c0 + h <= m@.cols,
                i < h,
                j <= h,
                i * h + h <= h * h <= usize::MAX,
                data@.len() == i * h + j,
                forall|i2: int, j2: int|
                    0 <= i2 < i && 0 <= j2 < h ==> #[trigger] data@[i2 * h + j2] as int == m@.entry(
                        r0 + i2,
                        c0 + j2,
                    ),
                forall|j2: int|
                    0 <= j2 < j ==> #[trigger] data@[i * h + j2] as int == m@.entry(
                        r0 + i as int,
                        c0 + j2,
                    ),
            decreases h - j,
        {
            data.push(m.get(r0 + i, c0 + j));
            proof {
                assert forall|i2: int, j2: int| 0 <= i2 < i && 0 <= j2 < h implies #[trigger] data@[
                    i2 * h + j2
                ] as int == m@.entry(r0 + i2, c0 + j2) by {
                    lemma_entry_index(i as int, h as int, i2, j2);
                }
            }
            j += 1;
        }
        proof {
            assert((i + 1) * h == i * h + h) by (nonlinear_arith);
        }
        i += 1;
    }
    let q = Matrix { rows: h, cols: h, data };
    proof {
        assert forall|i2: int, j2: int| 0 <= i2 < h && 0 <= j2 < h implies #[trigger] q@.entry(
            i2,
            j2,
        ) == m@.entry(r0 + i2, c0 + j2) by {
            lemma_entry_index(h as int, h as int, i2, j2);
        }
    }
    q
}

/// Splits a square matrix of even dimension `2 * half` into its four
/// `half × half` quadrants.
pub fn split_matrix(m: &Matrix, half: usize) -> (q: (Matrix, Matrix, Matrix, Matrix))
    requires
        m.wf(),
        m@.rows == m@.cols,
        m@.rows == 2 * half,
        half * half <= usize::MAX,
    ensures
        q.0.wf() && q.1.wf() && q.2.wf() && q.3.wf(),
        q.0@.rows == half && q.0@.cols == half,
        q.1@.rows == half && q.1@.cols == half,
        q.2@.rows == half && q.2@.cols == half,
        q.3@.rows == half && q.3@.cols == half,
        forall|i: int, j: int|
            0 <= i < half && 0 <= j < half ==> #[trigger] q.0@.entry(i, j) == m@.entry(i, j),
        forall|i: int, j: int|
            0 <= i < half && 0 <= j < half ==> #[trigger] q.1@.entry(i, j) == m@.entry(
                i,
                j + half,
            ),
        forall|i: int, j: int|
            0 <= i < half && 0 <= j < half ==> #[trigger] q.2@.entry(i, j) == m@.entry(
                i + half,
                j,
            ),
        forall|i: int, j: int|
            0 <= i < half && 0 <= j < half ==> #[trigger] q.3@.entry(i, j) == m@.entry(
                i + half,
                j + half,
            ),
{
    let m11 = extract(m, 0, 0, half);
    let m12 = extract(m, 0, half, half);
    let m21 = extract(m, half, 0, half);
    let m22 = extract(m, half, half, half);
    (m11, m12, m21, m22)
}

/// The elementwise wrapping sum of two matrices of one shape.
pub fn matrix_add(a: &Matrix, b: &Matrix) -> (r: Matrix)
    requires
        a.wf(),
        b.wf(),
        a@.rows == b@.rows,
        a@.cols == b@.cols,
    ensures
        r.wf(),
        r@.rows == a@.rows,
        r@.cols == a@.cols,
        forall|i: int, j: int|
            0 <= i < a@.rows && 0 <= j < a@.cols ==> #[trigger] r@.entry(i, j) == wrap_i64(
                a@.entry(i, j) + b@.entry(i, j),
            ),
{
    let len = a.data.len();
    let mut data: Vec<i64> = Vec::new();
    let mut k: usize = 0;
    while k < len
        invariant
            a.wf(),
            b.wf(),
            a@.rows == b@.rows,
            a@.cols == b@.cols,
            len == a@.elems.len(),
            k <= len,
            data@.len() == k,
            forall|k2: int|
                0 <= k2 < k ==> #[trigger] data@[k2] as int == wrap_i64(
                    a@.elems[k2] + b@.elems[k2],
                ),
        decreases len - k,
    {
        data.push(wadd(a.data[k], b.data[k]));
        k += 1;
    }
    let r = Matrix { rows: a.rows, cols: a.cols, data };
    proof {
        assert forall|i: int, j: int| 0 <= i < a@.rows && 0 <= j < a@.cols implies #[trigger] r@
            .entry(i, j) == wrap_i64(a@.entry(i, j) + b@.entry(i, j)) by {
            lemma_entry_index(a@.rows as int, a@.cols as int, i, j);
        }
    }
    r
}

/// The elementwise wrapping difference of two matrices of one shape.
pub fn matrix_subtract(a: &Matrix, b: &Matrix) -> (r: Matrix)
    requires
        a.wf(),
        b.wf(),
        a@.rows == b@.rows,
        a@.cols == b@.cols,
    ensures
        r.wf(),
        r@.rows == a@.rows,
        r@.cols == a@.cols,
        forall|i: int, j: int|
            0 <= i < a@.rows && 0 <= j < a@.cols ==> #[trigger] r@.entry(i, j) == wrap_i64(
                a@.entry(i, j) - b@.entry(i, j),
            ),
{
    let len = a.data.len();
    let mut data: Vec<i64> = Vec::new();
    let mut k: usize = 0;
    while k < len
        invariant
            a.wf(),
            b.wf(),
            a@.rows == b@.rows,
            a@.cols == b@.cols,
            len == a@.elems.len(),
            k <= len,
            data@.len() == k,
            forall|k2: int|
                0 <= k2 < k ==> #[trigger] data@[k2] as int == wrap_i64(
                    a@.elems[k2] - b@.elems[k2],
                ),
        decreases len - k,
    {
        data.push(wsub(a.data[k], b.data[k]));
        k += 1;
    }
    let r = Matrix { rows: a.rows, cols: a.cols, data };
    proof {
        assert forall|i: int, j: int| 0 <= i < a@.rows && 0 <= j < a@.cols implies #[trigger] r@
            .entry(i, j) == wrap_i64(a@.entry(i, j) - b@.entry(i, j)) by {
            lemma_entry_index(a@.rows as int, a@.cols as int, i, j);
        }
    }
    r
}

/// The element at `(i, j)` of the matrix assembled from four `h × h`
/// quadrants.
pub open spec fn quad_entry(
    c11: MatrixModel,
    c12: MatrixModel,
    c21: MatrixModel,
    c22: MatrixModel,
    h: int,
    i: int,
    j: int,
) -> int {
    if i < h && j < h {
        c11.entry(i, j)
    } else if i < h {
        c12.entry(i, j - h)
    } else if j < h {
        c21.entry(i - h, j)
    } else {
        c22.entry(i - h, j - h)
    }
}

/// Reassembles four `half × half` quadrants into one square matrix of
/// dimension `2 * half`.
pub fn combine_matrices(c11: &Matrix, c12: &Matrix, c21: &Matrix, c22: &Matrix) -> (r: Matrix)
    requires
        c11.wf() && c12.wf() && c21.wf() && c22.wf(),
        c11@.rows == c11@.cols,
        c12@.rows == c11@.rows && c12@.cols == c11@.rows,
        c21@.rows == c11@.rows && c21@.cols == c11@.rows,
        c22@.rows == c11@.rows && c22@.cols == c11@.rows,
        (2 * c11@.rows) * (2 * c11@.rows) <= usize::MAX,
    ensures
        r.wf(),
        r@.rows == 2 * c11@.rows,
        r@.cols == 2 * c11@.rows,
        forall|i: int, j: int|
            0 <= i < 2 * c11@.rows && 0 <= j < 2 * c11@.rows ==> #[trigger] r@.entry(i, j)
                == quad_entry(c11@, c12@, c21@, c22@, c11@.rows as int, i, j),
{
    let h = c11.rows;
    proof {
        assert(2 * h <= (2 * h) * (2 * h) || h == 0) by (nonlinear_arith);
    }
    let n = 2 * h;
    let mut data: Vec<i64> = Vec::new();
    let mut i: usize = 0;
    while i < n
        invariant
            c11.wf() && c12.wf() && c21.wf() && c22.wf(),
            h == c11@.rows,
            c11@.cols == h,
            c12@.rows == h && c12@.cols == h,
            c21@.rows == h && c21@.cols == h,
            c22@.rows == h && c22@.cols == h,
            n == 2 * h,
            n * n <= usize::MAX,
            i <= n,
            data@.len() == i * n,
            forall|i2: int, j2: int|
                0 <= i2 < i && 0 <= j2 < n ==> #[trigger] data@[i2 * n + j2] as int == quad_entry(
                    c11@,
                    c12@,
                    c21@,
                    c22@,
                    h as int,
                    i2,
                    j2,
                ),
        decreases n - i,
    {
        proof {
            assert(i * n + n <= n * n) by (nonlinear_arith)
                requires
                    i < n,
            ;
        }
        let mut j: usize = 0;
        while j < n
            invariant
                c11.wf() && c12.wf() && c21.wf() && c22.wf(),
                h == c11@.rows,
                c11@.cols == h,
                c12@.rows == h && c12@.cols == h,
                c21@.rows == h && c21@.cols == h,
                c22@.rows == h && c22@.cols == h,
                n == 2 * h,
                i < n,
                j <= n,
                i * n + n <= n * n <= usize::MAX,
                data@.len() == i * n + j,
                forall|i2: int, j2: int|
                    0 <= i2 < i && 0 <= j2 < n ==> #[trigger] data@[i2 * n + j2] as int
                        == quad_entry(c11@, c12@, c21@, c22@, h as int, i2, j2),
                forall|j2: int|
                    0 <= j2 < j ==> #[trigger] data@[i * n + j2] as int == quad_entry(
                        c11@,
                        c12@,
                        c21@,
                        c22@,
                        h as int,
                        i as int,
                        j2,
                    ),
            decreases n - j,
        {
            let v = if i < h {
                if j < h {
                    c11.get(i, j)
                } else {
                    c12.get(i, j - h)
                }
            } else {
                if j < h {
                    c21.get(i - h, j)
                } else {
                    c22.get(i - h, j - h)
                }
            };
            data.push(v);
            proof {
                assert forall|i2: int, j2: int| 0 <= i2 < i && 0 <= j2 < n implies #[trigger] data@[
                    i2 * n + j2
                ] as int == quad_entry(c11@, c12@, c21@, c22@, h as int, i2, j2) by {
                    lemma_entry_index(i as int, n as int, i2, j2);
                }
            }
            j += 1;
        }
        proof {
            assert((i + 1) * n == i * n + n) by (nonlinear_arith);
        }
        i += 1;
    }
    let r = Matrix { rows: n, cols: n, data };
    proof {
        assert forall|i2: int, j2: int| 0 <= i2 < n && 0 <= j2 < n implies #[trigger] r@.entry(
            i2,
            j2,
        ) == quad_entry(c11@, c12@, c21@, c22@, h as int, i2, j2) by {
            lemma_entry_index(n as int, n as int, i2, j2);
        }
    }
    r
}

/// Block decomposition of the true product of square matrices of
/// dimension `2 * h`: each quadrant of the full inner product is the
/// sum of two quadrant inner products.
proof fn lemma_block_decomposition(
    a: MatrixModel,
    b: MatrixModel,
    a11: MatrixModel,
    a12: MatrixModel,
    a21: MatrixModel,
    a22: MatrixModel,
    b11: MatrixModel,
    b12: MatrixModel,
    b21: MatrixModel,
    b22: MatrixModel,
    h: int,
    i: int,
    j: int,
)
    requires
        h >= 0,
        0 <= i < h,
        0 <= j < h,
        forall|i2: int, j2: int|
            0 <= i2 < h && 0 <= j2 < h ==> #[trigger] a11.entry(i2, j2) == a.entry(i2, j2),
        forall|i2: int, j2: int|
            0 <= i2 < h && 0 <= j2 < h ==> #[trigger] a12.entry(i2, j2) == a.entry(i2, j2 + h),
        forall|i2: int, j2: int|
            0 <= i2 < h && 0 <= j2 < h ==> #[trigger] a21.entry(i2, j2) == a.entry(i2 + h, j2),
        forall|i2: int, j2: int|
            0 <= i2 < h && 0 <= j2 < h ==> #[trigger] a22.entry(i2, j2) == a.entry(
                i2 + h,
                j2 + h,
            ),
        forall|i2: int, j2: int|
            0 <= i2 < h && 0 <= j2 < h ==> #[trigger] b11.entry(i2, j2) == b.entry(i2, j2),
        forall|i2: int, j2: int|
            0 <= i2 < h && 0 <= j2 < h ==> #[trigger] b12.entry(i2, j2) == b.entry(i2, j2 + h),
        forall|i2: int, j2: int|
            0 <= i2 < h && 0 <= j2 < h ==> #[trigger] b21.entry(i2, j2) == b.entry(i2 + h, j2),
        forall|i2: int, j2: int|
            0 <= i2 < h && 0 <= j2 < h ==> #[trigger] b22.entry(i2, j2) == b.entry(
                i2 + h,
                j2 + h,
            ),
    ensures
        dot(a, b, i, j, (2 * h) as nat) == dot(a11, b11, i, j, h as nat) + dot(
            a12,
            b21,
            i,
            j,
            h as nat,
        ),
        dot(a, b, i, j + h, (2 * h) as nat) == dot(a11, b12, i, j, h as nat) + dot(
            a12,
            b22,
            i,
            j,
            h as nat,
        ),
        dot(a, b, i + h, j, (2 * h) as nat) == dot(a21, b11, i, j, h as nat) + dot(
            a22,
            b21,
            i,
            j,
            h as nat,
        ),
        dot(a, b, i + h, j + h, (2 * h) as nat) == dot(a21, b12, i, j, h as nat) + dot(
            a22,
            b22,
            i,
            j,
            h as nat,
        ),
{
    let hn = h as nat;
    // Quadrant (1, 1).
    lemma_dot_eq(a, b, a11, b11, i, j, i, j, hn);
    lemma_dot_split_shift(a, b, a12, b21, i, j, i, j, hn, hn);
    // Quadrant (1, 2).
    lemma_dot_eq(a, b, a11, b12, i, j + h, i, j, hn);
    lemma_dot_split_shift(a, b, a12, b22, i, j + h, i, j, hn, hn);
    // Quadrant (2, 1).
    lemma_dot_eq(a, b, a21, b11, i + h, j, i, j, hn);
    lemma_dot_split_shift(a, b, a22, b21, i + h, j, i, j, hn, hn);
    // Quadrant (2, 2).
    lemma_dot_eq(a, b, a21, b12, i + h, j + h, i, j, hn);
    lemma_dot_split_shift(a, b, a22, b22, i + h, j + h, i, j, hn, hn);
}

/// Strassen's recursion on square matrices of equal dimension.
#[verifier::rlimit(100)]
fn strassen_core(a: &Matrix, b: &Matrix) -> (r: Matrix)
    requires
        a.wf(),
        b.wf(),
        a@.rows == a@.cols,
        b@.rows == b@.cols,
        a@.cols == b@.rows,
        a@.rows * a@.rows <= usize::MAX,
    ensures
        r.wf(),
        is_product(r@, a@, b@),
    decreases a@.rows,
{
    let n = a.rows;
    // Base case: small or non-power-of-two dimensions fall back to the
    // baseline.
    if n <= 64 || !is_pow2(n) {
        return mult_core(a, b);
    }
    proof {
        assert(n % 2 == 0);
        assert((n / 2) * (n / 2) <= n * n) by (nonlinear_arith)
            requires
                n >= 0,
        ;
    }
    let half = n / 2;
    let (a11, a12, a21, a22) = split_matrix(a, half);
    let (b11, b12, b21, b22) = split_matrix(b, half);
    let s1 = matrix_add(&a11, &a22);
    let s2 = matrix_add(&b11, &b22);
    let m1 = strassen_core(&s1, &s2);
    let s3 = matrix_add(&a21, &a22);
    let m2 = strassen_core(&s3, &b11);
    let s4 = matrix_subtract(&b12, &b22);
    let m3 = strassen_core(&a11, &s4);
    let s5 = matrix_subtract(&b21, &b11);
    let m4 = strassen_core(&a22, &s5);
    let s6 = matrix_add(&a11, &a12);
    let m5 = strassen_core(&s6, &b22);
    let s7 = matrix_subtract(&a21, &a11);
    let s8 = matrix_add(&b11, &b12);
    let m6 = strassen_core(&s7, &s8);
    let s9 = matrix_subtract(&a12, &a22);
    let s10 = matrix_add(&b21, &b22);
    let m7 = strassen_core(&s9, &s10);
    let t1 = matrix_add(&m1, &m4);
    let t2 = matrix_subtract(&t1, &m5);
    let c11 = matrix_add(&t2, &m7);
    let c12 = matrix_add(&m3, &m5);
    let c21 = matrix_add(&m2, &m4);
    let t3 = matrix_add(&m1, &m3);
    let t4 = matrix_subtract(&t3, &m2);
    let c22 = matrix_add(&t4, &m6);
    let r = combine_matrices(&c11, &c12, &c21, &c22);
    proof {
        let A = a@;
        let B = b@;
        let hh = half as int;
        let hn = half as nat;
        // Each of the seven recursive products is congruent, element by
        // element, to its signed combination of quadrant inner
        // products.
        assert forall|qi: int, qj: int| 0 <= qi < hh && 0 <= qj < hh implies congruent(
            #[trigger] m1@.entry(qi, qj),
            dot(a11@, b11@, qi, qj, hn) + dot(a11@, b22@, qi, qj, hn) + dot(a22@, b11@, qi, qj, hn)
                + dot(a22@, b22@, qi, qj, hn),
        ) by {
            assert forall|t: int| 0 <= t < hh implies congruent(
                #[trigger] s1@.entry(qi, t),
                a11@.entry(qi, t) + 1 * a22@.entry(qi, t),
            ) by {
                lemma_wrap_congruent(a11@.entry(qi, t) + a22@.entry(qi, t));
            }
            assert forall|t: int| 0 <= t < hh implies congruent(
                #[trigger] s2@.entry(t, qj),
                b11@.entry(t, qj) + 1 * b22@.entry(t, qj),
            ) by {
                lemma_wrap_congruent(b11@.entry(t, qj) + b22@.entry(t, qj));
            }
            lemma_dot_comb(s1@, s2@, a11@, a22@, 1, b11@, b22@, 1, qi, qj, hn);
            lemma_wrap_congruent(dot(s1@, s2@, qi, qj, hn));
        }
        assert forall|qi: int, qj: int| 0 <= qi < hh && 0 <= qj < hh implies congruent(
            #[trigger] m2@.entry(qi, qj),
            dot(a21@, b11@, qi, qj, hn) + dot(a22@, b11@, qi, qj, hn),
        ) by {
            assert forall|t: int| 0 <= t < hh implies congruent(
                #[trigger] s3@.entry(qi, t),
                a21@.entry(qi, t) + 1 * a22@.entry(qi, t),
            ) by {
                lemma_wrap_congruent(a21@.entry(qi, t) + a22@.entry(qi, t));
            }
            lemma_dot_comb(s3@, b11@, a21@, a22@, 1, b11@, b11@, 0, qi, qj, hn);
            lemma_wrap_congruent(dot(s3@, b11@, qi, qj, hn));
        }
        assert forall|qi: int, qj: int| 0 <= qi < hh && 0 <= qj < hh implies congruent(
            #[trigger] m3@.entry(qi, qj),
            dot(a11@, b12@, qi, qj, hn) - dot(a11@, b22@, qi, qj, hn),
        ) by {
            assert forall|t: int| 0 <= t < hh implies congruent(
                #[trigger] s4@.entry(t, qj),
                b12@.entry(t, qj) + (-1) * b22@.entry(t, qj),
            ) by {
                lemma_wrap_congruent(b12@.entry(t, qj) - b22@.entry(t, qj));
            }
            lemma_dot_comb(a11@, s4@, a11@, a11@, 0, b12@, b22@, -1, qi, qj, hn);
            lemma_wrap_congruent(dot(a11@, s4@, qi, qj, hn));
        }
        assert forall|qi: int, qj: int| 0 <= qi < hh && 0 <= qj < hh implies congruent(
            #[trigger] m4@.entry(qi, qj),
            dot(a22@, b21@, qi, qj, hn) - dot(a22@, b11@, qi, qj, hn),
        ) by {
            assert forall|t: int| 0 <= t < hh implies congruent(
                #[trigger] s5@.entry(t, qj),
                b21@.entry(t, qj) + (-1) * b11@.entry(t, qj),
            ) by {
                lemma_wrap_congruent(b21@.entry(t, qj) - b11@.entry(t, qj));
            }
            lemma_dot_comb(a22@, s5@, a22@, a22@, 0, b21@, b11@, -1, qi, qj, hn);
            lemma_wrap_congruent(dot(a22@, s5@, qi, qj, hn));
        }
        assert forall|qi: int, qj: int| 0 <= qi < hh && 0 <= qj < hh implies congruent(
            #[trigger] m5@.entry(qi, qj),
            dot(a11@, b22@, qi, qj, hn) + dot(a12@, b22@, qi, qj, hn),
        ) by {
            assert forall|t: int| 0 <= t < hh implies congruent(
                #[trigger] s6@.entry(qi, t),
                a11@.entry(qi, t) + 1 * a12@.entry(qi, t),
            ) by {
                lemma_wrap_congruent(a11@.entry(qi, t) + a12@.entry(qi, t));
            }
            lemma_dot_comb(s6@, b22@, a11@, a12@, 1, b22@, b22@, 0, qi, qj, hn);
            lemma_wrap_congruent(dot(s6@, b22@, qi, qj, hn));
        }
        assert forall|qi: int, qj: int| 0 <= qi < hh && 0 <= qj < hh implies congruent(
            #[trigger] m6@.entry(qi, qj),
            dot(a21@, b11@, qi, qj, hn) + dot(a21@, b12@, qi, qj, hn) - dot(
                a11@,
                b11@,
                qi,
                qj,
                hn,
            ) - dot(a11@, b12@, qi, qj, hn),
        ) by {
            assert forall|t: int| 0 <= t < hh implies congruent(
                #[trigger] s7@.entry(qi, t),
                a21@.entry(qi, t) + (-1) * a11@.entry(qi, t),
            ) by {
                lemma_wrap_congruent(a21@.entry(qi, t) - a11@.entry(qi, t));
            }
            assert forall|t: int| 0 <= t < hh implies congruent(
                #[trigger] s8@.entry(t, qj),
                b11@.entry(t, qj) + 1 * b12@.entry(t, qj),
            ) by {
                lemma_wrap_congruent(b11@.entry(t, qj) + b12@.entry(t, qj));
            }
            lemma_dot_comb(s7@, s8@, a21@, a11@, -1, b11@, b12@, 1, qi, qj, hn);
            lemma_wrap_congruent(dot(s7@, s8@, qi, qj, hn));
        }
        assert forall|qi: int, qj: int| 0 <= qi < hh && 0 <= qj < hh implies congruent(
            #[trigger] m7@.entry(qi, qj),
            dot(a12@, b21@, qi, qj, hn) + dot(a12@, b22@, qi, qj, hn) - dot(
                a22@,
                b21@,
                qi,
                qj,
                hn,
            ) - dot(a22@, b22@, qi, qj, hn),
        ) by {
            assert forall|t: int| 0 <= t < hh implies congruent(
                #[trigger] s9@.entry(qi, t),
                a12@.entry(qi, t) + (-1) * a22@.entry(qi, t),
            ) by {
                lemma_wrap_congruent(a12@.entry(qi, t) - a22@.entry(qi, t));
            }
            assert forall|t: int| 0 <= t < hh implies congruent(
                #[trigger] s10@.entry(t, qj),
                b21@.entry(t, qj) + 1 * b22@.entry(t, qj),
            ) by {
                lemma_wrap_congruent(b21@.entry(t, qj) + b22@.entry(t, qj));
            }
            lemma_dot_comb(s9@, s10@, a12@, a22@, -1, b21@, b22@, 1, qi, qj, hn);
            lemma_wrap_congruent(dot(s9@, s10@, qi, qj, hn));
        }
        // Combining the seven products quadrant by quadrant yields the
        // full inner products.
        assert forall|i: int, j: int| 0 <= i < n && 0 <= j < n implies #[trigger] r@.entry(i, j)
            == wrap_i64(dot(A, B, i, j, n as nat)) by {
            let qi = if i < hh {
                i
            } else {
                i - hh
            };
            let qj = if j < hh {
                j
            } else {
                j - hh
            };
            lemma_block_decomposition(
                A,
                B,
                a11@,
                a12@,
                a21@,
                a22@,
                b11@,
                b12@,
                b21@,
                b22@,
                hh,
                qi,
                qj,
            );
            let m1e = m1@.entry(qi, qj);
            let m2e = m2@.entry(qi, qj);
            let m3e = m3@.entry(qi, qj);
            let m4e = m4@.entry(qi, qj);
            let m5e = m5@.entry(qi, qj);
            let m6e = m6@.entry(qi, qj);
            let m7e = m7@.entry(qi, qj);
            let s1111 = dot(a11@, b11@, qi, qj, hn);
            let s1112 = dot(a11@, b12@, qi, qj, hn);
            let s1122 = dot(a11@, b22@, qi, qj, hn);
            let s1221 = dot(a12@, b21@, qi, qj, hn);
            let s1222 = dot(a12@, b22@, qi, qj, hn);
            let s2111 = dot(a21@, b11@, qi, qj, hn);
            let s2112 = dot(a21@, b12@, qi, qj, hn);
            let s2211 = dot(a22@, b11@, qi, qj, hn);
            let s2221 = dot(a22@, b21@, qi, qj, hn);
            let s2222 = dot(a22@, b22@, qi, qj, hn);
            let x1 = s1111 + s1122 + s2211 + s2222;
            let x2 = s2111 + s2211;
            let x3 = s1112 - s1122;
            let x4 = s2221 - s2211;
            let x5 = s1122 + s1222;
            let x6 = s2111 + s2112 - s1111 - s1112;
            let x7 = s1221 + s1222 - s2221 - s2222;
            if i < hh && j < hh {
                let t1e = t1@.entry(qi, qj);
                let t2e = t2@.entry(qi, qj);
                let ce = c11@.entry(qi, qj);
                lemma_wrap_congruent(m1e + m4e);
                lemma_congruent_sub(t1e, m5e, m1e + m4e, m5e);
                lemma_wrap_congruent(t1e - m5e);
                lemma_congruent_add(t2e, m7e, m1e + m4e - m5e, m7e);
                lemma_wrap_congruent(t2e + m7e);
                lemma_congruent_add(m1e, m4e, x1, x4);
                lemma_congruent_sub(m1e + m4e, m5e, x1 + x4, x5);
                lemma_congruent_add(m1e + m4e - m5e, m7e, x1 + x4 - x5, x7);
                assert(x1 + x4 - x5 + x7 == s1111 + s1221);
                lemma_congruent_wrap(ce, dot(A, B, i, j, n as nat));
            } else if i < hh {
                let ce = c12@.entry(qi, qj);
                lemma_wrap_congruent(m3e + m5e);
                lemma_congruent_add(m3e, m5e, x3, x5);
                assert(x3 + x5 == s1112 + s1222);
                lemma_congruent_wrap(ce, dot(A, B, i, j, n as nat));
            } else if j < hh {
                let ce = c21@.entry(qi, qj);
                lemma_wrap_congruent(m2e + m4e);
                lemma_congruent_add(m2e, m4e, x2, x4);
                assert(x2 + x4 == s2111 + s2221);
                lemma_congruent_wrap(ce, dot(A, B, i, j, n as nat));
            } else {
                let t3e = t3@.entry(qi, qj);
                let t4e = t4@.entry(qi, qj);
                let ce = c22@.entry(qi, qj);
                lemma_wrap_congruent(m1e + m3e);
                lemma_congruent_sub(t3e, m2e, m1e + m3e, m2e);
                lemma_wrap_congruent(t3e - m2e);
                lemma_congruent_add(t4e, m6e, m1e + m3e - m2e, m6e);
                lemma_wrap_congruent(t4e + m6e);
                lemma_congruent_add(m1e, m3e, x1, x3);
                lemma_congruent_sub(m1e + m3e, m2e, x1 + x3, x2);
                lemma_congruent_add(m1e + m3e - m2e, m6e, x1 + x3 - x2, x6);
                assert(x1 + x3 - x2 + x6 == s2112 + s2222);
                lemma_congruent_wrap(ce, dot(A, B, i, j, n as nat));
            }
        }
    }
    r
}

/// Strassen multiplication.
///
/// Requires square operands of one dimension; returns their product,
/// delegating to the baseline below the size threshold of `64` and for
/// non-power-of-two dimensions.  Returns `DimensionMismatch` — before
/// any computation — exactly when the operands are not square matrices
/// of one dimension.
pub fn multiply_strassen(a: &Matrix, b: &Matrix) -> (r: Result<Matrix, MatError>)
    requires
        a.wf(),
        b.wf(),
        a@.rows * b@.cols <= usize::MAX,
    ensures
        match r {
            Ok(m) => a@.cols == b@.rows && a@.rows == a@.cols && b@.rows == b@.cols && m.wf()
                && is_product(m@, a@, b@),
            Err(e) => {
                &&& !(a@.cols == b@.rows && a@.rows == a@.cols && b@.rows == b@.cols)
                &&& e == MatError::DimensionMismatch
            },
        },
{
    if a.cols != b.rows || a.rows != a.cols || b.rows != b.cols {
        return Err(MatError::DimensionMismatch);
    }
    Ok(strassen_core(a, b))
}

} // verus!
