//! The product relation every multiplication strategy is proved against,
//! and the algebra of dot products used by the proofs.
//!
//! A result matrix is *the* product of its operands when each of its
//! elements equals the true inner product of the corresponding row of
//! the left operand and column of the right operand, reduced into the
//! value range of `i64`.  The relation is functional, so any two
//! strategies that satisfy it return identical matrices.

use vstd::prelude::*;

verus! {

use crate::arith::{congruent, lemma_congruent_add, lemma_congruent_mul, wrap_i64};
use crate::matrix::MatrixModel;
use vstd::arithmetic::div_mod::{
    lemma_fundamental_div_mod,
    lemma_mod_bound,
    lemma_multiply_divide_lt,
};

/// The true inner product of the first `k` elements of row `i` of `a`
/// and column `j` of `b`, over unbounded integers.
pub open spec fn dot(a: MatrixModel, b: MatrixModel, i: int, j: int, k: nat) -> int
    decreases k,
{
    if k == 0 {
        0
    } else {
        dot(a, b, i, j, (k - 1) as nat) + a.entry(i, k - 1) * b.entry(k - 1, j)
    }
}

/// `r` is the product of `a` by `b`: the shape is `a.rows × b.cols` and
/// every element is the wrapped true inner product over the full
/// contraction dimension `a.cols`.
pub open spec fn is_product(r: MatrixModel, a: MatrixModel, b: MatrixModel) -> bool {
    &&& r.wf()
    &&& r.rows == a.rows
    &&& r.cols == b.cols
    &&& forall|i: int, j: int|
        0 <= i < r.rows && 0 <= j < r.cols ==> #[trigger] r.entry(i, j) == wrap_i64(
            dot(a, b, i, j, a.cols),
        )
}

/// Dot products only read the row and column they are formed from:
/// matrices that agree there have equal dot products.
pub proof fn lemma_dot_eq(
    a: MatrixModel,
    b: MatrixModel,
    a2: MatrixModel,
    b2: MatrixModel,
    i: int,
    j: int,
    i2: int,
    j2: int,
    k: nat,
)
    requires
        forall|t: int| 0 <= t < k ==> #[trigger] a.entry(i, t) == a2.entry(i2, t),
        forall|t: int| 0 <= t < k ==> #[trigger] b.entry(t, j) == b2.entry(t, j2),
    ensures
        dot(a, b, i, j, k) == dot(a2, b2, i2, j2, k),
    decreases k,
{
    if k > 0 {
        lemma_dot_eq(a, b, a2, b2, i, j, i2, j2, (k - 1) as nat);
    }
}

/// Splits a dot product over `h + m` terms into the first `h` terms and
/// a dot product over matrices holding the remaining `m` terms shifted
/// to the origin.
pub proof fn lemma_dot_split_shift(
    a: MatrixModel,
    b: MatrixModel,
    p: MatrixModel,
    q: MatrixModel,
    i: int,
    j: int,
    ip: int,
    jq: int,
    h: nat,
    m: nat,
)
    requires
        forall|t: int| 0 <= t < m ==> #[trigger] p.entry(ip, t) == a.entry(i, t + h),
        forall|t: int| 0 <= t < m ==> #[trigger] q.entry(t, jq) == b.entry(t + h, j),
    ensures
        dot(a, b, i, j, (h + m) as nat) == dot(a, b, i, j, h) + dot(p, q, ip, jq, m),
    decreases m,
{
    if m > 0 {
        lemma_dot_split_shift(a, b, p, q, i, j, ip, jq, h, (m - 1) as nat);
    }
}

/// The workhorse of the Strassen proof: a dot product of elementwise
/// signed combinations expands, up to congruence, into the signed
/// combination of the four plain dot products.
///
/// `p`'s row `i` is congruent to `x1 + sx * x2` elementwise, and `q`'s
/// column `j` to `y1 + sy * y2`; a plain operand is expressed by passing
/// the same matrix twice with coefficient zero.
pub proof fn lemma_dot_comb(
    p: MatrixModel,
    q: MatrixModel,
    x1: MatrixModel,
    x2: MatrixModel,
    sx: int,
    y1: MatrixModel,
    y2: MatrixModel,
    sy: int,
    i: int,
    j: int,
    k: nat,
)
    requires
        forall|t: int|
            0 <= t < k ==> congruent(
                #[trigger] p.entry(i, t),
                x1.entry(i, t) + sx * x2.entry(i, t),
            ),
        forall|t: int|
            0 <= t < k ==> congruent(
                #[trigger] q.entry(t, j),
                y1.entry(t, j) + sy * y2.entry(t, j),
            ),
    ensures
        congruent(
            dot(p, q, i, j, k),
            dot(x1, y1, i, j, k) + sy * dot(x1, y2, i, j, k) + sx * dot(x2, y1, i, j, k) + sx * sy
                * dot(x2, y2, i, j, k),
        ),
    decreases k,
{
    if k == 0 {
        assert(sy * 0 == 0 && sx * 0 == 0 && sx * sy * 0 == 0) by (nonlinear_arith);
    } else {
        let km = (k - 1) as nat;
        lemma_dot_comb(p, q, x1, x2, sx, y1, y2, sy, i, j, km);
        let u1 = x1.entry(i, k - 1);
        let u2 = x2.entry(i, k - 1);
        let v1 = y1.entry(k - 1, j);
        let v2 = y2.entry(k - 1, j);
        lemma_congruent_mul(p.entry(i, k - 1), q.entry(k - 1, j), u1 + sx * u2, v1 + sy * v2);
        lemma_congruent_add(
            dot(p, q, i, j, km),
            p.entry(i, k - 1) * q.entry(k - 1, j),
            dot(x1, y1, i, j, km) + sy * dot(x1, y2, i, j, km) + sx * dot(x2, y1, i, j, km) + sx
                * sy * dot(x2, y2, i, j, km),
            (u1 + sx * u2) * (v1 + sy * v2),
        );
        assert((u1 + sx * u2) * (v1 + sy * v2) == u1 * v1 + u1 * (sy * v2) + (sx * u2) * v1 + (sx
            * u2) * (sy * v2)) by (nonlinear_arith);
        assert(u1 * (sy * v2) == sy * (u1 * v2)) by (nonlinear_arith);
        assert((sx * u2) * v1 == sx * (u2 * v1)) by (nonlinear_arith);
        assert((sx * u2) * (sy * v2) == sx * sy * (u2 * v2)) by (nonlinear_arith);
        let d1 = dot(x1, y1, i, j, km);
        let d2 = dot(x1, y2, i, j, km);
        let d3 = dot(x2, y1, i, j, km);
        let d4 = dot(x2, y2, i, j, km);
        assert(sy * (d2 + u1 * v2) == sy * d2 + sy * (u1 * v2)) by (nonlinear_arith);
        assert(sx * (d3 + u2 * v1) == sx * d3 + sx * (u2 * v1)) by (nonlinear_arith);
        assert(sx * sy * (d4 + u2 * v2) == sx * sy * d4 + sx * sy * (u2 * v2))
            by (nonlinear_arith);
    }
}

/// The product relation is functional: two products of the same
/// operands are the same matrix.
pub proof fn lemma_product_unique(r1: MatrixModel, r2: MatrixModel, a: MatrixModel, b: MatrixModel)
    requires
        is_product(r1, a, b),
        is_product(r2, a, b),
    ensures
        r1 == r2,
{
    assert forall|k: int| 0 <= k < r1.elems.len() implies r1.elems[k] == r2.elems[k] by {
        let cols = r1.cols as int;
        let rows = r1.rows as int;
        assert(cols > 0) by {
            if cols <= 0 {
                assert(rows * cols <= 0) by (nonlinear_arith)
                    requires
                        rows >= 0,
                        cols <= 0,
                ;
            }
        }
        let i = k / cols;
        let j = k % cols;
        lemma_fundamental_div_mod(k, cols);
        lemma_mod_bound(k, cols);
        lemma_multiply_divide_lt(k, cols, rows);
        assert(cols * rows == rows * cols && cols * i == i * cols) by (nonlinear_arith);
        assert(i * cols + j == k);
        assert(r1.entry(i, j) == r2.entry(i, j));
    }
    assert(r1.elems =~= r2.elems);
}

} // verus!
