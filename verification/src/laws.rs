//! The agreement laws of the engine, stated once and proved from the
//! strategies' contracts.
//!
//! Every multiplication strategy ensures the same product relation, so
//! any two strategies — and any two parameterisations of one strategy —
//! return identical matrices on the same operands.  Because the
//! agreement is exact, it holds in particular within every non-negative
//! tolerance.

use vstd::prelude::*;

verus! {

use crate::matrix::{MatrixModel, spec_is_pow2, spec_rand_elem, within_tolerance};
use crate::product::{is_product, lemma_product_unique};

/// All strategies agree on all compatible inputs: results of any two
/// multiplication strategies for the same operands are identical, and
/// hence equal within every non-negative tolerance.
pub proof fn law_strategies_agree(
    a: MatrixModel,
    b: MatrixModel,
    r1: MatrixModel,
    r2: MatrixModel,
    tol: int,
)
    requires
        is_product(r1, a, b),
        is_product(r2, a, b),
        tol >= 0,
    ensures
        r1 == r2,
        within_tolerance(r1, r2, tol),
{
    lemma_product_unique(r1, r2, a, b);
}

/// The blocked strategy is invariant to its block size: its contract
/// does not mention the block size, so runs with any two block sizes —
/// such as 1, 7, 16 and 64 — return identical matrices, whether or not
/// the block size divides the matrix extents.
pub proof fn law_blocked_block_size_invariant(
    a: MatrixModel,
    b: MatrixModel,
    r1: MatrixModel,
    r2: MatrixModel,
)
    requires
        is_product(r1, a, b),
        is_product(r2, a, b),
    ensures
        r1 == r2,
{
    lemma_product_unique(r1, r2, a, b);
}

/// Strassen base-case correctness: at dimensions of at most 64 the
/// Strassen strategy delegates to the baseline, and its result equals
/// the baseline result exactly.
pub proof fn law_strassen_base_case(
    a: MatrixModel,
    b: MatrixModel,
    strassen_result: MatrixModel,
    baseline_result: MatrixModel,
)
    requires
        a.rows <= 64,
        is_product(strassen_result, a, b),
        is_product(baseline_result, a, b),
    ensures
        strassen_result == baseline_result,
{
    lemma_product_unique(strassen_result, baseline_result, a, b);
}

/// Strassen recursive correctness: at power-of-two dimensions the
/// recursive decomposition returns exactly the baseline result.
pub proof fn law_strassen_recursive(
    a: MatrixModel,
    b: MatrixModel,
    strassen_result: MatrixModel,
    baseline_result: MatrixModel,
)
    requires
        spec_is_pow2(a.rows),
        is_product(strassen_result, a, b),
        is_product(baseline_result, a, b),
    ensures
        strassen_result == baseline_result,
{
    lemma_product_unique(strassen_result, baseline_result, a, b);
}

/// Strassen fallback: on square operands whose dimension is not a
/// power of two, Strassen falls back to the baseline and returns its
/// result, not an error.
pub proof fn law_strassen_fallback(
    a: MatrixModel,
    b: MatrixModel,
    strassen_result: MatrixModel,
    baseline_result: MatrixModel,
)
    requires
        a.rows == a.cols,
        !spec_is_pow2(a.rows),
        is_product(strassen_result, a, b),
        is_product(baseline_result, a, b),
    ensures
        strassen_result == baseline_result,
{
    lemma_product_unique(strassen_result, baseline_result, a, b);
}

/// Random construction is deterministic: two matrices generated with
/// one shape and one seed are identical.
pub proof fn law_construct_random_deterministic(
    m1: MatrixModel,
    m2: MatrixModel,
    rows: nat,
    cols: nat,
    seed: u64,
)
    requires
        m1.wf() && m2.wf(),
        m1.rows == rows && m1.cols == cols,
        m2.rows == rows && m2.cols == cols,
        forall|k: int| 0 <= k < m1.elems.len() ==> m1.elems[k] == spec_rand_elem(seed, k as nat),
        forall|k: int| 0 <= k < m2.elems.len() ==> m2.elems[k] == spec_rand_elem(seed, k as nat),
    ensures
        m1 == m2,
{
    assert(m1.elems =~= m2.elems);
}

} // verus!
