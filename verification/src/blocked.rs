//! The cache-blocked multiplication strategy.
//!
//! The output and the contraction dimension are walked in square tiles
//! of `block_size`; tile boundaries are clamped to the matrix extents,
//! so shapes that are not multiples of the block size are handled
//! exactly.  Partial sums accumulate directly into the zero-initialised
//! result, each `(ii, jj, kk)` tile adding one contraction slice to its
//! output tile; only the traversal order differs from the baseline, not
//! the result.

use vstd::prelude::*;

verus! {

use crate::arith::{
    congruent,
    lemma_congruent_add,
    lemma_congruent_wrap,
    lemma_wrap_congruent,
    wadd,
    wmul,
    wrap_i64,
};
use crate::matrix::{
    lemma_entry_index,
    lemma_entry_index_injective,
    MatError,
    Matrix,
    MatrixModel,
};
use crate::product::{dot, is_product};

/// `min(x + step, lim)`, computed without overflow.
pub(crate) fn clamp_add(x: usize, step: usize, lim: usize) -> (r: usize)
    requires
        x <= lim,
    ensures
        r == if x + step <= lim {
            x + step
        } else {
            lim as int
        },
        x <= r <= lim,
{
    if lim - x <= step {
        lim
    } else {
        x + step
    }
}

/// How far the contraction of cell `(i, j)` has progressed while the
/// tile walk stands at row band `ii..i_end`, column tile `jj..j_end`,
/// contraction offset `kk`: finished cells carry the full `kd`,
/// untouched cells `0`, and the cells of the active tile `kk`.
pub(crate) open spec fn tile_progress(
    i: int,
    j: int,
    ii: int,
    i_end: int,
    jj: int,
    j_end: int,
    kk: nat,
    kd: nat,
) -> nat {
    if i < ii {
        kd
    } else if i_end <= i {
        0
    } else if j < jj {
        kd
    } else if j_end <= j {
        0
    } else {
        kk
    }
}

/// Adds the contraction slice `kk..k_end` of the product to the output
/// tile `ii..i_end × jj..j_end`, reading each prior partial value and
/// leaving every other cell unchanged.
fn accumulate_tile(
    res: &mut Matrix,
    a: &Matrix,
    b: &Matrix,
    ii: usize,
    i_end: usize,
    jj: usize,
    j_end: usize,
    kk: usize,
    k_end: usize,
)
    requires
        a.wf(),
        b.wf(),
        old(res).wf(),
        a@.cols == b@.rows,
        old(res)@.rows == a@.rows,
        old(res)@.cols == b@.cols,
        ii <= i_end <= a@.rows,
        jj <= j_end <= b@.cols,
        kk <= k_end <= a@.cols,
    ensures
        final(res).wf(),
        final(res)@.rows == old(res)@.rows,
        final(res)@.cols == old(res)@.cols,
        forall|i: int, j: int|
            0 <= i < old(res)@.rows && 0 <= j < old(res)@.cols ==> #[trigger] final(res)@.entry(
                i,
                j,
            ) == if ii <= i < i_end && jj <= j < j_end {
                wrap_i64(
                    old(res)@.entry(i, j) + dot(a@, b@, i, j, k_end as nat) - dot(
                        a@,
                        b@,
                        i,
                        j,
                        kk as nat,
                    ),
                )
            } else {
                old(res)@.entry(i, j)
            },
{
    let ghost snap = old(res)@;
    let ghost m = snap.rows as int;
    let ghost n = snap.cols as int;
    let mut i = ii;
    while i < i_end
        invariant
            a.wf(),
            b.wf(),
            res.wf(),
            a@.cols == b@.rows,
            res@.rows == snap.rows,
            res@.cols == snap.cols,
            snap.rows == a@.rows,
            snap.cols == b@.cols,
            snap.wf(),
            m == snap.rows,
            n == snap.cols,
            ii <= i <= i_end <= a@.rows,
            jj <= j_end <= b@.cols,
            kk <= k_end <= a@.cols,
            forall|i2: int, j2: int|
                0 <= i2 < m && 0 <= j2 < n ==> #[trigger] res@.entry(i2, j2) == if ii <= i2 < i
                    && jj <= j2 < j_end {
                    wrap_i64(
                        snap.entry(i2, j2) + dot(a@, b@, i2, j2, k_end as nat) - dot(
                            a@,
                            b@,
                            i2,
                            j2,
                            kk as nat,
                        ),
                    )
                } else {
                    snap.entry(i2, j2)
                },
        decreases i_end - i,
    {
        let mut j = jj;
        while j < j_end
            invariant
                a.wf(),
                b.wf(),
                res.wf(),
                a@.cols == b@.rows,
                res@.rows == snap.rows,
                res@.cols == snap.cols,
                snap.rows == a@.rows,
                snap.cols == b@.cols,
                snap.wf(),
                m == snap.rows,
                n == snap.cols,
                ii <= i < i_end <= a@.rows,
                jj <= j <= j_end <= b@.cols,
                kk <= k_end <= a@.cols,
                forall|i2: int, j2: int|
                    0 <= i2 < m && 0 <= j2 < n ==> #[trigger] res@.entry(i2, j2) == if (ii <= i2
                        < i && jj <= j2 < j_end) || (i2 == i && jj <= j2 < j) {
                        wrap_i64(
                            snap.entry(i2, j2) + dot(a@, b@, i2, j2, k_end as nat) - dot(
                                a@,
                                b@,
                                i2,
                                j2,
                                kk as nat,
                            ),
                        )
                    } else {
                        snap.entry(i2, j2)
                    },
            decreases j_end - j,
        {
            let mut sum = res.get(i, j);
            let ghost base = snap.entry(i as int, j as int);
            let mut k = kk;
            while k < k_end
                invariant
                    a.wf(),
                    b.wf(),
                    a@.cols == b@.rows,
                    i < a@.rows,
                    j < b@.cols,
                    kk <= k <= k_end <= a@.cols,
                    congruent(
                        sum as int,
                        base + dot(a@, b@, i as int, j as int, k as nat) - dot(
                            a@,
                            b@,
                            i as int,
                            j as int,
                            kk as nat,
                        ),
                    ),
                decreases k_end - k,
            {
                let ae = a.get(i, k);
                let be = b.get(k, j);
                let p = wmul(ae, be);
                let next = wadd(sum, p);
                proof {
                    let ghost dk = dot(a@, b@, i as int, j as int, k as nat);
                    let ghost d0 = dot(a@, b@, i as int, j as int, kk as nat);
                    lemma_wrap_congruent(ae as int * be as int);
                    lemma_congruent_add(sum as int, p as int, base + dk - d0, ae as int * be as int);
                    lemma_wrap_congruent(sum as int + p as int);
                }
                sum = next;
                k += 1;
            }
            proof {
                lemma_congruent_wrap(
                    sum as int,
                    base + dot(a@, b@, i as int, j as int, k_end as nat) - dot(
                        a@,
                        b@,
                        i as int,
                        j as int,
                        kk as nat,
                    ),
                );
            }
            let ghost before = res@;
            res.set(i, j, sum);
            proof {
                assert forall|i2: int, j2: int| 0 <= i2 < m && 0 <= j2 < n implies #[trigger] res@
                    .entry(i2, j2) == if (ii <= i2 < i && jj <= j2 < j_end) || (i2 == i && jj <= j2
                    < j + 1) {
                    wrap_i64(
                        snap.entry(i2, j2) + dot(a@, b@, i2, j2, k_end as nat) - dot(
                            a@,
                            b@,
                            i2,
                            j2,
                            kk as nat,
                        ),
                    )
                } else {
                    snap.entry(i2, j2)
                } by {
                    lemma_entry_index(m, n, i2, j2);
                    lemma_entry_index(m, n, i as int, j as int);
                    if i2 * n + j2 == i as int * n + j {
                        lemma_entry_index_injective(n, i2, j2, i as int, j as int);
                    } else {
                        assert(res@.entry(i2, j2) == before.entry(i2, j2));
                    }
                }
            }
            j += 1;
        }
        i += 1;
    }
}

/// The number of output rows in the row band of width `bs` starting at
/// row `ii`: a full band, clamped at the bottom edge of the matrix.
pub open spec fn band_rows(a: MatrixModel, bs: int, ii: int) -> int {
    if ii + bs <= a.rows {
        bs
    } else {
        a.rows - ii
    }
}

/// `band` holds rows `ii .. ii + band_rows` of the product of `a` by
/// `b`, flattened row-major.
pub open spec fn band_ok(
    a: MatrixModel,
    b: MatrixModel,
    bs: int,
    ii: int,
    band: Seq<i64>,
) -> bool {
    &&& band.len() == band_rows(a, bs, ii) * b.cols
    &&& forall|r: int, j: int|
        0 <= r < band_rows(a, bs, ii) && 0 <= j < b.cols ==> #[trigger] band[r * b.cols + j] as int
            == wrap_i64(dot(a, b, ii + r, j, a.cols))
}

/// Computes one row band of the product for the parallel blocked
/// strategy: for each column tile, a worker-local scratch buffer
/// accumulates every contraction tile, and only the finished tile is
/// written into the band, which the worker owns exclusively.
pub(crate) fn compute_band(a: &Matrix, b: &Matrix, block_size: usize, ii: usize) -> (band: Vec<
    i64,
>)
    requires
        a.wf(),
        b.wf(),
        a@.cols == b@.rows,
        a@.rows * b@.cols <= usize::MAX,
        block_size >= 1,
        ii < a@.rows,
    ensures
        band_ok(a@, b@, block_size as int, ii as int, band@),
{
    let m = a.rows;
    let n = b.cols;
    let kd = a.cols;
    let i_end = clamp_add(ii, block_size, m);
    let rows_here = i_end - ii;
    proof {
        assert(rows_here == band_rows(a@, block_size as int, ii as int));
        assert(rows_here * n <= m * n) by (nonlinear_arith)
            requires
                0 <= rows_here <= m,
                n >= 0,
        ;
    }
    let mut band = Matrix::construct(rows_here, n).data;
    let mut jj: usize = 0;
    while jj < n
        invariant
            a.wf(),
            b.wf(),
            a@.cols == b@.rows,
            m == a@.rows,
            n == b@.cols,
            kd == a@.cols,
            block_size >= 1,
            ii < m,
            ii <= i_end <= m,
            rows_here == i_end - ii,
            rows_here == band_rows(a@, block_size as int, ii as int),
            jj <= n,
            rows_here * n <= usize::MAX,
            band@.len() == rows_here * n,
            forall|r: int, j: int|
                0 <= r < rows_here && 0 <= j < jj ==> #[trigger] band@[r * n + j] as int
                    == wrap_i64(dot(a@, b@, ii + r, j, kd as nat)),
        decreases n - jj,
    {
        let j_end = clamp_add(jj, block_size, n);
        let tc = j_end - jj;
        proof {
            assert(rows_here * tc <= rows_here * n) by (nonlinear_arith)
                requires
                    rows_here >= 0,
                    0 <= tc <= n,
            ;
        }
        let mut scratch = Matrix::construct(rows_here, tc);
        proof {
            assert forall|di: int, dj: int| 0 <= di < rows_here && 0 <= dj < tc implies congruent(
                #[trigger] scratch@.entry(di, dj),
                dot(a@, b@, ii + di, jj + dj, 0),
            ) by {
                lemma_entry_index(rows_here as int, tc as int, di, dj);
            }
        }
        let mut kk: usize = 0;
        while kk < kd
            invariant
                block_size >= 1,
                a.wf(),
                b.wf(),
                scratch.wf(),
                a@.cols == b@.rows,
                m == a@.rows,
                n == b@.cols,
                kd == a@.cols,
                scratch@.rows == rows_here,
                scratch@.cols == tc,
                ii < m,
                ii <= i_end <= m,
                rows_here == i_end - ii,
                jj < n,
                jj <= j_end <= n,
                tc == j_end - jj,
                kk <= kd,
                forall|di: int, dj: int|
                    0 <= di < rows_here && 0 <= dj < tc ==> congruent(
                        #[trigger] scratch@.entry(di, dj),
                        dot(a@, b@, ii + di, jj + dj, kk as nat),
                    ),
            decreases kd - kk,
        {
            let k_end = clamp_add(kk, block_size, kd);
            let mut di: usize = 0;
            while di < rows_here
                invariant
                    a.wf(),
                    b.wf(),
                    scratch.wf(),
                    a@.cols == b@.rows,
                    m == a@.rows,
                    n == b@.cols,
                    kd == a@.cols,
                    scratch@.rows == rows_here,
                    scratch@.cols == tc,
                    ii < m,
                    ii <= i_end <= m,
                    rows_here == i_end - ii,
                    jj < n,
                    jj <= j_end <= n,
                    tc == j_end - jj,
                    kk < kd,
                    kk <= k_end <= kd,
                    di <= rows_here,
                    forall|d2: int, dj: int|
                        0 <= d2 < rows_here && 0 <= dj < tc ==> congruent(
                            #[trigger] scratch@.entry(d2, dj),
                            dot(
                                a@,
                                b@,
                                ii + d2,
                                jj + dj,
                                if d2 < di {
                                    k_end as nat
                                } else {
                                    kk as nat
                                },
                            ),
                        ),
                decreases rows_here - di,
            {
                let mut dj: usize = 0;
                while dj < tc
                    invariant
                        a.wf(),
                        b.wf(),
                        scratch.wf(),
                        a@.cols == b@.rows,
                        m == a@.rows,
                        n == b@.cols,
                        kd == a@.cols,
                        scratch@.rows == rows_here,
                        scratch@.cols == tc,
                        ii < m,
                        ii <= i_end <= m,
                        rows_here == i_end - ii,
                        jj < n,
                        jj <= j_end <= n,
                        tc == j_end - jj,
                        kk < kd,
                        kk <= k_end <= kd,
                        di < rows_here,
                        dj <= tc,
                        forall|d2: int, e2: int|
                            0 <= d2 < rows_here && 0 <= e2 < tc ==> congruent(
                                #[trigger] scratch@.entry(d2, e2),
                                dot(
                                    a@,
                                    b@,
                                    ii + d2,
                                    jj + e2,
                                    if d2 < di || (d2 == di && e2 < dj) {
                                        k_end as nat
                                    } else {
                                        kk as nat
                                    },
                                ),
                            ),
                    decreases tc - dj,
                {
                    let mut sum = scratch.get(di, dj);
                    let ghost gi = ii + di as int;
                    let ghost gj = jj + dj as int;
                    let mut k = kk;
                    while k < k_end
                        invariant
                            a.wf(),
                            b.wf(),
                            a@.cols == b@.rows,
                            m == a@.rows,
                            kd == a@.cols,
                            0 <= gi < m,
                            0 <= gj < b@.cols,
                            gi == ii + di,
                            gj == jj + dj,
                            kk <= k <= k_end <= kd,
                            congruent(sum as int, dot(a@, b@, gi, gj, k as nat)),
                        decreases k_end - k,
                    {
                        let ae = a.get(ii + di, k);
                        let be = b.get(k, jj + dj);
                        let p = wmul(ae, be);
                        let next = wadd(sum, p);
                        proof {
                            lemma_wrap_congruent(ae as int * be as int);
                            lemma_congruent_add(
                                sum as int,
                                p as int,
                                dot(a@, b@, gi, gj, k as nat),
                                ae as int * be as int,
                            );
                            lemma_wrap_congruent(sum as int + p as int);
                        }
                        sum = next;
                        k += 1;
                    }
                    let ghost before = scratch@;
                    scratch.set(di, dj, sum);
                    proof {
                        lemma_wrap_congruent(sum as int);
                        assert forall|d2: int, e2: int| 0 <= d2 < rows_here && 0 <= e2
                            < tc implies congruent(
                            #[trigger] scratch@.entry(d2, e2),
                            dot(
                                a@,
                                b@,
                                ii + d2,
                                jj + e2,
                                if d2 < di || (d2 == di && e2 < dj + 1) {
                                    k_end as nat
                                } else {
                                    kk as nat
                                },
                            ),
                        ) by {
                            lemma_entry_index(rows_here as int, tc as int, d2, e2);
                            lemma_entry_index(rows_here as int, tc as int, di as int, dj as int);
                            if d2 * tc + e2 == di as int * tc + dj {
                                lemma_entry_index_injective(
                                    tc as int,
                                    d2,
                                    e2,
                                    di as int,
                                    dj as int,
                                );
                            } else {
                                assert(scratch@.entry(d2, e2) == before.entry(d2, e2));
                            }
                        }
                    }
                    dj += 1;
                }
                di += 1;
            }
            kk = k_end;
        }
        // The finished tile is written back into the exclusively owned
        // band.
        let mut di: usize = 0;
        while di < rows_here
            invariant
                scratch.wf(),
                a@.cols == b@.rows,
                m == a@.rows,
                n == b@.cols,
                kd == a@.cols,
                scratch@.rows == rows_here,
                scratch@.cols == tc,
                ii < m,
                rows_here == i_end - ii,
                ii <= i_end <= m,
                jj < n,
                jj <= j_end <= n,
                tc == j_end - jj,
                di <= rows_here,
                band@.len() == rows_here * n,
                forall|d2: int, dj: int|
                    0 <= d2 < rows_here && 0 <= dj < tc ==> congruent(
                        #[trigger] scratch@.entry(d2, dj),
                        dot(a@, b@, ii + d2, jj + dj, kd as nat),
                    ),
                forall|r: int, j: int|
                    0 <= r < rows_here && 0 <= j < n && (j < jj || (r < di && j < j_end))
                        ==> #[trigger] band@[r * n + j] as int == wrap_i64(
                        dot(a@, b@, ii + r, j, kd as nat),
                    ),
            decreases rows_here - di,
        {
            let mut dj: usize = 0;
            while dj < tc
                invariant
                    scratch.wf(),
                    a@.cols == b@.rows,
                    m == a@.rows,
                    n == b@.cols,
                    kd == a@.cols,
                    scratch@.rows == rows_here,
                    scratch@.cols == tc,
                    ii < m,
                    rows_here == i_end - ii,
                    ii <= i_end <= m,
                    jj < n,
                    jj <= j_end <= n,
                    tc == j_end - jj,
                    di < rows_here,
                    dj <= tc,
                    band@.len() == rows_here * n,
                    forall|d2: int, e2: int|
                        0 <= d2 < rows_here && 0 <= e2 < tc ==> congruent(
                            #[trigger] scratch@.entry(d2, e2),
                            dot(a@, b@, ii + d2, jj + e2, kd as nat),
                        ),
                    forall|r: int, j: int|
                        0 <= r < rows_here && 0 <= j < n && (j < jj || (r < di && j < j_end) || (r
                            == di && j < jj + dj)) ==> #[trigger] band@[r * n + j] as int
                            == wrap_i64(dot(a@, b@, ii + r, j, kd as nat)),
                decreases tc - dj,
            {
                let v = scratch.get(di, dj);
                let blen = band.len();
                proof {
                    lemma_entry_index(rows_here as int, n as int, di as int, jj + dj as int);
                    assert(di as int * n + (jj + dj) < blen);
                }
                let idx = di * n + (jj + dj);
                let ghost before = band@;
                band.set(idx, v);
                proof {
                    lemma_congruent_wrap(v as int, dot(a@, b@, ii + di as int, jj + dj, kd as nat));
                    assert forall|r: int, j: int| 0 <= r < rows_here && 0 <= j < n && (j < jj || (r
                        < di && j < j_end) || (r == di && j < jj + dj + 1)) implies #[trigger] band@[
                        r * n + j
                    ] as int == wrap_i64(dot(a@, b@, ii + r, j, kd as nat)) by {
                        lemma_entry_index(rows_here as int, n as int, r, j);
                        lemma_entry_index(rows_here as int, n as int, di as int, jj + dj as int);
                        if r * n + j == di as int * n + (jj + dj) {
                            lemma_entry_index_injective(n as int, r, j, di as int, jj + dj);
                        } else {
                            assert(band@[r * n + j] == before[r * n + j]);
                        }
                    }
                }
                dj += 1;
            }
            di += 1;
        }
        jj = j_end;
    }
    band
}

/// Cache-blocked multiplication, parameterised by the tile edge length
/// `block_size`.
///
/// Returns the product when the shapes are compatible and the block
/// size is positive; `DimensionMismatch` exactly when the shapes are
/// incompatible, and `InvalidParameter` exactly when the shapes are
/// compatible but the block size is zero.
pub fn multiply_blocked(a: &Matrix, b: &Matrix, block_size: usize) -> (r: Result<
    Matrix,
    MatError,
>)
    requires
        a.wf(),
        b.wf(),
        a@.rows * b@.cols <= usize::MAX,
    ensures
        match r {
            Ok(m) => a@.cols == b@.rows && block_size >= 1 && m.wf() && is_product(m@, a@, b@),
            Err(e) => if a@.cols != b@.rows {
                e == MatError::DimensionMismatch
            } else {
                block_size == 0 && e == MatError::InvalidParameter
            },
        },
{
    if a.cols != b.rows {
        return Err(MatError::DimensionMismatch);
    }
    if block_size == 0 {
        return Err(MatError::InvalidParameter);
    }
    let m = a.rows;
    let n = b.cols;
    let kd = a.cols;
    let mut res = Matrix::construct(m, n);
    proof {
        assert forall|i: int, j: int| 0 <= i < m && 0 <= j < n implies congruent(
            #[trigger] res@.entry(i, j),
            dot(a@, b@, i, j, tile_progress(i, j, 0, 0, 0, 0, 0, kd as nat)),
        ) by {
            lemma_entry_index(m as int, n as int, i, j);
        }
    }
    let mut ii: usize = 0;
    while ii < m
        invariant
            a.wf(),
            b.wf(),
            res.wf(),
            a@.cols == b@.rows,
            res@.rows == m,
            res@.cols == n,
            m == a@.rows,
            n == b@.cols,
            kd == a@.cols,
            block_size >= 1,
            ii <= m,
            forall|i: int, j: int|
                0 <= i < m && 0 <= j < n ==> congruent(
                    #[trigger] res@.entry(i, j),
                    dot(a@, b@, i, j, tile_progress(i, j, ii as int, ii as int, 0, 0, 0, kd as nat)),
                ),
        decreases m - ii,
    {
        let i_end = clamp_add(ii, block_size, m);
        let mut jj: usize = 0;
        while jj < n
            invariant
                a.wf(),
                b.wf(),
                res.wf(),
                a@.cols == b@.rows,
                res@.rows == m,
                res@.cols == n,
                m == a@.rows,
                n == b@.cols,
                kd == a@.cols,
                block_size >= 1,
                ii < m,
                ii <= i_end <= m,
                jj <= n,
                forall|i: int, j: int|
                    0 <= i < m && 0 <= j < n ==> congruent(
                        #[trigger] res@.entry(i, j),
                        dot(
                            a@,
                            b@,
                            i,
                            j,
                            tile_progress(
                                i,
                                j,
                                ii as int,
                                i_end as int,
                                jj as int,
                                jj as int,
                                0,
                                kd as nat,
                            ),
                        ),
                    ),
            decreases n - jj,
        {
            let j_end = clamp_add(jj, block_size, n);
            let mut kk: usize = 0;
            while kk < kd
                invariant
                    a.wf(),
                    b.wf(),
                    res.wf(),
                    a@.cols == b@.rows,
                    res@.rows == m,
                    res@.cols == n,
                    m == a@.rows,
                    n == b@.cols,
                    kd == a@.cols,
                    block_size >= 1,
                    ii < m,
                    ii <= i_end <= m,
                    jj < n,
                    jj <= j_end <= n,
                    kk <= kd,
                    forall|i: int, j: int|
                        0 <= i < m && 0 <= j < n ==> congruent(
                            #[trigger] res@.entry(i, j),
                            dot(
                                a@,
                                b@,
                                i,
                                j,
                                tile_progress(
                                    i,
                                    j,
                                    ii as int,
                                    i_end as int,
                                    jj as int,
                                    j_end as int,
                                    kk as nat,
                                    kd as nat,
                                ),
                            ),
                        ),
                decreases kd - kk,
            {
                let k_end = clamp_add(kk, block_size, kd);
                let ghost before = res@;
                accumulate_tile(&mut res, a, b, ii, i_end, jj, j_end, kk, k_end);
                proof {
                    assert forall|i: int, j: int| 0 <= i < m && 0 <= j < n implies congruent(
                        #[trigger] res@.entry(i, j),
                        dot(
                            a@,
                            b@,
                            i,
                            j,
                            tile_progress(
                                i,
                                j,
                                ii as int,
                                i_end as int,
                                jj as int,
                                j_end as int,
                                k_end as nat,
                                kd as nat,
                            ),
                        ),
                    ) by {
                        if ii <= i < i_end && jj <= j < j_end {
                            let d0 = dot(a@, b@, i, j, kk as nat);
                            let d1 = dot(a@, b@, i, j, k_end as nat);
                            lemma_wrap_congruent(before.entry(i, j) + d1 - d0);
                            lemma_congruent_add(before.entry(i, j), d1 - d0, d0, d1 - d0);
                        }
                    }
                }
                kk = k_end;
            }
            jj = j_end;
        }
        ii = i_end;
    }
    proof {
        assert forall|i: int, j: int| 0 <= i < res@.rows && 0 <= j < res@.cols implies #[trigger] res@
            .entry(i, j) == wrap_i64(dot(a@, b@, i, j, a@.cols)) by {
            lemma_congruent_wrap(res@.entry(i, j), dot(a@, b@, i, j, kd as nat));
        }
    }
    Ok(res)
}

} // verus!
