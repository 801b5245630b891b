//! The verified decision logic of the benchmark harness.
//!
//! The harness itself — timing strategies, computing GFLOPS and
//! speedups from wall-clock times, printing the report — lives with the
//! caller; this module supplies what can be decided from the inputs
//! alone: validation of the benchmark parameters, the rule that admits
//! Strassen into a run, the operation count of the GFLOPS formula, and
//! the geometric size sequence of the scaling analysis.

use vstd::prelude::*;

verus! {

use crate::matrix::{is_pow2, MatError, spec_is_pow2};

/// The sizes the scaling analysis visits: `start`, `start * factor`,
/// `start * factor^2`, ... while the size stays within `end`.  Empty
/// for parameters outside the valid range.
pub open spec fn spec_sweep_sizes(start: int, end: int, factor: int) -> Seq<int>
    decreases (if start > end {
        0int
    } else {
        end + 1 - start
    }),
    via sweep_sizes_decreases
{
    if start < 1 || factor < 2 || start > end {
        Seq::empty()
    } else {
        seq![start] + spec_sweep_sizes(start * factor, end, factor)
    }
}

#[via_fn]
proof fn sweep_sizes_decreases(start: int, end: int, factor: int) {
    if !(start < 1 || factor < 2 || start > end) {
        assert(start * factor >= 2 * start) by (nonlinear_arith)
            requires
                start >= 1,
                factor >= 2,
        ;
    }
}

/// The sizes of a sweep are strictly increasing and stay within
/// `[start, end]`: each size is visited exactly once, in increasing
/// order.
pub proof fn lemma_sweep_sizes_increasing(start: int, end: int, factor: int)
    ensures
        forall|t: int|
            0 <= t < spec_sweep_sizes(start, end, factor).len() ==> start <= #[trigger]
            spec_sweep_sizes(start, end, factor)[t] <= end,
        forall|t: int|
            0 <= t < spec_sweep_sizes(start, end, factor).len() - 1 ==> #[trigger]
            spec_sweep_sizes(start, end, factor)[t] < spec_sweep_sizes(start, end, factor)[t + 1],
    decreases end - start,
{
    if !(start < 1 || factor < 2 || start > end) {
        assert(start * factor >= 2 * start) by (nonlinear_arith)
            requires
                start >= 1,
                factor >= 2,
        ;
        if start * factor <= end {
            lemma_sweep_sizes_increasing(start * factor, end, factor);
        }
        let s = spec_sweep_sizes(start, end, factor);
        let rest = spec_sweep_sizes(start * factor, end, factor);
        assert(s == seq![start] + rest);
        assert(s[0] == start);
        assert forall|t: int| 1 <= t < s.len() implies s[t] == rest[t - 1] by {
        }
        assert forall|t: int| 0 <= t < s.len() implies start <= #[trigger] s[t] <= end by {
            if t >= 1 {
                assert(s[t] == rest[t - 1]);
            }
        }
        assert forall|t: int| 0 <= t < s.len() - 1 implies #[trigger] s[t] < s[t + 1] by {
            if t == 0 {
                if rest.len() > 0 {
                    assert(rest[0] == start * factor);
                }
            } else {
                assert(s[t] == rest[t - 1] && s[t + 1] == rest[t]);
            }
        }
    }
}

/// Computes the scaling-analysis size sequence.
///
/// Returns the sizes `start, start * factor, ...` up to `end` when
/// `start` is positive, `factor` is at least two, and `start` does not
/// exceed `end`; `InvalidParameter` exactly when one of those bounds is
/// violated.
pub fn sweep_sizes(start: usize, end: usize, factor: usize) -> (r: Result<Vec<usize>, MatError>)
    ensures
        match r {
            Ok(v) => start >= 1 && factor >= 2 && start <= end && v@.map_values(
                |x: usize| x as int,
            ) == spec_sweep_sizes(start as int, end as int, factor as int),
            Err(e) => {
                &&& !(start >= 1 && factor >= 2 && start <= end)
                &&& e == MatError::InvalidParameter
            },
        },
{
    if start < 1 || factor < 2 || start > end {
        return Err(MatError::InvalidParameter);
    }
    let mut v: Vec<usize> = Vec::new();
    let mut cur = start;
    let mut done = false;
    while !done
        invariant
            start >= 1,
            factor >= 2,
            start <= end,
            1 <= cur <= end,
            v@.map_values(|x: usize| x as int) + (if done {
                Seq::<int>::empty()
            } else {
                spec_sweep_sizes(cur as int, end as int, factor as int)
            }) == spec_sweep_sizes(start as int, end as int, factor as int),
        decreases end - cur, (if done {
            0int
        } else {
            1int
        }),
    {
        let ghost prefix = v@.map_values(|x: usize| x as int);
        v.push(cur);
        proof {
            assert(v@.map_values(|x: usize| x as int) =~= prefix + seq![cur as int]);
            assert(prefix + (seq![cur as int] + spec_sweep_sizes(
                cur as int * factor as int,
                end as int,
                factor as int,
            )) =~= (prefix + seq![cur as int]) + spec_sweep_sizes(
                cur as int * factor as int,
                end as int,
                factor as int,
            ));
        }
        match cur.checked_mul(factor) {
            Some(nx) if nx <= end => {
                proof {
                    assert(cur as int * factor as int >= 2 * cur as int) by (nonlinear_arith)
                        requires
                            cur >= 1,
                            factor >= 2,
                    ;
                }
                cur = nx;
            },
            _ => {
                proof {
                    assert(spec_sweep_sizes(cur as int * factor as int, end as int, factor as int)
                        =~= Seq::<int>::empty());
                }
                done = true;
            },
        }
    }
    Ok(v)
}

/// Strassen joins a benchmark run only for sizes of at most `512` that
/// are powers of two.
pub fn strassen_included(size: usize) -> (r: bool)
    ensures
        r == (size <= 512 && spec_is_pow2(size as nat)),
{
    size <= 512 && is_pow2(size)
}

/// Validates the benchmark boundary parameters: matrix size and
/// iteration count must be positive.  Returns `InvalidParameter`
/// exactly when one of them is zero.
pub fn validate_bench_params(size: usize, iterations: usize) -> (r: Result<(), MatError>)
    ensures
        match r {
            Ok(_) => size >= 1 && iterations >= 1,
            Err(e) => {
                &&& !(size >= 1 && iterations >= 1)
                &&& e == MatError::InvalidParameter
            },
        },
{
    if size == 0 || iterations == 0 {
        return Err(MatError::InvalidParameter);
    }
    Ok(())
}

/// The operation count of the GFLOPS formula for one `n × n`
/// multiplication: `2 * n^3`, one multiply and one add per inner
/// product term.  `None` exactly when the count does not fit the
/// return type.
pub fn multiplication_op_count(n: usize) -> (r: Option<u128>)
    ensures
        match r {
            Some(c) => c == 2 * (n as int * n as int * n as int),
            None => 2 * (n as int * n as int * n as int) > u128::MAX,
        },
{
    let w = n as u128;
    match w.checked_mul(w) {
        Some(sq) => match sq.checked_mul(w) {
            Some(cube) => match cube.checked_mul(2) {
                Some(c) => Some(c),
                None => {
                    proof {
                        assert(2 * (n as int * n as int * n as int) > u128::MAX)
                            by (nonlinear_arith)
                            requires
                                cube as int * 2 > u128::MAX,
                                cube as int == sq as int * w as int,
                                sq as int == w as int * w as int,
                                w as int == n as int,
                        ;
                    }
                    None
                },
            },
            None => {
                proof {
                    assert(2 * (n as int * n as int * n as int) > u128::MAX) by (nonlinear_arith)
                        requires
                            sq as int * w as int > u128::MAX,
                            sq as int == w as int * w as int,
                            w as int == n as int,
                            w as int >= 0,
                    ;
                }
                None
            },
        },
        None => {
            proof {
                assert(2 * (n as int * n as int * n as int) > u128::MAX) by (nonlinear_arith)
                    requires
                        w as int * w as int > u128::MAX,
                        w as int == n as int,
                        w as int >= 0,
                ;
            }
            None
        },
    }
}

} // verus!
