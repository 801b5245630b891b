//! Dense row-major matrices of `i64` elements.
//!
//! A matrix owns a flat buffer of `rows * cols` elements; the element at
//! row `r` and column `c` lives at offset `r * cols + c`.  The elements
//! are integers standing for fixed-point real values; all element
//! arithmetic in this crate wraps, so the multiplication strategies are
//! total and agree exactly with one another.

use vstd::prelude::*;

verus! {

use vstd::wrapping::u64_specs;

/// The error kinds of the engine.
///
/// `DimensionMismatch`: the operand shapes are incompatible for the
/// requested multiplication.  `InvalidParameter`: a size, block size or
/// iteration count at the benchmark boundary is out of range.
#[derive(Clone, Copy, Debug, PartialEq, Eq, Structural)]
pub enum MatError {
    DimensionMismatch,
    InvalidParameter,
}

/// The mathematical model of a matrix: a shape and the flat element
/// sequence of length `rows * cols`.
pub ghost struct MatrixModel {
    pub rows: nat,
    pub cols: nat,
    pub elems: Seq<i64>,
}

impl MatrixModel {
    /// The element sequence has exactly one element per matrix cell.
    pub open spec fn wf(self) -> bool {
        self.elems.len() == self.rows * self.cols
    }

    /// The element at row `r`, column `c`, as an unbounded integer.
    pub open spec fn entry(self, r: int, c: int) -> int {
        self.elems[r * self.cols + c] as int
    }

    /// `r` and `c` address a cell of the matrix.
    pub open spec fn valid_rc(self, r: int, c: int) -> bool {
        0 <= r < self.rows && 0 <= c < self.cols
    }
}

/// A dense row-major matrix.
#[derive(Debug)]
pub struct Matrix {
    pub rows: usize,
    pub cols: usize,
    pub data: Vec<i64>,
}

impl View for Matrix {
    type V = MatrixModel;

    open spec fn view(&self) -> MatrixModel {
        MatrixModel { rows: self.rows as nat, cols: self.cols as nat, elems: self.data@ }
    }
}

/// A flat offset computed from an in-range row and column addresses a
/// cell of the flat buffer.
pub proof fn lemma_entry_index(rows: int, cols: int, r: int, c: int)
    by (nonlinear_arith)
    requires
        0 <= r < rows,
        0 <= c < cols,
    ensures
        0 <= r * cols + c < rows * cols,
        r * cols + c == c + cols * r,
{
}

/// Distinct cells have distinct flat offsets.
pub proof fn lemma_entry_index_injective(cols: int, r1: int, c1: int, r2: int, c2: int)
    by (nonlinear_arith)
    requires
        0 <= c1 < cols,
        0 <= c2 < cols,
        0 <= r1,
        0 <= r2,
        r1 * cols + c1 == r2 * cols + c2,
    ensures
        r1 == r2 && c1 == c2,
{
}

impl Matrix {
    /// The in-memory matrix matches its model.
    pub open spec fn wf(&self) -> bool {
        self@.wf()
    }

    /// A zero-filled matrix of the given shape.
    pub fn construct(rows: usize, cols: usize) -> (m: Matrix)
        requires
            rows * cols <= usize::MAX,
        ensures
            m.wf(),
            m@.rows == rows,
            m@.cols == cols,
            forall|k: int| 0 <= k < m@.elems.len() ==> m@.elems[k] == 0i64,
    {
        let n = rows * cols;
        let data = vec![0i64; n];
        proof {
            assert forall|k: int| 0 <= k < data@.len() implies data@[k] == 0i64 by {
                assert(vstd::pervasive::cloned(0i64, data@[k]));
            }
        }
        Matrix { rows, cols, data }
    }

    /// The element at `(r, c)`.
    pub fn get(&self, r: usize, c: usize) -> (v: i64)
        requires
            self.wf(),
            r < self@.rows,
            c < self@.cols,
        ensures
            v as int == self@.entry(r as int, c as int),
    {
        let len = self.data.len();
        proof {
            lemma_entry_index(self@.rows as int, self@.cols as int, r as int, c as int);
            assert(r as int * self@.cols + c < len);
        }
        self.data[r * self.cols + c]
    }

    /// Replaces the element at `(r, c)`; every other element is kept.
    pub fn set(&mut self, r: usize, c: usize, v: i64)
        requires
            old(self).wf(),
            r < old(self)@.rows,
            c < old(self)@.cols,
        ensures
            final(self).wf(),
            final(self)@.rows == old(self)@.rows,
            final(self)@.cols == old(self)@.cols,
            final(self)@.elems == old(self)@.elems.update(r * old(self)@.cols + c, v),
    {
        let len = self.data.len();
        proof {
            lemma_entry_index(self@.rows as int, self@.cols as int, r as int, c as int);
            assert(r as int * self@.cols + c < len);
        }
        let idx = r * self.cols + c;
        self.data.set(idx, v);
    }

    /// True iff the shapes match and every pair of corresponding
    /// elements differs by at most `tol`.
    pub fn equals_within_tolerance(&self, other: &Matrix, tol: i64) -> (r: bool)
        requires
            self.wf(),
            other.wf(),
        ensures
            r == within_tolerance(self@, other@, tol as int),
    {
        if self.rows != other.rows || self.cols != other.cols {
            return false;
        }
        let n = self.data.len();
        let mut k: usize = 0;
        while k < n
            invariant
                self.wf(),
                other.wf(),
                self@.rows == other@.rows,
                self@.cols == other@.cols,
                n == self@.elems.len(),
                k <= n,
                forall|j: int| 0 <= j < k ==> -(tol as int) <= #[trigger] self@.elems[j]
                    - other@.elems[j] <= tol as int,
            decreases n - k,
        {
            let d = self.data[k] as i128 - other.data[k] as i128;
            if d > tol as i128 || d < -(tol as i128) {
                return false;
            }
            k += 1;
        }
        true
    }
}

/// The shapes match and every pair of corresponding elements differs by
/// at most `tol`.
pub open spec fn within_tolerance(a: MatrixModel, b: MatrixModel, tol: int) -> bool {
    &&& a.rows == b.rows
    &&& a.cols == b.cols
    &&& forall|k: int| 0 <= k < a.elems.len() ==> -tol <= #[trigger] a.elems[k] - b.elems[k]
        <= tol
}

/// The additive constant of the pseudo-random state sequence.
pub const RNG_GAMMA: u64 = 0x9E3779B97F4A7C15;

/// The finalising bit mix of the pseudo-random generator: a function of
/// its argument alone, so the generated stream depends on the seed alone.
pub open spec fn spec_rng_mix(z: u64) -> u64 {
    let a = u64_specs::wrapping_mul(z ^ (z >> 30u64), 0xBF58476D1CE4E5B9);
    let b = u64_specs::wrapping_mul(a ^ (a >> 27u64), 0x94D049BB133111EB);
    b ^ (b >> 31u64)
}

/// The generator state after `i` steps from `seed`.
pub open spec fn spec_rng_state(seed: u64, i: nat) -> u64
    decreases i,
{
    if i == 0 {
        seed
    } else {
        u64_specs::wrapping_add(spec_rng_state(seed, (i - 1) as nat), RNG_GAMMA)
    }
}

/// Pseudo-random elements are drawn uniformly from
/// `[-RAND_HALF_SPAN, RAND_HALF_SPAN)`, a fixed-point image of `[-1, 1)`.
pub const RAND_HALF_SPAN: u64 = 1000;

/// The `i`-th pseudo-random element for `seed`.
pub open spec fn spec_rand_elem(seed: u64, i: nat) -> i64 {
    (spec_rng_mix(spec_rng_state(seed, i + 1)) as int % (2 * RAND_HALF_SPAN) as int
        - RAND_HALF_SPAN as int) as i64
}

/// The finalising bit mix of the pseudo-random generator.
fn rng_mix(z: u64) -> (r: u64)
    ensures
        r == spec_rng_mix(z),
{
    let a = (z ^ (z >> 30u64)).wrapping_mul(0xBF58476D1CE4E5B9);
    let b = (a ^ (a >> 27u64)).wrapping_mul(0x94D049BB133111EB);
    b ^ (b >> 31u64)
}

impl Matrix {
    /// A matrix of the given shape filled with deterministic
    /// pseudo-random elements: the same `seed` always yields the same
    /// matrix.
    pub fn construct_random(rows: usize, cols: usize, seed: u64) -> (m: Matrix)
        requires
            rows * cols <= usize::MAX,
        ensures
            m.wf(),
            m@.rows == rows,
            m@.cols == cols,
            forall|k: int| 0 <= k < m@.elems.len() ==> m@.elems[k] == spec_rand_elem(
                seed,
                k as nat,
            ),
    {
        let n = rows * cols;
        let mut data: Vec<i64> = Vec::new();
        let mut state = seed;
        let mut i: usize = 0;
        while i < n
            invariant
                i <= n,
                state == spec_rng_state(seed, i as nat),
                data@.len() == i,
                forall|k: int| 0 <= k < i ==> data@[k] == spec_rand_elem(seed, k as nat),
            decreases n - i,
        {
            state = state.wrapping_add(RNG_GAMMA);
            let mixed = rng_mix(state);
            let v = (mixed % (2 * RAND_HALF_SPAN)) as i64 - RAND_HALF_SPAN as i64;
            data.push(v);
            i += 1;
        }
        Matrix { rows, cols, data }
    }
}

/// `n` is a power of two.
pub open spec fn spec_is_pow2(n: nat) -> bool
    decreases n,
{
    if n == 0 {
        false
    } else if n == 1 {
        true
    } else if n % 2 == 1 {
        false
    } else {
        spec_is_pow2(n / 2)
    }
}

/// Decides whether `n` is a power of two.
pub fn is_pow2(n: usize) -> (r: bool)
    ensures
        r == spec_is_pow2(n as nat),
{
    if n == 0 {
        return false;
    }
    let mut m = n;
    while m % 2 == 0
        invariant
            m >= 1,
            spec_is_pow2(n as nat) == spec_is_pow2(m as nat),
        decreases m,
    {
        m = m / 2;
    }
    m == 1
}

} // verus!
