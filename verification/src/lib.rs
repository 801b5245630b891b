//! A dense-matrix multiplication benchmarking engine.
//!
//! The heart of the crate is a family of multiplication strategies over
//! row-major integer matrices: the naive triple loop, a row-parallel
//! variant, a cache-blocked variant, a parallel blocked variant, and the
//! recursive Strassen algorithm.  Every strategy is proved to compute the
//! same mathematical product, so the strategies agree exactly on every
//! pair of compatible inputs.  A small harness module supplies the
//! verified decision logic of the benchmark driver: parameter validation,
//! the geometric size sweep of the scaling analysis, and the rule that
//! admits Strassen into a benchmark run.
//!
//! Beside the engine live a few small verified utilities used by the
//! demonstration driver: an owned event counter, a typed processing
//! pipeline with a simulation entry point, and decimal formatting.

pub mod arith;
pub mod bench;
pub mod blocked;
pub mod counter;
pub mod decimal;
pub mod laws;
pub mod matrix;
pub mod multiply;
pub mod parallel;
pub mod pipeline;
pub mod product;
pub mod strassen;
