//! Sums of vectors and of matrix columns, accumulated in eight registers of
//! four lanes each.
//!
//! The element type and the operation that combines two elements are the
//! caller's. Nothing is assumed of the operation: each kernel states, for
//! every function that the operation computes, the exact grouping in which
//! it combines the elements, so that its result is reproducible also where
//! the operation is not associative. With double-precision values, `0.0`
//! and their addition, the kernels give what 256-bit registers of four
//! doubles give.
//!
//! - [`horizontal`]: one vector to one value.
//! - [`vertical`]: the rows of a matrix to one row of column sums.
//! - [`lanes`]: registers of four lanes and the operations on them.
//! - [`operator`]: the operation and the functions that describe it.
//! - [`model`]: what each kernel computes, as functions on sequences.
//! - [`steps`]: what one step of a kernel adds, for the kernels' proofs.
//! - [`laws`]: when the grouping does not matter, and the edge cases.
//! - [`propagation`]: how a value that is no number reaches the result.
pub mod horizontal;
pub mod lanes;
pub mod laws;
pub mod model;
pub mod operator;
pub mod propagation;
pub mod steps;
pub mod vertical;

pub use horizontal::{f64_xany_avx2_nofma_sum_horizontal, f64_xconst_avx2_nofma_sum_horizontal};
pub use vertical::{f64_xany_avx2_nofma_sum_vertical, f64_xconst_avx2_nofma_sum_vertical};
