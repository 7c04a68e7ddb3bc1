//! Sparse-matrix evaluation, workload generation and execution dispatch for
//! multi-scalar multiplication over the Pasta curves.

pub mod curve;
pub mod dense;
pub mod dispatch;
pub mod error;
pub mod field;
pub mod order;
pub mod parallel;
pub mod rng;
pub mod spmvm;
pub mod utils;
