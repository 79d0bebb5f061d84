//! A rolling group-by execution operator for columnar tables: group
//! membership comes from sliding windows over a monotonic ordering
//! column, aggregation is either vectorized per-group expressions or an
//! arbitrary per-group callback, and an optional result window slices
//! the grouped output, with cooperative cancellation and optional
//! per-node profiling around the whole call.

pub mod error;
pub mod frame;
pub mod groups;
pub mod expr;
pub mod rolling;
pub mod udf;
pub mod state;
pub mod exec;
pub mod laws;
