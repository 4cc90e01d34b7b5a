//! A singly-linked cons-cell list whose cells hold runtime-tagged values
//! (integers or nested lists of the same kind), together with the classic
//! higher-order list algorithms: map, filter, left and right folds,
//! column-wise accumulation, tree flattening, and matrix algebra over
//! nested lists.

pub mod algo;
pub mod fib;
pub mod laws;
pub mod list;
pub mod matrix;
pub mod ops;
