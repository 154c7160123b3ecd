//! Compositions: values kept together with the ordered parts that fold to
//! them under a binary operation, and the operations that build, merge,
//! refine, split and sort them.
//!
//! The operation is any `Fn(T, T) -> T`. The contracts speak of it through
//! what a call may return and when it may be made, so they hold of every
//! operation, and ask of the caller only the calls that are in fact made
//! (`algebra::fold_allowed`). Where the operation computes a mathematical
//! function (`algebra::computes`), they also give each result through that
//! function and `Seq::fold_left`, and `laws` says what associativity,
//! identity and commutativity then give.
//!
//! Of the values, the contracts ask that `clone` and `==` be exact
//! (`algebra::clone_is_exact`, `algebra::eq_is_exact`) and, for sorting, that
//! the order be total (`order::total_order`).
pub mod algebra;
pub mod composition;
pub mod error;
pub mod laws;
pub mod order;
pub mod partition;
pub mod render;
pub mod selection;
pub mod sorting;

pub use crate::algebra::Operation;
pub use crate::composition::{
    check_fold, combine, construct, decompose, num_parts, singleton, split, to_string, Composition,
};
pub use crate::error::CompositionError;
pub use crate::partition::{to_partition, Partition};
