//! Extracts inventory listings from retail-aggregation markup, normalizes
//! free-text prices, reconciles per-variant results, and orders the final
//! view deterministically.

use vstd::prelude::*;

pub mod price;
pub mod text;
pub mod listing;
pub mod row;
pub mod filter;
pub mod model;
pub mod sort;
pub mod extract;

verus! {

/// A price in whole cents. Raw price text such as "$1,234.56" normalizes
/// to 123456; keeping cents as an integer makes the value exact and the
/// ordering total.
pub type Cents = u64;

} // verus!
