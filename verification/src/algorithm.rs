//! String matching and sorting.

pub mod bm;
pub mod kmp;
pub mod merge_sort;
pub mod order;
