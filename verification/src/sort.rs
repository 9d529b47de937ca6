//! Sorting routines: an in-place bubble sort over vectors.

pub mod bubble_sort;

pub use bubble_sort::bubble_sort;
