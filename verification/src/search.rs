//! Search routines over slices: a linear scan, a binary search over ordered
//! data, and the square-root jump search known from the two-crystal-balls
//! problem.

pub mod binary_search;
pub mod linear_search;
pub mod two_crystal_balls;

pub use binary_search::binary_search;
pub use linear_search::linear_search;
pub use two_crystal_balls::two_crystal_balls;
