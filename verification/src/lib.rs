//! A small library of verified linear containers — a growable array, a
//! circular ring buffer, and a linked queue/stack pair — together with a few
//! classic search and sort routines on slices and vectors.
//!
//! Every container carries a mathematical view (a sequence of its live
//! elements) and every operation states in its contract how that view
//! changes.

pub mod array;
pub mod laws;
pub mod linked_list;
pub mod recursion;
pub mod search;
pub mod sort;
