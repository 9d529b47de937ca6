//! Node-based linked containers: a FIFO queue and a LIFO stack. Each node is
//! its own heap allocation; a container owns its first node, and each node
//! owns its successor.
//!
//! There is no tail pointer: the queue's `enqueue` splices the new node in
//! by walking the owning links to the end of the chain, so it costs time
//! proportional to the length, as do comparing, cloning and dropping a
//! container. The walks that recurse — enqueuing, comparing, cloning, and
//! the default drop of the box chain — also use call stack proportional to
//! the length.

pub mod queue;
pub mod stack;

pub use queue::Queue;
pub use stack::Stack;

use vstd::prelude::*;
use vstd::std_specs::cmp::{PartialEqSpec, PartialOrdSpec};
use core::cmp::Ordering;

verus! {

/// Two sequences are equal element by element, under the element type's own
/// equality.
pub open spec fn elementwise_eq<T: PartialEq>(a: Seq<T>, b: Seq<T>) -> bool {
    &&& a.len() == b.len()
    &&& forall|i: int| 0 <= i < a.len() ==> #[trigger] a[i].eq_spec(&b[i])
}

/// Lexicographic comparison of two sequences under the element type's own
/// ordering: the first unequal pair decides; a strict prefix orders first.
pub open spec fn lexicographic_cmp<T: PartialOrd>(a: Seq<T>, b: Seq<T>) -> Option<Ordering>
    decreases a.len(),
{
    if a.len() == 0 && b.len() == 0 {
        Some(Ordering::Equal)
    } else if a.len() == 0 {
        Some(Ordering::Less)
    } else if b.len() == 0 {
        Some(Ordering::Greater)
    } else {
        match a[0].partial_cmp_spec(&b[0]) {
            Some(Ordering::Equal) => lexicographic_cmp(a.drop_first(), b.drop_first()),
            o => o,
        }
    }
}

} // verus!
