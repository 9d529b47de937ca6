//! Contiguous-storage containers: a growable array and a circular ring
//! buffer, both backed by the same owned buffer of element slots.

pub mod array_list;
pub mod ring_buffer;

pub use array_list::ArrayList;
pub use ring_buffer::RingBuffer;

use vstd::prelude::*;
use vstd::pervasive::VecAdditionalExecFns;

verus! {

/// An owned region of element slots with explicit capacity. A slot either
/// holds an element or is vacant; the buffer itself tracks no element count
/// and decides nothing about which slots are live — the containers built on
/// it do, and they keep every slot they use filled.
///
/// Every element type gets real slots, zero-sized ones included: there is
/// no special case treating a buffer of zero-sized elements as unboundedly
/// large, so the half-address-space growth bound applies to every element
/// type alike.
pub(crate) struct RawVec<T> {
    slots: Vec<Option<T>>,
}

impl<T> View for RawVec<T> {
    type V = Seq<Option<T>>;

    /// The abstract view of the buffer: its slots in storage order.
    closed spec fn view(&self) -> Seq<Option<T>> {
        self.slots@
    }
}

impl<T> RawVec<T> {
    /// A zero-capacity buffer; no storage is reserved.
    pub(crate) fn new() -> (r: Self)
        ensures
            r@ == Seq::<Option<T>>::empty(),
    {
        RawVec { slots: Vec::new() }
    }

    /// A buffer with room for exactly `cap` elements, all slots vacant.
    pub(crate) fn with_capacity(cap: usize) -> (r: Self)
        ensures
            r@.len() == cap,
            forall|i: int| 0 <= i < cap ==> r@[i] is None,
    {
        let mut slots: Vec<Option<T>> = Vec::new();
        let mut i: usize = 0;
        while i < cap
            invariant
                i <= cap,
                slots@.len() == i,
                forall|k: int| 0 <= k < i ==> slots@[k] is None,
            decreases cap - i,
    {
            slots.push(None);
            i = i + 1;
        }
        RawVec { slots: slots }
    }

    /// The number of slots.
    pub(crate) fn cap(&self) -> (r: usize)
        ensures
            r == self@.len(),
    {
        self.slots.len()
    }

    /// Double the capacity (a zero-capacity buffer grows to one slot). Every
    /// existing slot keeps its contents; the new slots are vacant.
    pub(crate) fn grow(&mut self)
        requires
            old(self)@.len() <= usize::MAX / 2,
        ensures
            final(self)@.len() == if old(self)@.len() == 0 {
                1int
            } else {
                2 * old(self)@.len() as int
            },
            forall|i: int| 0 <= i < old(self)@.len() ==> final(self)@[i] == old(self)@[i],
            forall|i: int|
                old(self)@.len() <= i < final(self)@.len() ==> final(self)@[i] is None,
    {
        let new_cap: usize = if self.slots.len() == 0 {
            1
        } else {
            2 * self.slots.len()
        };
        while self.slots.len() < new_cap
            invariant
                self@.len() >= old(self)@.len(),
                self@.len() <= new_cap,
                forall|i: int| 0 <= i < old(self)@.len() ==> self@[i] == old(self)@[i],
                forall|i: int| old(self)@.len() <= i < self@.len() ==> self@[i] is None,
            decreases new_cap - self.slots.len(),
        {
            self.slots.push(None);
        }
    }

    /// Move the contents of slot `i` out, leaving the slot vacant.
    pub(crate) fn take_slot(&mut self, i: usize) -> (r: Option<T>)
        requires
            i < old(self)@.len(),
        ensures
            r == old(self)@[i as int],
            final(self)@ == old(self)@.update(i as int, None),
    {
        let slot = &mut self.slots[i];
        slot.take()
    }

    /// Fill slot `i` with `v`, dropping whatever the slot held.
    pub(crate) fn put_slot(&mut self, i: usize, v: Option<T>)
        requires
            i < old(self)@.len(),
        ensures
            final(self)@ == old(self)@.update(i as int, v),
    {
        self.slots.set(i, v);
    }

    /// A shared reference to slot `i`.
    pub(crate) fn read_slot(&self, i: usize) -> (r: &Option<T>)
        requires
            i < self@.len(),
        ensures
            *r == self@[i as int],
    {
        &self.slots[i]
    }
}

} // verus!
