use vstd::prelude::*;
use crate::array::RawVec;

verus! {

/// A growable circular sequence: the live elements occupy the slots
/// `(head + i) mod capacity` for `i` below the length, so both ends can be
/// worked on in constant time. The buffer never overwrites live data: when
/// it is full it grows, moving the elements back into storage order
/// (relinearizing), so logical order is kept across growth even while the
/// contents wrap around. Since the capacity doubles, a ring holds at most
/// half the address space's worth of elements; past that, allocation would
/// be fatal rather than recoverable.
pub struct RingBuffer<T> {
    buf: RawVec<T>,
    head: usize,
    len: usize,
}

/// The storage slot holding logical position `i` of a ring whose first
/// element sits at `head`: `head + i`, wrapped once past the capacity. For
/// `head` and `i` below `cap` this equals `(head + i) mod cap`.
pub open spec fn slot_of(head: int, cap: int, i: int) -> int {
    if head + i < cap {
        head + i
    } else {
        head + i - cap
    }
}

/// Distinct logical positions of a ring occupy distinct storage slots, and
/// every slot index stays within the capacity.
proof fn lemma_slot_distinct(h: int, c: int, i: int, j: int)
    requires
        0 <= h < c,
        0 <= i < c,
        0 <= j < c,
        i != j,
    ensures
        slot_of(h, c, i) != slot_of(h, c, j),
        0 <= slot_of(h, c, i) < c,
{
}

impl<T> View for RingBuffer<T> {
    type V = Seq<T>;

    /// The abstract view of the ring: its live elements in logical order,
    /// front first.
    closed spec fn view(&self) -> Seq<T> {
        Seq::new(
            self.len as nat,
            |i: int| self.buf@[slot_of(self.head as int, self.buf@.len() as int, i)].unwrap(),
        )
    }
}

impl<T> RingBuffer<T> {
    /// The head denotes a storage slot, the live region fits, and every live
    /// slot is filled.
    pub closed spec fn well_formed(self) -> bool {
        &&& self.len <= self.buf@.len()
        &&& if self.buf@.len() == 0 {
            self.head == 0
        } else {
            self.head < self.buf@.len()
        }
        &&& forall|i: int|
            0 <= i < self.len ==> self.buf@[slot_of(
                self.head as int,
                self.buf@.len() as int,
                i,
            )] is Some
    }

    /// The number of elements the ring can hold before it must grow.
    pub closed spec fn spec_cap(&self) -> nat {
        self.buf@.len()
    }

    /// Create an empty ring with no storage reserved.
    pub fn new() -> (r: Self)
        ensures
            r.well_formed(),
            r@ == Seq::<T>::empty(),
            r.spec_cap() == 0,
    {
        RingBuffer { buf: RawVec::new(), head: 0, len: 0 }
    }

    /// Create an empty ring with room for exactly `cap` elements.
    pub fn with_capacity(cap: usize) -> (r: Self)
        ensures
            r.well_formed(),
            r@ == Seq::<T>::empty(),
            r.spec_cap() == cap,
    {
        RingBuffer { buf: RawVec::with_capacity(cap), head: 0, len: 0 }
    }

    /// Whether the live region fills the whole buffer.
    fn is_full(&self) -> (r: bool)
        requires
            self.well_formed(),
        ensures
            r == (self@.len() == self.buf@.len()),
    {
        self.len == self.cap()
    }

    /// The number of live elements.
    pub fn len(&self) -> (r: usize)
        requires
            self.well_formed(),
        ensures
            r == self@.len(),
    {
        self.len
    }

    /// Whether the ring holds no elements.
    pub fn is_empty(&self) -> (r: bool)
        requires
            self.well_formed(),
        ensures
            r == (self@.len() == 0),
    {
        self.len == 0
    }

    /// The capacity of the backing buffer.
    fn cap(&self) -> (r: usize)
        ensures
            r == self.buf@.len(),
    {
        self.buf.cap()
    }

    /// The storage slot of logical position `i`, computed without wraparound
    /// in the machine arithmetic.
    fn slot(&self, i: usize) -> (r: usize)
        requires
            self.buf@.len() > 0,
            self.head < self.buf@.len(),
            i < self.buf@.len(),
        ensures
            r == slot_of(self.head as int, self.buf@.len() as int, i as int),
            r < self.buf@.len(),
    {
        let cap = self.cap();
        if i < cap - self.head {
            self.head + i
        } else {
            i - (cap - self.head)
        }
    }

    /// Double the buffer (a zero-capacity ring grows to one slot), moving
    /// the live elements back into storage order so that the head returns to
    /// slot zero and the logical order is kept even if the old contents
    /// wrapped around.
    fn grow_and_relinearize(&mut self)
        requires
            old(self).well_formed(),
            old(self).buf@.len() <= usize::MAX / 2,
        ensures
            final(self).well_formed(),
            final(self)@ == old(self)@,
            final(self)@.len() < final(self).buf@.len(),
    {
        let cap = self.cap();
        let new_cap: usize = if cap == 0 {
            1
        } else {
            2 * cap
        };
        let ghost v = old(self)@;
        let mut new_buf = RawVec::with_capacity(new_cap);
        let mut i: usize = 0;
        while i < self.len
            invariant
                i <= self.len,
                self.len == old(self).len,
                self.head == old(self).head,
                self.len < new_cap,
                new_buf@.len() == new_cap,
                self.buf@.len() == old(self).buf@.len(),
                self.len <= self.buf@.len(),
                self.len > 0 ==> self.head < self.buf@.len(),
                v.len() == self.len,
                forall|k: int| 0 <= k < i ==> new_buf@[k] == Some(v[k]),
                forall|k: int|
                    i <= k < self.len ==> self.buf@[slot_of(
                        self.head as int,
                        self.buf@.len() as int,
                        k,
                    )] == Some(v[k]),
            decreases self.len - i,
        {
            let ghost c = self.buf@.len() as int;
            let ghost h = self.head as int;
            let idx = self.slot(i);
            let moved = self.buf.take_slot(idx);
            proof {
                assert forall|k: int| i < k < self.len implies self.buf@[slot_of(h, c, k)]
                    == Some(v[k]) by {
                    lemma_slot_distinct(h, c, i as int, k);
                }
            }
            new_buf.put_slot(i, moved);
            i = i + 1;
        }
        self.buf = new_buf;
        self.head = 0;
        proof {
            assert(final(self)@ =~= v);
        }
    }

    /// Append an element behind the back of the ring, growing if it is full.
    pub fn push_back(&mut self, elem: T)
        requires
            old(self).well_formed(),
            old(self)@.len() < usize::MAX / 2,
        ensures
            final(self).well_formed(),
            final(self)@ == old(self)@.push(elem),
    {
        if self.is_full() {
            self.grow_and_relinearize();
        }
        let ghost mid = *self;
        let idx = self.slot(self.len);
        self.buf.put_slot(idx, Some(elem));
        self.len = self.len + 1;
        proof {
            let c = mid.buf@.len() as int;
            let h = mid.head as int;
            let n = mid@.len() as int;
            assert forall|i: int| 0 <= i < n implies slot_of(h, c, i) != slot_of(h, c, n) && 0
                <= slot_of(h, c, i) < c by {
                lemma_slot_distinct(h, c, i, n);
            }
            assert(final(self)@ =~= old(self)@.push(elem));
        }
    }

    /// Prepend an element in front of the head, growing if the ring is full.
    /// The head moves one slot back (wrapping to the last slot from slot
    /// zero) unless the ring was empty, in which case the head's own slot is
    /// filled — so the head slot always denotes a live element once the
    /// length is positive.
    pub fn push_front(&mut self, elem: T)
        requires
            old(self).well_formed(),
            old(self)@.len() < usize::MAX / 2,
        ensures
            final(self).well_formed(),
            final(self)@ == seq![elem] + old(self)@,
    {
        if self.is_full() {
            self.grow_and_relinearize();
        }
        let ghost mid = *self;
        if self.len > 0 {
            self.head = if self.head == 0 {
                self.cap() - 1
            } else {
                self.head - 1
            };
        }
        self.buf.put_slot(self.head, Some(elem));
        self.len = self.len + 1;
        proof {
            let c = mid.buf@.len() as int;
            let h = mid.head as int;
            let h1 = self.head as int;
            let n = mid@.len() as int;
            if n > 0 {
                assert(h1 == slot_of(h, c, c - 1));
                assert forall|i: int| 1 <= i < n + 1 implies slot_of(h1, c, i) == slot_of(
                    h,
                    c,
                    i - 1,
                ) && slot_of(h1, c, i) != h1 by {
                    lemma_slot_distinct(h, c, i - 1, c - 1);
                }
            }
            assert(final(self)@ =~= seq![elem] + old(self)@);
        }
    }

    /// Remove and return the head element, advancing the head one slot; an
    /// empty ring yields no value and is left unchanged.
    pub fn pop(&mut self) -> (r: Option<T>)
        requires
            old(self).well_formed(),
        ensures
            final(self).well_formed(),
            old(self)@.len() == 0 ==> r is None && final(self)@ == old(self)@,
            old(self)@.len() > 0 ==> r == Some(old(self)@[0]) && final(self)@ == old(
                self,
            )@.drop_first(),
    {
        if self.len == 0 {
            None
        } else {
            let ghost mid = *self;
            let r = self.buf.take_slot(self.head);
            let cap = self.cap();
            self.head = if self.head + 1 == cap {
                0
            } else {
                self.head + 1
            };
            self.len = self.len - 1;
            proof {
                let c = mid.buf@.len() as int;
                let h = mid.head as int;
                let h1 = self.head as int;
                let n = mid@.len() as int;
                assert(slot_of(h, c, 0) == h);
                assert forall|i: int| 0 <= i < n - 1 implies slot_of(h1, c, i) == slot_of(
                    h,
                    c,
                    i + 1,
                ) && slot_of(h1, c, i) != h by {
                    lemma_slot_distinct(h, c, 0, i + 1);
                }
                assert(final(self)@ =~= old(self)@.drop_first());
            }
            r
        }
    }
}

} // verus!
