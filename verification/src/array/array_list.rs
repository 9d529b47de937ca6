use vstd::prelude::*;
use crate::array::RawVec;

verus! {

/// A growable contiguous sequence: elements occupy the first `len` slots of
/// an owned buffer that doubles its capacity on demand. Since the capacity
/// doubles, an array holds at most half the address space's worth of
/// elements; past that, allocation would be fatal rather than recoverable.
pub struct ArrayList<T> {
    buf: RawVec<T>,
    len: usize,
}

impl<T> View for ArrayList<T> {
    type V = Seq<T>;

    /// The abstract view of the array: its live elements in index order.
    closed spec fn view(&self) -> Seq<T> {
        Seq::new(self.len as nat, |i: int| self.buf@[i].unwrap())
    }
}

impl<T> ArrayList<T> {
    /// The live region fits in the buffer and every live slot is filled.
    pub closed spec fn well_formed(self) -> bool {
        &&& self.len <= self.buf@.len()
        &&& forall|i: int| 0 <= i < self.len ==> self.buf@[i] is Some
    }

    /// Create an empty array with no storage reserved.
    pub fn new() -> (r: Self)
        ensures
            r.well_formed(),
            r@ == Seq::<T>::empty(),
    {
        ArrayList { buf: RawVec::new(), len: 0 }
    }

    /// Append an element at the back, growing the buffer if it is full.
    pub fn push(&mut self, elem: T)
        requires
            old(self).well_formed(),
            old(self)@.len() < usize::MAX / 2,
        ensures
            final(self).well_formed(),
            final(self)@ == old(self)@.push(elem),
    {
        if self.len == self.buf.cap() {
            self.buf.grow();
        }
        self.buf.put_slot(self.len, Some(elem));
        self.len = self.len + 1;
        proof {
            assert(final(self)@ =~= old(self)@.push(elem));
        }
    }

    /// Remove and return the last element; an empty array yields no value
    /// and is left unchanged.
    pub fn pop(&mut self) -> (r: Option<T>)
        requires
            old(self).well_formed(),
        ensures
            final(self).well_formed(),
            old(self)@.len() == 0 ==> r is None && final(self)@ == old(self)@,
            old(self)@.len() > 0 ==> r == Some(old(self)@.last()) && final(self)@ == old(
                self,
            )@.drop_last(),
    {
        if self.len == 0 {
            None
        } else {
            self.len = self.len - 1;
            let r = self.buf.take_slot(self.len);
            proof {
                assert(final(self)@ =~= old(self)@.drop_last());
            }
            r
        }
    }

    /// Insert an element at position `index`, shifting every element at and
    /// after it one slot to the right. `index` may be at most the length
    /// (which appends).
    pub fn insert(&mut self, index: usize, elem: T)
        requires
            old(self).well_formed(),
            index <= old(self)@.len(),
            old(self)@.len() < usize::MAX / 2,
        ensures
            final(self).well_formed(),
            final(self)@ == old(self)@.insert(index as int, elem),
    {
        if self.len == self.buf.cap() {
            self.buf.grow();
        }
        let ghost v = old(self)@;
        let mut j: usize = self.len;
        while j > index
            invariant
                index <= j <= self.len,
                self.len == old(self).len,
                self.len < self.buf@.len(),
                v.len() == self.len,
                forall|i: int| 0 <= i < j ==> self.buf@[i] == Some(v[i]),
                forall|i: int| j < i <= self.len ==> self.buf@[i] == Some(v[i - 1]),
            decreases j,
        {
            let moved = self.buf.take_slot(j - 1);
            self.buf.put_slot(j, moved);
            j = j - 1;
        }
        self.buf.put_slot(index, Some(elem));
        self.len = self.len + 1;
        proof {
            assert(final(self)@ =~= old(self)@.insert(index as int, elem));
        }
    }

    /// Remove and return the element at position `index`, shifting every
    /// later element one slot to the left. `index` must be within the live
    /// range, so the result is always a value; an absent result could only
    /// arise from an empty array, which admits no valid index.
    pub fn remove(&mut self, index: usize) -> (r: Option<T>)
        requires
            old(self).well_formed(),
            index < old(self)@.len(),
        ensures
            final(self).well_formed(),
            r == Some(old(self)@[index as int]),
            final(self)@ == old(self)@.remove(index as int),
    {
        let ghost v = old(self)@;
        let result = self.buf.take_slot(index);
        let mut j: usize = index;
        while j + 1 < self.len
            invariant
                index <= j < self.len,
                self.len == old(self).len,
                self.len <= self.buf@.len(),
                v.len() == self.len,
                forall|i: int| 0 <= i < index ==> self.buf@[i] == Some(v[i]),
                forall|i: int| index <= i < j ==> self.buf@[i] == Some(v[i + 1]),
                forall|i: int| j < i < self.len ==> self.buf@[i] == Some(v[i]),
            decreases self.len - j,
        {
            let moved = self.buf.take_slot(j + 1);
            self.buf.put_slot(j, moved);
            j = j + 1;
        }
        self.len = self.len - 1;
        proof {
            assert(final(self)@ =~= old(self)@.remove(index as int));
        }
        result
    }

    /// The number of live elements.
    pub fn len(&self) -> (r: usize)
        requires
            self.well_formed(),
        ensures
            r == self@.len(),
    {
        self.len
    }

    /// Whether the array holds no elements.
    pub fn is_empty(&self) -> (r: bool)
        requires
            self.well_formed(),
        ensures
            r == (self@.len() == 0),
    {
        self.len == 0
    }

    /// A shared reference to the element at position `index`.
    pub fn get(&self, index: usize) -> (r: &T)
        requires
            self.well_formed(),
            index < self@.len(),
        ensures
            *r == self@[index as int],
    {
        match self.buf.read_slot(index) {
            Some(elem) => elem,
            None => vstd::pervasive::unreached(),
        }
    }

    /// Overwrite the element at position `index`.
    pub fn set(&mut self, index: usize, elem: T)
        requires
            old(self).well_formed(),
            index < old(self)@.len(),
        ensures
            final(self).well_formed(),
            final(self)@ == old(self)@.update(index as int, elem),
    {
        self.buf.put_slot(index, Some(elem));
        proof {
            assert(final(self)@ =~= old(self)@.update(index as int, elem));
        }
    }
}

} // verus!
