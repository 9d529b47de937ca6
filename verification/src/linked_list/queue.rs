use vstd::prelude::*;
use vstd::std_specs::cmp::{PartialEqSpec, PartialOrdSpec};
use core::cmp::Ordering;
use crate::linked_list::{elementwise_eq, lexicographic_cmp};

verus! {

/// A queue is a FIFO data structure: elements are enqueued behind its tail
/// and dequeued from its head.
///
///  (A) -> (B) -> (C) -> (D)
///  head                 tail
#[derive(Debug)]
pub struct Queue<T> {
    head: Link<T>,
    length: usize,
}

type Link<T> = Option<Box<Node<T>>>;

#[derive(Debug)]
struct Node<T> {
    elem: T,
    next: Link<T>,
}

/// The sequence of values stored in the chain of nodes hanging off `link`,
/// head first.
spec fn link_view<T>(link: Link<T>) -> Seq<T>
    decreases link,
{
    match link {
        None => Seq::empty(),
        Some(node) => seq![node.elem] + link_view(node.next),
    }
}

impl<T> View for Queue<T> {
    type V = Seq<T>;

    /// The abstract view of a queue: its elements from head (next to be
    /// dequeued) to tail (most recently enqueued).
    closed spec fn view(&self) -> Seq<T> {
        link_view(self.head)
    }
}

impl<T> Queue<T> {
    /// The stored length agrees with the number of nodes in the chain.
    pub closed spec fn well_formed(self) -> bool {
        self.length == self@.len()
    }

    /// Create an empty queue.
    pub fn new() -> (s: Self)
        ensures
            s.well_formed(),
            s@ == Seq::<T>::empty(),
    {
        Queue { head: None, length: 0 }
    }

    /// Append an element behind the tail of the queue, walking the owning
    /// links to the end of the chain.
    pub fn enqueue(&mut self, elem: T)
        requires
            old(self).well_formed(),
            old(self)@.len() < usize::MAX,
        ensures
            final(self).well_formed(),
            final(self)@ == old(self)@.push(elem),
    {
        enqueue_link(&mut self.head, elem);
        self.length = self.length + 1;
    }

    /// Remove and return the head element; an empty queue yields no value
    /// and is left unchanged.
    pub fn deque(&mut self) -> (r: Option<T>)
        requires
            old(self).well_formed(),
        ensures
            final(self).well_formed(),
            old(self)@.len() == 0 ==> r is None && final(self)@ == old(self)@,
            old(self)@.len() > 0 ==> r == Some(old(self)@[0]) && final(self)@ == old(self)@.drop_first(),
    {
        match self.head.take() {
            None => None,
            Some(node) => {
                let node = *node;
                self.head = node.next;
                self.length = self.length - 1;
                proof {
                    assert(final(self)@ =~= old(self)@.drop_first());
                }
                Some(node.elem)
            },
        }
    }

    /// A shared reference to the head element, if any.
    pub fn peek(&self) -> (r: Option<&T>)
        ensures
            self@.len() == 0 ==> r is None,
            self@.len() > 0 ==> r == Some(&self@[0]),
    {
        match &self.head {
            None => None,
            Some(node) => Some(&node.elem),
        }
    }

    /// An exclusive reference to the head element, if any; the caller may
    /// overwrite the head value in place.
    pub fn peek_mut(&mut self) -> (r: Option<&mut T>)
        requires
            old(self).well_formed(),
        ensures
            final(self).well_formed(),
            old(self)@.len() == 0 ==> r is None && final(self)@ == old(self)@,
            old(self)@.len() > 0 ==> r is Some && *r.unwrap() == old(self)@[0] && final(self)@
                == old(self)@.update(0, *final(r.unwrap())),
    {
        match self.head.as_mut() {
            None => None,
            Some(node) => Some(&mut node.elem),
        }
    }

    /// The number of elements in the queue.
    pub fn len(&self) -> (r: usize)
        requires
            self.well_formed(),
        ensures
            r == self@.len(),
    {
        self.length
    }

    /// Whether the queue holds no elements.
    pub fn is_empty(&self) -> (r: bool)
        requires
            self.well_formed(),
        ensures
            r == (self@.len() == 0),
    {
        self.length == 0
    }

    /// A borrowing cursor over the queue, yielding shared references from
    /// head to tail (oldest element first).
    pub fn iter(&self) -> (it: Iter<'_, T>)
        ensures
            it.remaining() == self@,
    {
        Iter {
            next: match &self.head {
                None => None,
                Some(node) => Some(&**node),
            },
        }
    }

    /// A consuming cursor over the queue, yielding owned values from head to
    /// tail.
    pub fn into_iter(self) -> (it: IntoIter<T>)
        requires
            self.well_formed(),
        ensures
            it.remaining() == self@,
    {
        IntoIter { queue: self }
    }

    /// A cursor over the queue that yields exclusive references from head to
    /// tail, so each value can be changed in place.
    pub fn iter_mut(&mut self) -> (it: IterMut<'_, T>)
        requires
            old(self).well_formed(),
        ensures
            it.remaining() == old(self)@,
    {
        IterMut {
            next: match &mut self.head {
                None => None,
                Some(node) => Some(&mut **node),
            },
        }
    }
}

/// A borrowing cursor over a [`Queue`]; each call of [`Iter::next`] yields a
/// shared reference to the next element, head to tail.
pub struct Iter<'a, T> {
    next: Option<&'a Node<T>>,
}

impl<'a, T> Iter<'a, T> {
    /// The values this cursor has yet to yield, in order.
    pub closed spec fn remaining(&self) -> Seq<T> {
        match self.next {
            None => Seq::empty(),
            Some(node) => seq![node.elem] + link_view(node.next),
        }
    }

    /// Yield a reference to the next element, or nothing once the cursor is
    /// exhausted.
    pub fn next(&mut self) -> (r: Option<&'a T>)
        ensures
            old(self).remaining().len() == 0 ==> r is None
                && final(self).remaining() == old(self).remaining(),
            old(self).remaining().len() > 0 ==> r == Some(&old(self).remaining()[0])
                && final(self).remaining() == old(self).remaining().drop_first(),
    {
        match self.next {
            None => None,
            Some(node) => {
                self.next = match &node.next {
                    None => None,
                    Some(next_node) => Some(&**next_node),
                };
                proof {
                    assert(final(self).remaining() =~= old(self).remaining().drop_first());
                }
                Some(&node.elem)
            },
        }
    }
}

/// A consuming cursor over a [`Queue`]; each call of [`IntoIter::next`]
/// yields an owned element, head to tail.
pub struct IntoIter<T> {
    queue: Queue<T>,
}

impl<T> IntoIter<T> {
    /// The values this cursor has yet to yield, in order.
    pub closed spec fn remaining(&self) -> Seq<T> {
        self.queue@
    }

    /// Well-formedness of the underlying queue, carried along by `next`.
    pub closed spec fn well_formed(&self) -> bool {
        self.queue.well_formed()
    }

    /// Yield the next element by value, or nothing once the queue is empty.
    pub fn next(&mut self) -> (r: Option<T>)
        requires
            old(self).well_formed(),
        ensures
            final(self).well_formed(),
            old(self).remaining().len() == 0 ==> r is None
                && final(self).remaining() == old(self).remaining(),
            old(self).remaining().len() > 0 ==> r == Some(old(self).remaining()[0])
                && final(self).remaining() == old(self).remaining().drop_first(),
    {
        self.queue.deque()
    }
}

/// An exclusive cursor over a [`Queue`]; each call of [`IterMut::next`]
/// yields an exclusive reference to the next element, head to tail.
pub struct IterMut<'a, T> {
    next: Option<&'a mut Node<T>>,
}

impl<'a, T> IterMut<'a, T> {
    /// The values this cursor has yet to yield, in order, as they stand now.
    pub closed spec fn remaining(&self) -> Seq<T> {
        match self.next {
            None => Seq::empty(),
            Some(node) => seq![node.elem] + link_view(node.next),
        }
    }

    /// Yield an exclusive reference to the next element, or nothing once the
    /// cursor is exhausted.
    pub fn next(&mut self) -> (r: Option<&'a mut T>)
        ensures
            old(self).remaining().len() == 0 ==> r is None,
            old(self).remaining().len() > 0 ==> r is Some && *r.unwrap() == old(self).remaining()[0]
                && final(self).remaining() == old(self).remaining().drop_first(),
    {
        match self.next.take() {
            None => None,
            Some(node) => {
                let elem_ref = &mut node.elem;
                self.next = match &mut node.next {
                    None => None,
                    Some(next_node) => Some(&mut **next_node),
                };
                Some(elem_ref)
            },
        }
    }
}

/// Append an element behind the last node of a chain, in place.
fn enqueue_link<T>(link: &mut Link<T>, elem: T)
    ensures
        link_view(*final(link)) == link_view(*old(link)).push(elem),
    decreases *old(link),
{
    match link.take() {
        None => {
            *link = Some(Box::new(Node { elem: elem, next: None }));
            proof {
                assert(link_view(*final(link)) =~= link_view(*old(link)).push(elem));
            }
        },
        Some(mut boxed) => {
            enqueue_link(&mut boxed.next, elem);
            *link = Some(boxed);
            proof {
                assert(link_view(*final(link)) =~= link_view(*old(link)).push(elem));
            }
        },
    }
}

/// Structural equality of two node chains under the element type's `==`.
fn link_eq<T: PartialEq>(a: &Link<T>, b: &Link<T>) -> (r: bool)
    ensures
        T::obeys_eq_spec() ==> r == elementwise_eq(link_view(*a), link_view(*b)),
    decreases *a,
{
    match (a, b) {
        (None, None) => true,
        (Some(x), Some(y)) => {
            let heads_eq = x.elem == y.elem;
            if heads_eq {
                let tails_eq = link_eq(&x.next, &y.next);
                proof {
                    if T::obeys_eq_spec() {
                        let va = link_view(*a);
                        let vb = link_view(*b);
                        assert(va.drop_first() =~= link_view(x.next));
                        assert(vb.drop_first() =~= link_view(y.next));
                        if tails_eq {
                            assert forall|i: int| 0 <= i < va.len() implies #[trigger] va[i].eq_spec(
                                &vb[i],
                            ) by {
                                if i > 0 {
                                    assert(link_view(x.next)[i - 1].eq_spec(
                                        &link_view(y.next)[i - 1],
                                    ));
                                }
                            }
                        } else {
                            if elementwise_eq(va, vb) {
                                assert forall|i: int|
                                    0 <= i < link_view(x.next).len() implies #[trigger] link_view(
                                    x.next,
                                )[i].eq_spec(&link_view(y.next)[i]) by {
                                    assert(va[i + 1].eq_spec(&vb[i + 1]));
                                }
                                assert(false);
                            }
                        }
                    }
                }
                tails_eq
            } else {
                proof {
                    if T::obeys_eq_spec() {
                        assert(link_view(*a)[0] == x.elem);
                        assert(link_view(*b)[0] == y.elem);
                    }
                }
                false
            }
        },
        _ => false,
    }
}

/// Lexicographic comparison of two node chains under the element type's
/// `partial_cmp`.
fn link_cmp<T: PartialOrd>(a: &Link<T>, b: &Link<T>) -> (r: Option<Ordering>)
    ensures
        T::obeys_partial_cmp_spec() ==> r == lexicographic_cmp(link_view(*a), link_view(*b)),
    decreases *a,
{
    match (a, b) {
        (None, None) => Some(Ordering::Equal),
        (None, Some(_)) => Some(Ordering::Less),
        (Some(_), None) => Some(Ordering::Greater),
        (Some(x), Some(y)) => {
            proof {
                assert(link_view(*a).drop_first() =~= link_view(x.next));
                assert(link_view(*b).drop_first() =~= link_view(y.next));
            }
            match x.elem.partial_cmp(&y.elem) {
                Some(Ordering::Equal) => link_cmp(&x.next, &y.next),
                o => o,
            }
        },
    }
}

impl<T: PartialEq> PartialEq for Queue<T> {
    /// Two queues are equal when they hold equal elements in the same order.
    fn eq(&self, other: &Self) -> (r: bool) {
        link_eq(&self.head, &other.head)
    }
}

impl<T: PartialEq> vstd::std_specs::cmp::PartialEqSpecImpl for Queue<T> {
    open spec fn obeys_eq_spec() -> bool {
        T::obeys_eq_spec()
    }

    open spec fn eq_spec(&self, other: &Self) -> bool {
        elementwise_eq(self@, other@)
    }
}

impl<T: PartialOrd> PartialOrd for Queue<T> {
    /// Queues compare lexicographically from the head down, as their
    /// elements do.
    fn partial_cmp(&self, other: &Self) -> (r: Option<Ordering>) {
        link_cmp(&self.head, &other.head)
    }
}

impl<T: PartialOrd> vstd::std_specs::cmp::PartialOrdSpecImpl for Queue<T> {
    open spec fn obeys_partial_cmp_spec() -> bool {
        T::obeys_partial_cmp_spec()
    }

    open spec fn partial_cmp_spec(&self, other: &Self) -> Option<Ordering> {
        lexicographic_cmp(self@, other@)
    }
}

/// A node-by-node copy of a chain; each element is cloned with the element
/// type's own `clone`.
fn clone_link<T: Clone>(link: &Link<T>) -> (r: Link<T>)
    ensures
        link_view(r).len() == link_view(*link).len(),
        forall|i: int|
            0 <= i < link_view(*link).len() ==> cloned::<T>(
                link_view(*link)[i],
                #[trigger] link_view(r)[i],
            ),
    decreases *link,
{
    match link {
        None => None,
        Some(node) => {
            let new_elem = node.elem.clone();
            let new_next = clone_link(&node.next);
            proof {
                assert(link_view(*link).drop_first() =~= link_view(node.next));
            }
            let r = Some(Box::new(Node { elem: new_elem, next: new_next }));
            proof {
                assert forall|i: int| 0 <= i < link_view(*link).len() implies cloned::<T>(
                    link_view(*link)[i],
                    #[trigger] link_view(r)[i],
                ) by {
                    if i > 0 {
                        assert(cloned::<T>(link_view(node.next)[i - 1], link_view(new_next)[i - 1]));
                    }
                }
            }
            r
        },
    }
}

impl<T: Clone> Clone for Queue<T> {
    /// Cloning copies the chain node by node; each element is cloned with
    /// the element type's own `clone`, so the lengths always agree and the
    /// elements agree whenever `T::clone` returns its input unchanged.
    fn clone(&self) -> (res: Self)
        ensures
            res@.len() == self@.len(),
            forall|i: int| 0 <= i < self@.len() ==> cloned::<T>(self@[i], #[trigger] res@[i]),
            self.well_formed() ==> res.well_formed(),
    {
        Queue { head: clone_link(&self.head), length: self.length }
    }
}

impl<T> Default for Queue<T> {
    /// The default queue is the empty queue.
    fn default() -> (s: Self)
        ensures
            s.well_formed(),
            s@ == Seq::<T>::empty(),
    {
        Queue::new()
    }
}

} // verus!
