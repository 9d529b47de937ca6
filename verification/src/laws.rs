//! Laws the containers obey, stated over the same sequence views that their
//! operations' contracts speak of, and proved for every input.

use vstd::prelude::*;

verus! {

/// One step against a growable array: append at the back, take the back
/// element, or insert or remove at a chosen position.
pub enum ArrayOp<T> {
    Push(T),
    Pop,
    Insert(int, T),
    Remove(int),
}

/// How one step changes the array's view, exactly as the contracts of
/// `ArrayList::push`, `pop`, `insert` and `remove` ensure: a pop on an empty
/// array returns no value and changes nothing.
pub open spec fn array_step<T>(s: Seq<T>, op: ArrayOp<T>) -> Seq<T> {
    match op {
        ArrayOp::Push(x) => s.push(x),
        ArrayOp::Pop => if s.len() > 0 {
            s.drop_last()
        } else {
            s
        },
        ArrayOp::Insert(i, x) => s.insert(i, x),
        ArrayOp::Remove(i) => s.remove(i),
    }
}

/// The array's view after running `ops` in order against `s`.
pub open spec fn run_array<T>(s: Seq<T>, ops: Seq<ArrayOp<T>>) -> Seq<T>
    decreases ops.len(),
{
    if ops.len() == 0 {
        s
    } else {
        array_step(run_array(s, ops.drop_last()), ops.last())
    }
}

/// Every insert and remove in `ops` lands at a valid position of the state
/// it meets — the same bounds the contracts of `ArrayList::insert` and
/// `remove` demand of their callers.
pub open spec fn array_ops_valid<T>(s: Seq<T>, ops: Seq<ArrayOp<T>>) -> bool
    decreases ops.len(),
{
    if ops.len() == 0 {
        true
    } else {
        let prev = run_array(s, ops.drop_last());
        &&& array_ops_valid(s, ops.drop_last())
        &&& match ops.last() {
            ArrayOp::Insert(i, _) => 0 <= i <= prev.len(),
            ArrayOp::Remove(i) => 0 <= i < prev.len(),
            _ => true,
        }
    }
}

/// How many steps of `ops` put an element in: pushes and inserts.
pub open spec fn count_array_ins<T>(ops: Seq<ArrayOp<T>>) -> nat
    decreases ops.len(),
{
    if ops.len() == 0 {
        0
    } else {
        count_array_ins(ops.drop_last()) + match ops.last() {
            ArrayOp::Push(_) => 1nat,
            ArrayOp::Insert(_, _) => 1nat,
            _ => 0nat,
        }
    }
}

/// How many steps of `ops`, run against `s`, actually took an element out:
/// every remove, and every pop that met a nonempty array.
pub open spec fn count_array_outs<T>(s: Seq<T>, ops: Seq<ArrayOp<T>>) -> nat
    decreases ops.len(),
{
    if ops.len() == 0 {
        0
    } else {
        let prev = run_array(s, ops.drop_last());
        count_array_outs(s, ops.drop_last()) + match ops.last() {
            ArrayOp::Pop => if prev.len() > 0 {
                1nat
            } else {
                0nat
            },
            ArrayOp::Remove(_) => 1nat,
            _ => 0nat,
        }
    }
}

/// For every sequence of pushes, pops, inserts and removes run against an
/// empty growable array (with each insert and remove at a valid position,
/// as their contracts demand), the reported length equals the number of
/// elements put in minus the number actually taken out; the takes never
/// outnumber the puts, and — being a sequence length — the length can never
/// fall below zero. A pop on an empty array returns no value, changes
/// nothing, and counts for nothing.
pub proof fn lemma_array_length_law<T>(ops: Seq<ArrayOp<T>>)
    requires
        array_ops_valid(Seq::empty(), ops),
    ensures
        count_array_outs(Seq::empty(), ops) <= count_array_ins(ops),
        run_array(Seq::empty(), ops).len() == count_array_ins(ops) - count_array_outs(
            Seq::empty(),
            ops,
        ),
    decreases ops.len(),
{
    if ops.len() > 0 {
        lemma_array_length_law::<T>(ops.drop_last());
    }
}

/// One step against a ring: append behind the back, prepend in front of the
/// head, or take the head element.
pub enum RingOp<T> {
    PushBack(T),
    PushFront(T),
    Pop,
}

/// How one step changes the ring's view, exactly as the contracts of
/// `RingBuffer::push_back`, `push_front` and `pop` ensure: a pop on an
/// empty ring returns no value and changes nothing.
pub open spec fn ring_step<T>(s: Seq<T>, op: RingOp<T>) -> Seq<T> {
    match op {
        RingOp::PushBack(x) => s.push(x),
        RingOp::PushFront(x) => seq![x] + s,
        RingOp::Pop => if s.len() > 0 {
            s.drop_first()
        } else {
            s
        },
    }
}

/// The ring's view after running `ops` in order against `s`.
pub open spec fn run_ring<T>(s: Seq<T>, ops: Seq<RingOp<T>>) -> Seq<T>
    decreases ops.len(),
{
    if ops.len() == 0 {
        s
    } else {
        ring_step(run_ring(s, ops.drop_last()), ops.last())
    }
}

/// How many steps of `ops` put an element in: pushes at either end.
pub open spec fn count_ring_ins<T>(ops: Seq<RingOp<T>>) -> nat
    decreases ops.len(),
{
    if ops.len() == 0 {
        0
    } else {
        count_ring_ins(ops.drop_last()) + match ops.last() {
            RingOp::Pop => 0nat,
            _ => 1nat,
        }
    }
}

/// How many steps of `ops`, run against `s`, actually took an element out:
/// the pops that met a nonempty ring.
pub open spec fn count_ring_outs<T>(s: Seq<T>, ops: Seq<RingOp<T>>) -> nat
    decreases ops.len(),
{
    if ops.len() == 0 {
        0
    } else {
        let prev = run_ring(s, ops.drop_last());
        count_ring_outs(s, ops.drop_last()) + match ops.last() {
            RingOp::Pop => if prev.len() > 0 {
                1nat
            } else {
                0nat
            },
            _ => 0nat,
        }
    }
}

/// For every sequence of pushes at either end and pops run against an empty
/// ring, the reported length equals the number of pushes minus the number
/// of pops that returned a value; those pops never outnumber the pushes,
/// and — being a sequence length — the length can never fall below zero. A
/// pop on an empty ring returns no value, changes nothing, and counts for
/// nothing.
pub proof fn lemma_ring_length_law<T>(ops: Seq<RingOp<T>>)
    ensures
        count_ring_outs(Seq::empty(), ops) <= count_ring_ins(ops),
        run_ring(Seq::empty(), ops).len() == count_ring_ins(ops) - count_ring_outs(
            Seq::empty(),
            ops,
        ),
    decreases ops.len(),
{
    if ops.len() > 0 {
        lemma_ring_length_law::<T>(ops.drop_last());
    }
}

/// The view after enqueuing each element of `es` in turn, oldest first (as
/// `Queue::enqueue` ensures).
pub open spec fn enqueue_all<T>(q: Seq<T>, es: Seq<T>) -> Seq<T>
    decreases es.len(),
{
    if es.len() == 0 {
        q
    } else {
        enqueue_all(q, es.drop_last()).push(es.last())
    }
}

/// The view after `n` dequeues (or pops from a stack or ring front): each
/// one removes the front element when one is there and otherwise changes
/// nothing, as the `deque` and `pop` contracts ensure.
pub open spec fn after_takes_front<T>(q: Seq<T>, n: nat) -> Seq<T>
    decreases n,
{
    if n == 0 {
        q
    } else {
        let prev = after_takes_front(q, (n - 1) as nat);
        if prev.len() > 0 {
            prev.drop_first()
        } else {
            prev
        }
    }
}

/// Taking from the front `n` times leaves exactly the elements after the
/// first `n`.
pub proof fn lemma_after_takes_front_skips<T>(q: Seq<T>, n: nat)
    requires
        n <= q.len(),
    ensures
        after_takes_front(q, n) == q.skip(n as int),
    decreases n,
{
    if n == 0 {
        assert(after_takes_front(q, 0) =~= q.skip(0));
    } else {
        lemma_after_takes_front_skips(q, (n - 1) as nat);
        assert(after_takes_front(q, n) =~= q.skip(n as int));
    }
}

/// First in, first out: enqueuing `e1 .. en` on an empty queue and then
/// dequeuing `n` times hands the elements back in exactly the order
/// `e1 .. en` — the `i`-th dequeue returns the element at position `i`.
pub proof fn lemma_queue_fifo<T>(es: Seq<T>)
    ensures
        enqueue_all(Seq::empty(), es) == es,
        forall|i: int|
            0 <= i < es.len() ==> #[trigger] after_takes_front(es, i as nat).first() == es[i],
    decreases es.len(),
{
    if es.len() == 0 {
        assert(enqueue_all(Seq::<T>::empty(), es) =~= es);
    } else {
        lemma_queue_fifo(es.drop_last());
        assert(enqueue_all(Seq::empty(), es) =~= es);
    }
    assert forall|i: int| 0 <= i < es.len() implies #[trigger] after_takes_front(es, i as nat).first()
        == es[i] by {
        lemma_after_takes_front_skips(es, i as nat);
        assert(es.skip(i).first() == es[i]);
    }
}

/// The view after pushing each element of `es` in turn onto a stack (as
/// `Stack::push` ensures: the new element stands in front).
pub open spec fn push_all<T>(s: Seq<T>, es: Seq<T>) -> Seq<T>
    decreases es.len(),
{
    if es.len() == 0 {
        s
    } else {
        seq![es.last()] + push_all(s, es.drop_last())
    }
}

/// Last in, first out: pushing `e1 .. en` onto an empty stack and then
/// popping `n` times hands the elements back in exactly the reverse order
/// `en .. e1` — the `i`-th pop returns the element at position `n - 1 - i`.
pub proof fn lemma_stack_lifo<T>(es: Seq<T>)
    ensures
        push_all(Seq::empty(), es) == es.reverse(),
        forall|i: int|
            0 <= i < es.len() ==> #[trigger] after_takes_front(es.reverse(), i as nat).first()
                == es[es.len() - 1 - i],
    decreases es.len(),
{
    if es.len() == 0 {
        assert(push_all(Seq::<T>::empty(), es) =~= es.reverse());
    } else {
        lemma_stack_lifo(es.drop_last());
        assert(push_all(Seq::empty(), es) =~= es.reverse());
    }
    assert forall|i: int|
        0 <= i < es.len() implies #[trigger] after_takes_front(es.reverse(), i as nat).first()
        == es[es.len() - 1 - i] by {
        lemma_after_takes_front_skips(es.reverse(), i as nat);
        assert(es.reverse().skip(i).first() == es.reverse()[i]);
    }
}

/// Prepending an element and immediately taking from the front returns that
/// element and leaves the view exactly as it was — `push_front(x)` followed
/// by `pop()` on a ring gives `x` back and changes nothing else, as their
/// contracts compose.
pub proof fn lemma_push_front_then_pop<T>(v: Seq<T>, x: T)
    ensures
        (seq![x] + v).len() > 0,
        (seq![x] + v).first() == x,
        (seq![x] + v).drop_first() == v,
{
    assert((seq![x] + v).drop_first() =~= v);
}

/// Inserting `x` at position `i` and removing at the same position returns
/// `x` and restores the prior length and element order — `insert(i, x)`
/// followed by `remove(i)` on a growable array round-trips, as their
/// contracts compose.
pub proof fn lemma_insert_remove_round_trip<T>(v: Seq<T>, i: int, x: T)
    requires
        0 <= i <= v.len(),
    ensures
        v.insert(i, x)[i] == x,
        v.insert(i, x).remove(i) == v,
{
    assert(v.insert(i, x).remove(i) =~= v);
}

} // verus!
