use linear_containers::array::{ArrayList, RingBuffer};

#[test]
fn array_list_test_ring_buffer() {
    let mut al = ArrayList::new();
    assert_eq!(al.pop(), None);
    assert!(al.is_empty());
    al.push(10);
    al.push(15);
    al.push(20);
    al.push(25);
    assert_eq!(al.len(), 4);
    assert_eq!(al.remove(0), Some(10));
    assert_eq!(al.remove(0), Some(15));
    al.insert(0, 30);
    assert_eq!(al.len(), 3);
    assert_eq!(al.pop(), Some(25));
    assert_eq!(al.pop(), Some(20));
    assert_eq!(al.pop(), Some(30));
    assert!(al.is_empty());
}

#[test]
fn ring_buffer_test_ring_buffer() {
    let mut rg = RingBuffer::new();
    assert_eq!(rg.pop(), None);
    assert!(rg.is_empty());
    rg.push_back(10);
    rg.push_back(15);
    rg.push_back(20);
    rg.push_back(25);
    assert_eq!(rg.len(), 4);
    assert_eq!(rg.pop(), Some(10));
    assert_eq!(rg.pop(), Some(15));
    rg.push_front(30);
    assert_eq!(rg.len(), 3);
    assert_eq!(rg.pop(), Some(30));
    assert_eq!(rg.pop(), Some(20));
    assert_eq!(rg.pop(), Some(25));
    assert!(rg.is_empty());
}

#[test]
fn test_array_list_length_counts_pushes_minus_pops() {
    let mut al = ArrayList::new();
    for e in 0..6 {
        al.push(e);
    }
    assert_eq!(al.len(), 6);
    al.pop();
    al.pop();
    assert_eq!(al.len(), 4);
    al.push(99);
    assert_eq!(al.len(), 5);
}

#[test]
fn test_ring_buffer_length_counts_pushes_minus_pops() {
    let mut rg = RingBuffer::new();
    for e in 0..6 {
        rg.push_back(e);
    }
    assert_eq!(rg.len(), 6);
    rg.pop();
    rg.pop();
    assert_eq!(rg.len(), 4);
    rg.push_front(99);
    assert_eq!(rg.len(), 5);
}

#[test]
fn test_array_list_pop_empty_is_idempotent() {
    let mut al: ArrayList<u8> = ArrayList::new();
    assert_eq!(al.pop(), None);
    assert_eq!(al.pop(), None);
    assert_eq!(al.pop(), None);
    assert_eq!(al.len(), 0);
}

#[test]
fn test_ring_buffer_pop_empty_is_idempotent() {
    let mut rg: RingBuffer<u8> = RingBuffer::with_capacity(4);
    assert_eq!(rg.pop(), None);
    assert_eq!(rg.pop(), None);
    assert_eq!(rg.len(), 0);
}

#[test]
fn test_array_list_insert_remove_round_trip() {
    let mut al = ArrayList::new();
    al.push(1);
    al.push(2);
    al.push(4);
    al.insert(2, 3);
    assert_eq!(al.len(), 4);
    assert_eq!(al.remove(2), Some(3));
    assert_eq!(al.len(), 3);
    assert_eq!(al.pop(), Some(4));
    assert_eq!(al.pop(), Some(2));
    assert_eq!(al.pop(), Some(1));
}

#[test]
fn test_ring_buffer_push_front_then_pop_restores() {
    let mut rg = RingBuffer::new();
    rg.push_back(1);
    rg.push_back(2);
    rg.push_front(7);
    assert_eq!(rg.pop(), Some(7));
    assert_eq!(rg.pop(), Some(1));
    assert_eq!(rg.pop(), Some(2));
    assert_eq!(rg.pop(), None);
}

#[test]
fn test_array_list_growth_keeps_first_elements() {
    // 2^3 + 1 pushes: the element order survives the growth events.
    let mut al = ArrayList::new();
    for e in 0..9 {
        al.push(e);
    }
    assert_eq!(al.len(), 9);
    for e in (0..9).rev() {
        assert_eq!(al.pop(), Some(e));
    }
    assert!(al.is_empty());
}

#[test]
fn test_ring_buffer_growth_keeps_order_while_wrapped() {
    // Fill a small ring, advance the head so the contents wrap around, then
    // force growth: the logical order must survive relinearization.
    let mut rg = RingBuffer::with_capacity(4);
    rg.push_back(1);
    rg.push_back(2);
    rg.push_back(3);
    rg.push_back(4);
    assert_eq!(rg.pop(), Some(1));
    assert_eq!(rg.pop(), Some(2));
    rg.push_back(5);
    rg.push_back(6);
    // The ring is full again and physically wrapped; one more push grows it.
    rg.push_back(7);
    rg.push_back(8);
    rg.push_back(9);
    for e in 3..=9 {
        assert_eq!(rg.pop(), Some(e));
    }
    assert!(rg.is_empty());
}

#[test]
fn test_array_list_get_and_set() {
    let mut al = ArrayList::new();
    al.push(10);
    al.push(20);
    al.push(30);
    assert_eq!(*al.get(1), 20);
    al.set(1, 25);
    assert_eq!(*al.get(1), 25);
    assert_eq!(al.remove(1), Some(25));
}

#[test]
fn test_ring_buffer_push_front_into_empty() {
    let mut rg = RingBuffer::new();
    rg.push_front(42);
    assert_eq!(rg.len(), 1);
    assert_eq!(rg.pop(), Some(42));
    assert!(rg.is_empty());
}
