use linear_containers::linked_list::Queue;

#[test]
fn test_queue() {
    let mut queue = Queue::new();
    assert!(queue.is_empty());
    assert_eq!(queue.peek(), None);
    assert_eq!(queue.peek_mut(), None);
    assert_eq!(queue.deque(), None);

    queue.enqueue("Hello");
    queue.enqueue("World");

    let queue_clone = queue.clone();
    assert_eq!(queue, queue_clone);

    assert_eq!(queue.len(), 2);
    assert_eq!(queue.peek(), Some(&"Hello"));
    assert_eq!(queue.peek_mut(), Some(&mut "Hello"));
    assert_eq!(queue.deque(), Some("Hello"));
    assert_eq!(queue.len(), 1);
    assert_eq!(queue.peek(), Some(&"World"));

    if let Some(head) = queue.peek_mut() {
        *head = "World!"
    }

    assert_eq!(queue.deque(), Some("World!"));
    assert_eq!(queue.len(), 0);
}

#[test]
fn test_iter_queue() {
    let mut queue_a = Queue::new();
    for e in 2..=10 {
        queue_a.enqueue(e);
    }
    let mut count: usize = 0;
    let mut it = queue_a.iter();
    while let Some(_) = it.next() {
        count += 1;
    }
    assert_eq!(count, 9);
    assert_eq!(queue_a.len(), 9);
    let mut found = None;
    let mut it = queue_a.iter();
    while let Some(e) = it.next() {
        if *e == 5 {
            found = Some(e);
            break;
        }
    }
    assert_eq!(found, Some(&5));
    let mut found = None;
    let mut it = queue_a.iter();
    while let Some(e) = it.next() {
        if *e == 15 {
            found = Some(e);
            break;
        }
    }
    assert_eq!(found, None);
    let mut it = queue_a.iter_mut();
    while let Some(e) = it.next() {
        *e *= 2
    }
    let mut queue_b = Queue::new();
    let mut it = queue_a.iter();
    while let Some(e) = it.next() {
        queue_b.enqueue(e);
    }
    let mut count: usize = 0;
    let mut it = queue_b.iter();
    while let Some(_) = it.next() {
        count += 1;
    }
    assert_eq!(count, 9);
    assert_eq!(queue_b.deque(), Some(&4));
    assert_eq!(queue_b.deque(), Some(&6));
    assert_eq!(queue_b.deque(), Some(&8));
    assert_eq!(queue_b.deque(), Some(&10));
    assert_eq!(queue_b.deque(), Some(&12));
    assert_eq!(queue_b.deque(), Some(&14));
    assert_eq!(queue_b.deque(), Some(&16));
    assert_eq!(queue_b.deque(), Some(&18));
    assert_eq!(queue_b.deque(), Some(&20));
    let mut it = queue_b.iter();
    while let Some(_e) = it.next() {}
    assert_eq!(queue_b.len(), 0);
    assert_eq!(queue_b.deque(), None);
}

#[test]
fn test_eq_ord_queue() {
    let mut queue_a = Queue::<i32>::new();
    let mut queue_b = Queue::<i32>::new();
    assert!(queue_a == queue_b);
    queue_a.enqueue(1);
    queue_a.enqueue(2);
    assert!(queue_a > queue_b);
    assert!(queue_a != queue_b);
    queue_b.enqueue(1);
    queue_b.enqueue(2);
    assert!(queue_a == queue_b);
    let _ = queue_b.deque();
    queue_b.enqueue(4);
    assert!(queue_b > queue_a);
    assert!(queue_b != queue_a);
}

#[test]
fn test_queue_fifo_order() {
    let mut queue = Queue::new();
    for e in [1, 2, 3, 4, 5] {
        queue.enqueue(e);
    }
    for e in [1, 2, 3, 4, 5] {
        assert_eq!(queue.deque(), Some(e));
    }
    assert_eq!(queue.deque(), None);
}

#[test]
fn test_queue_deque_empty_is_idempotent() {
    let mut queue: Queue<u8> = Queue::new();
    assert_eq!(queue.deque(), None);
    assert_eq!(queue.deque(), None);
    assert_eq!(queue.len(), 0);
}

#[test]
fn test_queue_default_and_into_iter() {
    let mut queue: Queue<i32> = Queue::default();
    assert!(queue.is_empty());
    queue.enqueue(1);
    queue.enqueue(2);
    let mut it = queue.into_iter();
    assert_eq!(it.next(), Some(1));
    assert_eq!(it.next(), Some(2));
    assert_eq!(it.next(), None);
    assert_eq!(it.next(), None);
}

#[test]
fn test_queue_prefix_orders_first() {
    let mut shorter = Queue::<i32>::new();
    shorter.enqueue(1);
    let mut longer = Queue::<i32>::new();
    longer.enqueue(1);
    longer.enqueue(2);
    // The queues compare from the head on: [1] is a prefix of [1, 2].
    assert!(shorter < longer);
    assert!(longer > shorter);
}

#[test]
fn test_queue_peek_tracks_head() {
    let mut queue = Queue::new();
    queue.enqueue(5);
    queue.enqueue(6);
    assert_eq!(queue.peek(), Some(&5));
    queue.deque();
    assert_eq!(queue.peek(), Some(&6));
    queue.deque();
    assert_eq!(queue.peek(), None);
}
