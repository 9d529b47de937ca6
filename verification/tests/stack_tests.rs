use linear_containers::linked_list::Stack;

#[test]
fn test_stack() {
    let mut stack = Stack::new();
    assert!(stack.is_empty());
    assert_eq!(stack.pop(), None);
    assert_eq!(stack.peek(), None);
    assert_eq!(stack.peek_mut(), None);

    stack.push("Hello");
    stack.push("World");

    let stack_clone = stack.clone();
    assert_eq!(stack, stack_clone);

    assert_eq!(stack.len(), 2);
    assert_eq!(stack.peek(), Some(&"World"));

    if let Some(head) = stack.peek_mut() {
        *head = "World!"
    }

    assert_eq!(stack.pop(), Some("World!"));
    assert_eq!(stack.peek_mut(), Some(&mut "Hello"));
    assert_eq!(stack.pop(), Some("Hello"));
    assert_eq!(stack.len(), 0);
    assert_eq!(stack.pop(), None);
    assert_eq!(stack.peek(), None);
    assert_eq!(stack.peek_mut(), None);
}

#[test]
fn test_stack_iter() {
    let mut stack_a = Stack::new();
    for e in 2..=10 {
        stack_a.push(e);
    }
    assert_eq!(stack_a.len(), 9);
    assert_eq!(stack_a.pop(), Some(10));
    let mut it = stack_a.iter_mut();
    while let Some(e) = it.next() {
        *e *= 2;
    }
    assert_eq!(stack_a.pop(), Some(18));
    let mut stack_b = Stack::new();
    let mut it = stack_a.iter();
    while let Some(e) = it.next() {
        stack_b.push(e);
    }
    assert_eq!(stack_b.pop(), Some(&4));
    assert_eq!(stack_b.len(), 6);
}

#[test]
fn test_eq_ord_stack() {
    let mut stack_a = Stack::<i32>::new();
    let mut stack_b = Stack::<i32>::new();
    assert!(stack_a == stack_b);
    stack_a.push(1);
    stack_a.push(2);
    assert!(stack_a > stack_b);
    assert!(stack_a != stack_b);
    stack_b.push(1);
    stack_b.push(2);
    assert!(stack_a == stack_b);
    let _ = stack_b.pop();
    stack_b.push(4);
    assert!(stack_b > stack_a);
}

#[test]
fn test_stack_lifo_order() {
    let mut stack = Stack::new();
    for e in [1, 2, 3, 4, 5] {
        stack.push(e);
    }
    for e in [5, 4, 3, 2, 1] {
        assert_eq!(stack.pop(), Some(e));
    }
    assert_eq!(stack.pop(), None);
}

#[test]
fn test_stack_pop_empty_is_idempotent() {
    let mut stack: Stack<u8> = Stack::new();
    assert_eq!(stack.pop(), None);
    assert_eq!(stack.pop(), None);
    assert_eq!(stack.len(), 0);
}

#[test]
fn test_stack_default_and_into_iter() {
    let mut stack: Stack<i32> = Stack::default();
    assert!(stack.is_empty());
    stack.push(1);
    stack.push(2);
    let mut it = stack.into_iter();
    assert_eq!(it.next(), Some(2));
    assert_eq!(it.next(), Some(1));
    assert_eq!(it.next(), None);
    assert_eq!(it.next(), None);
}

#[test]
fn test_stack_clone_is_independent() {
    let mut stack = Stack::new();
    stack.push(1);
    stack.push(2);
    let clone = stack.clone();
    stack.push(3);
    assert_eq!(stack.len(), 3);
    assert_eq!(clone.len(), 2);
    assert_eq!(clone.peek(), Some(&2));
}

#[test]
fn test_stack_prefix_orders_first() {
    let mut shorter = Stack::<i32>::new();
    shorter.push(1);
    let mut longer = Stack::<i32>::new();
    longer.push(2);
    longer.push(1);
    // The stacks compare from the head down: [1] is a prefix of [1, 2].
    assert!(shorter < longer);
    assert!(longer > shorter);
}
