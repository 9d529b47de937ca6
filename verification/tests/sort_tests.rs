use linear_containers::sort::bubble_sort;

#[test]
fn test_bubble_sort() {
    let mut arr: Vec<i32> = vec![2, 3, 5, 4, 1];
    bubble_sort(&mut arr);
    assert_eq!(arr, vec![1, 2, 3, 4, 5]);
}

#[test]
fn test_bubble_sort_edge_cases() {
    let mut empty: Vec<i32> = vec![];
    bubble_sort(&mut empty);
    assert_eq!(empty, Vec::<i32>::new());

    let mut single: Vec<i32> = vec![7];
    bubble_sort(&mut single);
    assert_eq!(single, vec![7]);

    let mut sorted: Vec<i32> = vec![1, 2, 3];
    bubble_sort(&mut sorted);
    assert_eq!(sorted, vec![1, 2, 3]);

    let mut reversed: Vec<i32> = vec![5, 4, 3, 2, 1];
    bubble_sort(&mut reversed);
    assert_eq!(reversed, vec![1, 2, 3, 4, 5]);

    let mut duplicates: Vec<i32> = vec![3, 1, 3, 2, 1];
    bubble_sort(&mut duplicates);
    assert_eq!(duplicates, vec![1, 1, 2, 3, 3]);
}
