use linear_containers::search::{binary_search, linear_search, two_crystal_balls};

#[test]
fn test_linear_search() {
    let arr: [i32; 3] = [10, 20, 30];
    assert_eq!(linear_search(&arr, 10), true);
    assert_eq!(linear_search(&arr, 40), false);
}

#[test]
fn linear_search_test_linear_search() {
    let arr: [i32; 3] = [10, 20, 30];
    assert_eq!(linear_search(&arr, 10), true);
    assert_eq!(linear_search(&arr, 40), false);
}

#[test]
fn binary_search_test_binary_search() {
    let arr: Vec<i32> = (0..=10).collect();
    assert_eq!(binary_search(&arr, 9), true);
}

#[test]
fn two_crystal_balls_test_binary_search() {
    let arr: [bool; 10] = [
        false, false, false, false, true, true, true, true, true, true,
    ];
    let index = two_crystal_balls(&arr);
    assert_eq!(index, Some(4));
    let arr: [bool; 10] = [
        false, false, false, false, false, false, false, false, false, false,
    ];
    let index = two_crystal_balls(&arr);
    assert_eq!(index, None);
}

#[test]
fn test_linear_search_empty() {
    let arr: [i32; 0] = [];
    assert_eq!(linear_search(&arr, 1), false);
}

#[test]
fn test_binary_search_bounds() {
    let arr: [u32; 5] = [1, 2, 3, 4, 5];
    assert!(binary_search(&arr, 1));
    assert!(binary_search(&arr, 5));
    assert!(!binary_search(&arr, 0));
    assert!(!binary_search(&arr, 6));
    let empty: [u32; 0] = [];
    assert!(!binary_search(&empty, 3));
}

#[test]
fn test_two_crystal_balls_edges() {
    let all_broken: [bool; 3] = [true, true, true];
    assert_eq!(two_crystal_balls(&all_broken), Some(0));
    let last_only: [bool; 9] = [false, false, false, false, false, false, false, false, true];
    assert_eq!(two_crystal_balls(&last_only), Some(8));
    let empty: [bool; 0] = [];
    assert_eq!(two_crystal_balls(&empty), None);
    let single: [bool; 1] = [true];
    assert_eq!(two_crystal_balls(&single), Some(0));
}
