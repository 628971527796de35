use rust_benchs::{eratostenes, fibonacci, nqueens, quicksort};

#[test]
fn fibonacci_base_cases() {
    assert_eq!(fibonacci(0), 0);
    assert_eq!(fibonacci(1), 1);
    assert_eq!(fibonacci(2), 1);
}

#[test]
fn fibonacci_twenty() {
    assert_eq!(fibonacci(20), 6765);
}

#[test]
fn fibonacci_recurrence_concrete() {
    assert_eq!(fibonacci(10), fibonacci(9) + fibonacci(8));
    assert_eq!(fibonacci(15), fibonacci(14) + fibonacci(13));
}

#[test]
fn fibonacci_deterministic() {
    assert_eq!(fibonacci(17), fibonacci(17));
}

#[test]
fn eratostenes_hundred() {
    assert_eq!(eratostenes(100), 25);
}

#[test]
fn eratostenes_small_limits() {
    assert_eq!(eratostenes(0), 0);
    assert_eq!(eratostenes(1), 0);
    assert_eq!(eratostenes(2), 1);
    assert_eq!(eratostenes(3), 2);
    assert_eq!(eratostenes(10), 4);
}

#[test]
fn eratostenes_thousand() {
    assert_eq!(eratostenes(1000), 168);
}

#[test]
fn eratostenes_deterministic() {
    assert_eq!(eratostenes(500), eratostenes(500));
}

#[test]
fn quicksort_reversed() {
    let mut v = vec![5, 4, 3, 2, 1];
    quicksort(&mut v);
    assert_eq!(v, vec![1, 2, 3, 4, 5]);
}

#[test]
fn quicksort_empty_and_single() {
    let mut v: Vec<i32> = vec![];
    quicksort(&mut v);
    assert_eq!(v, Vec::<i32>::new());
    let mut w = vec![7];
    quicksort(&mut w);
    assert_eq!(w, vec![7]);
}

#[test]
fn quicksort_duplicates() {
    let mut v = vec![3, 1, 3, -2, 1, 3];
    quicksort(&mut v);
    assert_eq!(v, vec![-2, 1, 1, 3, 3, 3]);
}

#[test]
fn quicksort_already_sorted() {
    let mut v = vec![1, 2, 3, 4, 5];
    quicksort(&mut v);
    assert_eq!(v, vec![1, 2, 3, 4, 5]);
}

#[test]
fn quicksort_deterministic() {
    let original = vec![9, -4, 0, 9, 2, -7, 5];
    let mut a = original.clone();
    let mut b = original.clone();
    quicksort(&mut a);
    quicksort(&mut b);
    assert_eq!(a, b);
}

#[test]
fn nqueens_reference_table() {
    let expected = [1, 0, 0, 2, 10, 4, 40, 92, 352, 724];
    for n in 1..=10u32 {
        assert_eq!(nqueens(n), expected[(n - 1) as usize]);
    }
}

#[test]
fn nqueens_empty_board() {
    assert_eq!(nqueens(0), 1);
}

#[test]
fn nqueens_eight() {
    assert_eq!(nqueens(8), 92);
}
