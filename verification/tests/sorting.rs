use sort_bench::sort::hybrid_sort;
use sort_bench::sort::merge;
use sort_bench::sort::merge_sort;
use sort_bench::sort::selection_sort;
use sort_bench::sort::sort_range_by_selection;
use sort_bench::sort::HYBRID_THRESHOLD;

#[test]
fn merge_sort_concrete() {
    let arr = vec![5, 3, 4, 1, 2];
    let r = merge_sort(arr, 0, 5);
    assert_eq!(r, vec![1, 2, 3, 4, 5]);
}

#[test]
fn selection_sort_concrete() {
    let mut arr = vec![5, 3, 4, 1, 2];
    selection_sort(&mut arr);
    assert_eq!(arr, vec![1, 2, 3, 4, 5]);
}

#[test]
fn hybrid_sort_concrete() {
    let arr = vec![5, 3, 4, 1, 2];
    let r = hybrid_sort(arr, 0, 5);
    assert_eq!(r, vec![1, 2, 3, 4, 5]);
}

#[test]
fn empty_input_all_three() {
    let r = merge_sort(Vec::new(), 0, 0);
    assert_eq!(r, Vec::<i32>::new());
    let mut arr: Vec<i32> = Vec::new();
    selection_sort(&mut arr);
    assert_eq!(arr, Vec::<i32>::new());
    let r = hybrid_sort(Vec::new(), 0, 0);
    assert_eq!(r, Vec::<i32>::new());
}

#[test]
fn single_element_unchanged() {
    let r = merge_sort(vec![7], 0, 1);
    assert_eq!(r, vec![7]);
    let mut arr = vec![7];
    selection_sort(&mut arr);
    assert_eq!(arr, vec![7]);
    let r = hybrid_sort(vec![7], 0, 1);
    assert_eq!(r, vec![7]);
}

#[test]
fn duplicates_and_negatives() {
    let arr = vec![2, -1, 2, -1, 0, i32::MIN, i32::MAX];
    let r = merge_sort(arr.clone(), 0, 7);
    assert_eq!(r, vec![i32::MIN, -1, -1, 0, 2, 2, i32::MAX]);
    let h = hybrid_sort(arr.clone(), 0, 7);
    assert_eq!(h, r);
    let mut s = arr;
    selection_sort(&mut s);
    assert_eq!(s, r);
}

#[test]
fn merge_joins_two_sorted_subranges() {
    let arr = vec![9, 2, 4, 1, 5];
    let r = merge(arr, 1, 3, 5);
    assert_eq!(r, vec![9, 1, 2, 4, 5]);
}

#[test]
fn merge_handles_equal_values() {
    let arr = vec![1, 3, 1, 3];
    let r = merge(arr, 0, 2, 4);
    assert_eq!(r, vec![1, 1, 3, 3]);
}

#[test]
fn subrange_sorts_leave_outside_alone() {
    let arr = vec![9, 5, 3, 4, 0];
    let r = merge_sort(arr.clone(), 1, 4);
    assert_eq!(r, vec![9, 3, 4, 5, 0]);
    let h = hybrid_sort(arr.clone(), 1, 4);
    assert_eq!(h, vec![9, 3, 4, 5, 0]);
    let s = sort_range_by_selection(arr, 1, 4);
    assert_eq!(s, vec![9, 3, 4, 5, 0]);
}

#[test]
fn sorting_is_idempotent() {
    let arr = vec![10, -4, 7, 7, 0, 3];
    let once = merge_sort(arr, 0, 6);
    let twice = merge_sort(once.clone(), 0, 6);
    assert_eq!(twice, once);
    let mut once_sel = once.clone();
    selection_sort(&mut once_sel);
    assert_eq!(once_sel, once);
}

#[test]
fn hybrid_matches_merge() {
    let mut arr: Vec<i32> = Vec::new();
    let mut x: i64 = 12345;
    for _ in 0..400 {
        x = (x * 1103515245 + 12345) % 2147483648;
        arr.push((x % 1000) as i32);
    }
    let n = arr.len();
    let merged = merge_sort(arr.clone(), 0, n);
    let hybridized = hybrid_sort(arr, 0, n);
    assert_eq!(hybridized, merged);
}

#[test]
fn length_at_threshold_sorted() {
    let mut arr: Vec<i32> = Vec::new();
    for v in 0..HYBRID_THRESHOLD as i32 {
        arr.push(HYBRID_THRESHOLD as i32 - v);
    }
    assert_eq!(arr.len(), HYBRID_THRESHOLD);
    let n = arr.len();
    let r = hybrid_sort(arr, 0, n);
    for w in 0..n - 1 {
        assert!(r[w] <= r[w + 1]);
    }
    assert_eq!(r[0], 1);
    assert_eq!(r[n - 1], HYBRID_THRESHOLD as i32);
}

#[test]
fn length_above_threshold_sorted() {
    let count = HYBRID_THRESHOLD as i32 + 1;
    let mut arr: Vec<i32> = Vec::new();
    for v in 0..count {
        arr.push(count - v);
    }
    let n = arr.len();
    let r = hybrid_sort(arr.clone(), 0, n);
    let m = merge_sort(arr, 0, n);
    assert_eq!(r, m);
    for w in 0..n - 1 {
        assert!(r[w] <= r[w + 1]);
    }
}
