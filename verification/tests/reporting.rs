use sort_bench::report::format_progress;
use sort_bench::report::format_record;

#[test]
fn record_concrete() {
    let r = format_record(5, 123);
    assert_eq!(r, "Size: 5, Time: 123 nanoseconds\n");
}

#[test]
fn record_zero() {
    let r = format_record(0, 0);
    assert_eq!(r, "Size: 0, Time: 0 nanoseconds\n");
}

#[test]
fn record_round_decimals() {
    let r = format_record(10000, 1000000);
    assert_eq!(r, "Size: 10000, Time: 1000000 nanoseconds\n");
}

#[test]
fn record_largest_timing() {
    let r = format_record(usize::MAX, u128::MAX);
    let expected = format!("Size: {}, Time: {} nanoseconds\n", usize::MAX, u128::MAX);
    assert_eq!(r, expected);
}

#[test]
fn progress_concrete() {
    let r = format_progress(7, 3, 1, 2);
    assert_eq!(
        r,
        "Size: 7, Hybrid Sort: 3 nanoseconds, Merge Sort: 1 nanoseconds, Selection Sort: 2 nanoseconds"
    );
}
