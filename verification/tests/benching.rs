use sort_bench::bench::build_log;
use sort_bench::bench::generate_and_sort_arrays;
use sort_bench::bench::generate_values;
use sort_bench::bench::progress_line;
use sort_bench::bench::run_trials;
use sort_bench::bench::trial_sizes;
use sort_bench::bench::Algorithm;
use sort_bench::bench::Trial;

#[test]
fn trial_sizes_fixed_list() {
    let sizes = trial_sizes();
    assert_eq!(
        sizes,
        vec![5, 10, 25, 50, 75, 100, 115, 125, 150, 175, 250, 500, 1000, 2500, 5000, 7500, 10000]
    );
    for w in 0..sizes.len() - 1 {
        assert!(sizes[w] < sizes[w + 1]);
    }
}

#[test]
fn generated_values_in_range() {
    let mut rng = rand::rng();
    let v = generate_values(&mut rng, 1000);
    assert_eq!(v.len(), 1000);
    for x in v {
        assert!((1..100000).contains(&x));
    }
}

#[test]
fn timings_come_back_for_each_algorithm() {
    let (_merge_nanos, _selection_nanos, _hybrid_nanos) = generate_and_sort_arrays(40);
}

#[test]
fn run_trials_one_per_size() {
    let trials = run_trials(&vec![5, 10]);
    assert_eq!(trials.len(), 2);
    assert_eq!(trials[0].size, 5);
    assert_eq!(trials[1].size, 10);
}

#[test]
fn driver_logs_two_lines_per_file() {
    let trials = run_trials(&vec![5, 10]);
    for alg in [Algorithm::Merge, Algorithm::Selection, Algorithm::Hybrid] {
        let log = build_log(&trials, alg);
        let lines: Vec<&str> = log.lines().collect();
        assert_eq!(lines.len(), 2);
        assert_eq!(log.matches('\n').count(), 2);
        for (line, size) in lines.iter().zip(["5", "10"]) {
            let rest = line
                .strip_prefix(&format!("Size: {}, Time: ", size))
                .expect("record prefix");
            let digits = rest.strip_suffix(" nanoseconds").expect("record suffix");
            assert!(!digits.is_empty());
            assert!(digits.chars().all(|c| c.is_ascii_digit()));
        }
    }
}

#[test]
fn build_log_empty() {
    let log = build_log(&Vec::new(), Algorithm::Merge);
    assert_eq!(log, "");
}

#[test]
fn build_log_picks_the_algorithm_timing() {
    let trials = vec![Trial { size: 3, merge_nanos: 11, selection_nanos: 22, hybrid_nanos: 33 }];
    assert_eq!(build_log(&trials, Algorithm::Merge), "Size: 3, Time: 11 nanoseconds\n");
    assert_eq!(build_log(&trials, Algorithm::Selection), "Size: 3, Time: 22 nanoseconds\n");
    assert_eq!(build_log(&trials, Algorithm::Hybrid), "Size: 3, Time: 33 nanoseconds\n");
}

#[test]
fn progress_line_concrete() {
    let t = Trial { size: 7, merge_nanos: 1, selection_nanos: 2, hybrid_nanos: 3 };
    assert_eq!(
        progress_line(&t),
        "Size: 7, Hybrid Sort: 3 nanoseconds, Merge Sort: 1 nanoseconds, Selection Sort: 2 nanoseconds"
    );
}
