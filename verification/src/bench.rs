//! The benchmark driver: generates random inputs, times the three sorting
//! algorithms on identical copies, and assembles the per-algorithm logs.

use vstd::prelude::*;
use vstd::string::StringExecFns;
use rand::RngExt;
use crate::sort::hybrid_sort;
use crate::sort::merge_sort;
use crate::sort::selection_sort;
use crate::report::format_progress;
use crate::report::format_record;
use crate::report::lemma_line_count_add;
use crate::report::lemma_record_line_one_line;
use crate::report::line_count;
use crate::report::progress_record;
use crate::report::record_line;

verus! {

/// The smallest value the generated inputs may hold.
pub const RAND_MIN: i32 = 1;

/// The exclusive upper bound on the generated inputs' values.
pub const RAND_END: i32 = 100000;

/// The timings of the three algorithms on one generated input.
#[derive(Clone, Copy, PartialEq, Eq, Structural, Debug)]
pub struct Trial {
    /// How many elements the generated input held.
    pub size: usize,
    /// Nanoseconds a full merge sort of the input took.
    pub merge_nanos: u128,
    /// Nanoseconds a full selection sort of the input took.
    pub selection_nanos: u128,
    /// Nanoseconds a full hybrid sort of the input took.
    pub hybrid_nanos: u128,
}

/// Which of the three algorithms a results file reports on.
#[derive(Clone, Copy, PartialEq, Eq, Structural, Debug)]
pub enum Algorithm {
    Merge,
    Selection,
    Hybrid,
}

#[verifier::external_type_specification]
#[verifier::external_body]
pub struct ExThreadRng(rand::rngs::ThreadRng);

#[verifier::external_type_specification]
#[verifier::external_body]
pub struct ExInstant(std::time::Instant);

/// Relies on rand::rng: a handle to the calling thread's random number
/// generator.
#[verifier::external_body]
fn fresh_rng() -> rand::rngs::ThreadRng {
    rand::rng()
}

/// Relies on rand::RngExt::random_range: a value drawn from the given
/// half-open range. It panics only on an empty range, which the
/// precondition rules out; nothing more is promised of a random value.
#[verifier::external_body]
fn random_in_range(rng: &mut rand::rngs::ThreadRng, lo: i32, hi: i32) -> (r: i32)
    requires
        lo < hi,
    ensures
        lo <= r < hi,
{
    rng.random_range(lo..hi)
}

/// Relies on std::time::Instant::now: a reading of the monotonic clock.
#[verifier::external_body]
fn clock_now() -> std::time::Instant {
    std::time::Instant::now()
}

/// Relies on std::time::Instant::elapsed: the time since `start` was read.
#[verifier::external_body]
fn clock_elapsed(start: &std::time::Instant) -> std::time::Duration {
    start.elapsed()
}

/// Relies on std::time::Duration::as_nanos: the duration as a whole number
/// of nanoseconds.
#[verifier::external_body]
fn duration_nanos(d: std::time::Duration) -> u128 {
    d.as_nanos()
}

/// Fills a fresh vector with `size` values drawn from
/// `RAND_MIN..RAND_END`, the benchmark's input distribution.
pub fn generate_values(rng: &mut rand::rngs::ThreadRng, size: usize) -> (r: Vec<i32>)
    ensures
        r@.len() == size,
        forall|t: int| 0 <= t < r@.len() ==> RAND_MIN <= #[trigger] r@[t] < RAND_END,
{
    let mut v: Vec<i32> = Vec::new();
    let mut idx: usize = 0;
    while idx < size
        invariant
            idx <= size,
            v@.len() == idx,
            forall|t: int| 0 <= t < v@.len() ==> RAND_MIN <= #[trigger] v@[t] < RAND_END,
        decreases size - idx,
    {
        let x = random_in_range(rng, RAND_MIN, RAND_END);
        v.push(x);
        idx = idx + 1;
    }
    v
}

/// Generates three identical random arrays of `size` elements and times a
/// full sort of each, reporting merge, selection, and hybrid timings in
/// that order. The timings depend on the clock and carry no guarantee
/// beyond their type.
pub fn generate_and_sort_arrays(size: usize) -> (r: (u128, u128, u128)) {
    let mut rng = fresh_rng();
    let arr_merge = generate_values(&mut rng, size);
    let mut arr_selection = arr_merge.clone();
    let arr_hybrid = arr_merge.clone();

    let merge_start = clock_now();
    let _merge_sorted = merge_sort(arr_merge, 0, size);
    let merge_elapsed = duration_nanos(clock_elapsed(&merge_start));

    let selection_start = clock_now();
    selection_sort(&mut arr_selection);
    let selection_elapsed = duration_nanos(clock_elapsed(&selection_start));

    let hybrid_start = clock_now();
    let _hybrid_sorted = hybrid_sort(arr_hybrid, 0, size);
    let hybrid_elapsed = duration_nanos(clock_elapsed(&hybrid_start));

    (merge_elapsed, selection_elapsed, hybrid_elapsed)
}

/// Runs one trial per requested size, in the order given: generates the
/// arrays, times the three sorts, and records the timings.
pub fn run_trials(sizes: &Vec<usize>) -> (r: Vec<Trial>)
    ensures
        r@.len() == sizes@.len(),
        forall|t: int| 0 <= t < r@.len() ==> r@[t].size == sizes@[t],
{
    let mut out: Vec<Trial> = Vec::new();
    let mut idx: usize = 0;
    while idx < sizes.len()
        invariant
            idx <= sizes@.len(),
            out@.len() == idx,
            forall|t: int| 0 <= t < out@.len() ==> out@[t].size == sizes@[t],
        decreases sizes@.len() - idx,
    {
        let size = sizes[idx];
        let (merge_elapsed, selection_elapsed, hybrid_elapsed) = generate_and_sort_arrays(size);
        out.push(
            Trial {
                size,
                merge_nanos: merge_elapsed,
                selection_nanos: selection_elapsed,
                hybrid_nanos: hybrid_elapsed,
            },
        );
        idx = idx + 1;
    }
    out
}

/// The timing a results file for `alg` reports out of `t`.
pub open spec fn nanos_for(t: Trial, alg: Algorithm) -> nat {
    match alg {
        Algorithm::Merge => t.merge_nanos as nat,
        Algorithm::Selection => t.selection_nanos as nat,
        Algorithm::Hybrid => t.hybrid_nanos as nat,
    }
}

/// The whole contents of the results file for `alg`: one record per trial,
/// in trial order.
pub open spec fn log_of(trials: Seq<Trial>, alg: Algorithm) -> Seq<char>
    decreases trials.len(),
{
    if trials.len() == 0 {
        Seq::empty()
    } else {
        log_of(trials.drop_last(), alg) + record_line(
            trials.last().size as nat,
            nanos_for(trials.last(), alg),
        )
    }
}

/// Each trial contributes exactly one line to each results file: a file
/// built from `trials` holds exactly `trials.len()` lines.
pub proof fn lemma_log_line_count(trials: Seq<Trial>, alg: Algorithm)
    ensures
        line_count(log_of(trials, alg)) == trials.len(),
    decreases trials.len(),
{
    if trials.len() > 0 {
        lemma_log_line_count(trials.drop_last(), alg);
        lemma_line_count_add(
            log_of(trials.drop_last(), alg),
            record_line(trials.last().size as nat, nanos_for(trials.last(), alg)),
        );
        lemma_record_line_one_line(trials.last().size as nat, nanos_for(trials.last(), alg));
    }
}

/// Assembles the results file for `alg` from the recorded trials.
pub fn build_log(trials: &Vec<Trial>, alg: Algorithm) -> (r: String)
    ensures
        r@ == log_of(trials@, alg),
{
    let mut out = String::new();
    let mut idx: usize = 0;
    while idx < trials.len()
        invariant
            idx <= trials@.len(),
            out@ == log_of(trials@.subrange(0, idx as int), alg),
        decreases trials@.len() - idx,
    {
        let t = trials[idx];
        let nanos = match alg {
            Algorithm::Merge => t.merge_nanos,
            Algorithm::Selection => t.selection_nanos,
            Algorithm::Hybrid => t.hybrid_nanos,
        };
        let line = format_record(t.size, nanos);
        out.append(line.as_str());
        proof {
            let upto = trials@.subrange(0, idx + 1 as int);
            assert(upto.drop_last() =~= trials@.subrange(0, idx as int));
            assert(upto.last() == trials@[idx as int]);
        }
        idx = idx + 1;
    }
    proof {
        assert(trials@.subrange(0, trials@.len() as int) =~= trials@);
    }
    out
}

/// Renders the progress line for one recorded trial.
pub fn progress_line(t: &Trial) -> (r: String)
    ensures
        r@ == progress_record(
            t.size as nat,
            t.hybrid_nanos as nat,
            t.merge_nanos as nat,
            t.selection_nanos as nat,
        ),
{
    format_progress(t.size, t.hybrid_nanos, t.merge_nanos, t.selection_nanos)
}

/// The fixed ascending list of input sizes the benchmark sweeps.
pub open spec fn spec_trial_sizes() -> Seq<usize> {
    seq![
        5usize,
        10,
        25,
        50,
        75,
        100,
        115,
        125,
        150,
        175,
        250,
        500,
        1000,
        2500,
        5000,
        7500,
        10000,
    ]
}

/// The fixed ascending list of input sizes the benchmark sweeps.
pub fn trial_sizes() -> (r: Vec<usize>)
    ensures
        r@ == spec_trial_sizes(),
{
    let v: Vec<usize> = vec![
        5, 10, 25, 50, 75, 100, 115, 125, 150, 175, 250, 500, 1000, 2500, 5000, 7500, 10000,
    ];
    proof {
        assert(v@ =~= spec_trial_sizes());
    }
    v
}

} // verus!
