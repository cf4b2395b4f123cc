use html_bench::stats::{Stats, Trial, TRIAL_COUNT};

fn trial(time_micros: u64, output_size: usize, peak_memory: u64, leaked: i64) -> Trial {
    Trial { time_micros, output_size, peak_memory, leaked }
}

#[test]
fn trial_count_default_is_ten() {
    assert_eq!(TRIAL_COUNT, 10);
}

#[test]
fn constant_cost_mean_time_is_the_cost() {
    let trials = vec![trial(7, 3, 100, 0); 10];
    let rec = Stats::aggregate("steady", &trials);
    assert_eq!(rec.time_micros, 7);
    assert_eq!(rec.name, "steady");
}

#[test]
fn mean_time_truncates_integer_division() {
    let trials = vec![trial(3, 0, 0, 0), trial(4, 0, 0, 0)];
    let rec = Stats::aggregate("t", &trials);
    assert_eq!(rec.time_micros, 3);
}

#[test]
fn peak_is_max_not_mean_or_last() {
    let trials = vec![trial(1, 0, 5, 0), trial(1, 0, 9, 0), trial(1, 0, 3, 0)];
    let rec = Stats::aggregate("p", &trials);
    assert_eq!(rec.peak_memory, 9);
    assert_ne!(rec.peak_memory, 5);
    assert_ne!(rec.peak_memory, 3);
}

#[test]
fn output_size_is_mean() {
    let trials = vec![trial(0, 10, 0, 0), trial(0, 20, 0, 0), trial(0, 31, 0, 0)];
    let rec = Stats::aggregate("s", &trials);
    assert_eq!(rec.output_size, 20);
}

#[test]
fn leaked_last_and_average() {
    let trials = vec![trial(0, 0, 0, 6), trial(0, 0, 0, -2), trial(0, 0, 0, 2)];
    let rec = Stats::aggregate("l", &trials);
    assert_eq!(rec.leaked_last, 2);
    assert_eq!(rec.leaked_avg, 2);
}

#[test]
fn leaked_average_truncates_toward_zero() {
    let trials = vec![trial(0, 0, 0, -3), trial(0, 0, 0, -4)];
    let rec = Stats::aggregate("n", &trials);
    assert_eq!(rec.leaked_last, -4);
    assert_eq!(rec.leaked_avg, -3);
}

#[test]
fn single_trial_aggregate_copies_the_trial() {
    let trials = vec![trial(42, 17, 1024, -8)];
    let rec = Stats::aggregate("one", &trials);
    assert_eq!(rec.time_micros, 42);
    assert_eq!(rec.output_size, 17);
    assert_eq!(rec.peak_memory, 1024);
    assert_eq!(rec.leaked_last, -8);
    assert_eq!(rec.leaked_avg, -8);
}

#[test]
fn extreme_values_do_not_overflow() {
    let trials = vec![trial(u64::MAX, usize::MAX, u64::MAX, i64::MIN); 10];
    let rec = Stats::aggregate("extreme", &trials);
    assert_eq!(rec.time_micros, u64::MAX);
    assert_eq!(rec.output_size, usize::MAX);
    assert_eq!(rec.peak_memory, u64::MAX);
    assert_eq!(rec.leaked_last, i64::MIN);
    assert_eq!(rec.leaked_avg, i64::MIN);
}
