use html_bench::sorting::{sort_stats, str_le};
use html_bench::stats::Stats;

fn record(name: &'static str) -> Stats {
    Stats {
        name,
        time_micros: 1,
        output_size: 2,
        peak_memory: 3,
        leaked_last: 0,
        leaked_avg: 0,
    }
}

#[test]
fn string_order_is_lexicographic() {
    assert!(str_le("", ""));
    assert!(str_le("", "a"));
    assert!(!str_le("a", ""));
    assert!(str_le("abc", "abc"));
    assert!(str_le("abc", "abd"));
    assert!(!str_le("abd", "abc"));
    assert!(str_le("ab", "abc"));
    assert!(!str_le("abc", "ab"));
    assert!(str_le("Zebra", "apple"));
    assert!(str_le("html2md", "html2md-rs"));
}

#[test]
fn sort_orders_records_by_name() {
    let v = vec![record("zebra"), record("alpha"), record("middle")];
    let sorted = sort_stats(&v);
    let names: Vec<&str> = sorted.iter().map(|s| s.name).collect();
    assert_eq!(names, vec!["alpha", "middle", "zebra"]);
}

#[test]
fn sort_is_stable_for_equal_names() {
    let mut first = record("same");
    first.time_micros = 1;
    let mut second = record("same");
    second.time_micros = 2;
    let sorted = sort_stats(&vec![first, record("aaa"), second]);
    assert_eq!(sorted[0].name, "aaa");
    assert_eq!(sorted[1].time_micros, 1);
    assert_eq!(sorted[2].time_micros, 2);
}
