use bg_driver::bench::{
    key_tap_label, mouse_click_label, sample_ns, screenshot_label, summarize, BenchReport,
    ThroughputRun,
};

#[test]
fn summarize_handles_empty() {
    let r = summarize("empty".to_string(), vec![]);
    assert_eq!(r.iterations, 0);
}

#[test]
fn summarize_p50_of_three_is_middle() {
    // 1 ms, 2 ms, 3 ms in nanoseconds.
    let times = vec![1_000_000u64, 2_000_000, 3_000_000];
    let r = summarize("x".to_string(), times);
    assert_eq!(r.p50_ns, 2_000_000);
}

#[test]
fn summarize_empty_is_all_zero() {
    let r = summarize("empty".to_string(), vec![]);
    assert_eq!(r.label, "empty");
    assert_eq!(
        (r.total_ns, r.mean_ns, r.p50_ns, r.p95_ns, r.p99_ns),
        (0, 0, 0, 0, 0)
    );
}

#[test]
fn summarize_sorts_and_picks_nearest_rank() {
    // Unsorted input; 20 samples 1..=20.
    let times: Vec<u64> = (1..=20u64).rev().collect();
    let r = summarize("s".to_string(), times);
    assert_eq!(r.iterations, 20);
    assert_eq!(r.total_ns, 210);
    assert_eq!(r.mean_ns, 10); // 210 / 20 = 10.5, rounded down
    // index round(19 * 0.5) = round(9.5) = 10 -> value 11
    assert_eq!(r.p50_ns, 11);
    // index round(19 * 0.95) = round(18.05) = 18 -> value 19
    assert_eq!(r.p95_ns, 19);
    // index round(19 * 0.99) = round(18.81) = 19 -> value 20
    assert_eq!(r.p99_ns, 20);
}

#[test]
fn summarize_single_sample() {
    let r = summarize("one".to_string(), vec![42]);
    assert_eq!((r.iterations, r.total_ns, r.mean_ns), (1, 42, 42));
    assert_eq!((r.p50_ns, r.p95_ns, r.p99_ns), (42, 42, 42));
}

#[test]
fn summarize_total_does_not_overflow_u64() {
    let r = summarize("big".to_string(), vec![u64::MAX, u64::MAX]);
    assert_eq!(r.total_ns, 2 * (u64::MAX as u128));
    assert_eq!(r.mean_ns, u64::MAX);
}

#[test]
fn failed_runs_count_as_zero() {
    assert_eq!(sample_ns(true, 1234), 1234);
    assert_eq!(sample_ns(false, 1234), 0);
}

#[test]
fn throughput_counts_only_successes() {
    let mut run = ThroughputRun::start(1_000, 1);
    assert!(run.keep_going(1_000));
    assert!(run.keep_going(1_000_999));
    assert!(!run.keep_going(1_001_000));
    run.record(true, 5);
    run.record(false, 99);
    run.record(true, 1);
    run.record(true, 3);
    let r = run.finish("tput".to_string());
    assert_eq!(r.label, "tput");
    assert_eq!(r.iterations, 3);
    assert_eq!(r.total_ns, 9);
    assert_eq!(r.p50_ns, 3);
}

#[test]
fn throughput_zero_window_runs_nothing() {
    let run = ThroughputRun::start(500, 0);
    assert!(!run.keep_going(500));
    assert!(!run.keep_going(10_000));
    let r = run.finish("tput".to_string());
    assert_eq!(r.iterations, 0);
    assert_eq!((r.total_ns, r.mean_ns, r.p99_ns), (0, 0, 0));
}

#[test]
fn throughput_window_saturates() {
    let run = ThroughputRun::start(u64::MAX - 5, u64::MAX);
    assert!(run.keep_going(u64::MAX - 1));
    assert!(!run.keep_going(u64::MAX));
}

#[test]
fn summary_ignores_sample_order() {
    let a = summarize("o".to_string(), vec![9, 1, 7, 3, 5]);
    let b = summarize("o".to_string(), vec![1, 3, 5, 7, 9]);
    assert_eq!(
        (a.iterations, a.total_ns, a.mean_ns, a.p50_ns, a.p95_ns, a.p99_ns),
        (b.iterations, b.total_ns, b.mean_ns, b.p50_ns, b.p95_ns, b.p99_ns)
    );
}

#[test]
fn benchmark_labels() {
    assert_eq!(screenshot_label(), "screenshot");
    assert_eq!(key_tap_label("enter"), "key_tap:enter");
    assert_eq!(mouse_click_label(-12, 340), "mouse_click:-12,340");
    assert_eq!(mouse_click_label(i32::MIN, 0), "mouse_click:-2147483648,0");
}

#[test]
fn report_push_appends() {
    let mut rep = BenchReport::default();
    rep.push(summarize("a".to_string(), vec![1]));
    rep.push(summarize("b".to_string(), vec![2]));
    assert_eq!(rep.results.len(), 2);
    assert_eq!(rep.results[1].label, "b");
}
