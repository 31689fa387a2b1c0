use kubewatch::metrics::node::{interpolate, NodeMetricCollector};

const SECOND: u64 = 1_000_000_000;

fn collector(samples: &[(i64, u64)]) -> NodeMetricCollector {
    let mut c = NodeMetricCollector::new();
    for (time, cpu) in samples {
        assert!(c.accepts(*time, *cpu));
        c.next(*time, *cpu);
    }
    c
}

#[test]
fn a_new_collector_has_seen_nothing() {
    let c = NodeMetricCollector::new();
    assert!(!c.seeded);
    assert!(c.timestamps.is_empty());
    assert!(c.rates.is_empty());
}

#[test]
fn the_first_sample_is_the_baseline_and_gives_nothing() {
    let mut c = NodeMetricCollector::new();
    assert_eq!(c.next(1000, 10 * SECOND), None);
    assert!(c.seeded);
    assert_eq!(c.prev_time, 1000);
    assert_eq!(c.prev_cpu, 10 * SECOND);
    assert!(c.timestamps.is_empty());
}

#[test]
fn half_a_second_of_cpu_in_two_seconds_is_a_quarter_of_a_core() {
    let mut c = NodeMetricCollector::new();
    assert_eq!(c.next(1000, 10 * SECOND), None);
    let point = c.next(3000, 10 * SECOND + SECOND / 2);
    // 250 000 millionths of a core are 25 percent; 4000 half milliseconds are 2000 ms.
    assert_eq!(point, Some((4000, 250_000)));
    assert_eq!(point.map(|(t, r)| (t as f64 / 2.0, r as f64 / 10_000.0)), Some((2000.0, 25.0)));
    assert_eq!(c.timestamps, vec![4000]);
    assert_eq!(c.rates, vec![250_000]);
}

#[test]
fn the_rate_is_the_growth_per_millisecond_rounded_down() {
    let mut c = collector(&[(0, 0)]);
    assert_eq!(c.next(3, 10), Some((3, 3)));
    assert_eq!(c.next(10, 10), Some((13, 0)));
    assert_eq!(c.next(11, 1_000_010), Some((21, 1_000_000)));
}

#[test]
fn the_midpoint_lies_strictly_between_the_two_samples() {
    let mut c = collector(&[(1000, 5)]);
    let (date, rate) = c.next(1001, 5).unwrap();
    assert_eq!(rate, 0);
    assert!(2 * 1000 < date && date < 2 * 1001);
    assert_eq!(date, 2001);
}

#[test]
fn the_same_sample_twice_gives_the_same_point_and_records_nothing() {
    let mut c = collector(&[(1000, 10 * SECOND)]);
    let first = c.next(3000, 11 * SECOND);
    let second = c.next(3000, 11 * SECOND);
    assert_eq!(first, Some((4000, 500_000)));
    assert_eq!(second, first);
    assert_eq!(c.timestamps.len(), 1);
    assert_eq!(c.rates.len(), 1);
    let third = c.next(3000, 11 * SECOND);
    assert_eq!(third, first);
    assert_eq!(c.timestamps.len(), 1);
}

#[test]
fn the_baseline_read_again_gives_nothing() {
    let mut c = collector(&[(1000, 7)]);
    assert_eq!(c.next(1000, 7), None);
    assert_eq!(c.next(1000, 9), None);
    assert_eq!(c.prev_cpu, 7);
    assert!(c.timestamps.is_empty());
}

#[test]
fn a_collector_refuses_a_step_back() {
    let c = collector(&[(1000, 10), (2000, 20)]);
    assert!(!c.accepts(1500, 30));
    assert!(!c.accepts(3000, 19));
    assert!(c.accepts(2000, 0));
    assert!(c.accepts(3000, 20));
    assert!(NodeMetricCollector::new().accepts(-5, 0));
}

#[test]
fn extreme_samples_do_not_overflow() {
    let mut c = collector(&[(i64::MIN, 0)]);
    assert_eq!(c.next(i64::MAX, u64::MAX), Some((-1, 1)));
    let mut c = collector(&[(i64::MAX - 1, 0)]);
    assert_eq!(c.next(i64::MAX, u64::MAX), Some((2 * (i64::MAX as i128) - 1, u64::MAX)));
    assert_eq!(c.interporlate(2 * (i64::MAX as i128) - 1), u64::MAX);
}

fn history() -> NodeMetricCollector {
    // dates 1000, 3000, 5000 (half ms); rates 100, 300, 200
    let c = collector(&[(0, 0), (1000, 100_000), (2000, 400_000), (3000, 600_000)]);
    assert_eq!(c.timestamps, vec![1000, 3000, 5000]);
    assert_eq!(c.rates, vec![100, 300, 200]);
    c
}

#[test]
fn interpolation_is_exact_at_recorded_points() {
    let c = history();
    assert_eq!(c.interporlate(1000), 100);
    assert_eq!(c.interporlate(3000), 300);
    assert_eq!(c.interporlate(5000), 200);
}

#[test]
fn interpolation_is_zero_before_the_first_point() {
    let c = history();
    assert_eq!(c.interporlate(999), 0);
    assert_eq!(c.interporlate(0), 0);
    assert_eq!(c.interporlate(-1_000_000), 0);
    assert_eq!(c.interporlate(i128::MIN), 0);
}

#[test]
fn interpolation_is_zero_after_the_last_point() {
    let c = history();
    assert_eq!(c.interporlate(5001), 0);
    assert_eq!(c.interporlate(i128::MAX), 0);
}

#[test]
fn interpolation_of_an_empty_history_is_zero() {
    assert_eq!(NodeMetricCollector::new().interporlate(0), 0);
    assert_eq!(collector(&[(1000, 5)]).interporlate(1000), 0);
}

#[test]
fn interpolation_is_linear_between_points() {
    let c = history();
    // rising: 100 + (300 - 100) * (2000 - 1000) / (3000 - 1000)
    assert_eq!(c.interporlate(2000), 200);
    assert_eq!(c.interporlate(1500), 150);
    assert_eq!(c.interporlate(1001), 100);
    assert_eq!(c.interporlate(2999), 299);
    // falling: 300 + (200 - 300) * (4000 - 3000) / (5000 - 3000)
    assert_eq!(c.interporlate(4000), 250);
    assert_eq!(c.interporlate(3001), 299);
    assert_eq!(c.interporlate(4999), 200);
}

#[test]
fn the_line_between_two_points_rounds_down() {
    assert_eq!(interpolate(1, 0, 0, 3, 10), 3);
    assert_eq!(interpolate(2, 0, 0, 3, 10), 6);
    assert_eq!(interpolate(1, 0, 10, 3, 0), 6);
    assert_eq!(interpolate(2, 0, 10, 3, 0), 3);
    assert_eq!(interpolate(0, 0, 7, 3, 9), 7);
    assert_eq!(interpolate(3, 0, 7, 3, 9), 9);
    assert_eq!(interpolate(5, 0, 4, 10, 4), 4);
}

#[test]
fn the_line_between_extreme_points_does_not_overflow() {
    let gap = u64::MAX as i128;
    assert_eq!(interpolate(gap - 1, 0, 0, gap, u64::MAX), u64::MAX - 1);
    assert_eq!(interpolate(gap - 1, 0, u64::MAX, gap, 0), 1);
    assert_eq!(interpolate(1, 0, u64::MAX, gap, 0), u64::MAX - 1);
    assert_eq!(interpolate(-5, -5 - gap, 3, -5, u64::MAX), u64::MAX);
}

#[test]
fn rates_are_never_negative() {
    let mut c = collector(&[(0, 0)]);
    let mut cpu = 0u64;
    for step in 1..50i64 {
        cpu += (step as u64 * 7919) % 1000;
        let (date, _rate) = c.next(step * 100, cpu).unwrap();
        assert!(2 * (step - 1) as i128 * 100 < date && date < 2 * step as i128 * 100);
    }
    assert_eq!(c.timestamps.len(), 49);
    for pair in c.timestamps.windows(2) {
        assert!(pair[0] < pair[1]);
    }
}

#[test]
fn a_total_is_kept_by_the_same_rules() {
    let mut total = kubewatch::metrics::node::TotalMetric::new();
    assert_eq!(total.next(1000, 0), None);
    assert_eq!(total.next(2000, 3 * SECOND), Some((3000, 3_000_000)));
}

#[test]
fn a_new_collector_has_its_last_sample_at_zero() {
    let c = NodeMetricCollector::new();
    assert_eq!(c.prev_cpu, 0);
    assert_eq!(c.prev_time, 0);
    assert_eq!(c, NodeMetricCollector { seeded: false, prev_cpu: 0, prev_time: 0, rates: vec![], timestamps: vec![] });
}
