use kubewatch::client::error::{APIError, WatcherError, WatcherErrorKind};
use kubewatch::client::pods::Pod;
use kubewatch::client::watch::{DaemonSetEvent, EventKind};
use kubewatch::metrics::controller::{Controller, Directive};
use kubewatch::metrics::uids::UidSet;

const SECOND: u64 = 1_000_000_000;

fn pod(uid: &str, ready: bool) -> Pod {
    Pod::new(uid.to_string(), "kube-system".to_string(), format!("cadvisor-{uid}"), ready)
}

fn event(uid: &str, ready: bool, kind: EventKind) -> Result<DaemonSetEvent, WatcherError> {
    Ok(DaemonSetEvent { pod: pod(uid, ready), kind })
}

fn uids(set: &UidSet) -> Vec<&str> {
    set.uids.iter().map(String::as_str).collect()
}

fn handle(c: &mut Controller, e: Result<DaemonSetEvent, WatcherError>) -> Directive {
    assert!(c.can_handle(&e));
    c.handle_event(e)
}

fn sample(c: &mut Controller, uid: &str, time: i64, cpu: u64) -> Option<(i128, u128)> {
    let uid = uid.to_string();
    assert!(c.accepts(&uid, time, cpu));
    c.handle_sample(&uid, time, cpu)
}

fn fleet(pods: &[(&str, bool)]) -> Controller {
    let mut c = Controller::new();
    for (uid, ready) in pods {
        handle(&mut c, event(uid, *ready, EventKind::Created));
    }
    c
}

#[test]
fn a_created_pod_gets_a_querier_in_the_state_of_its_readiness() {
    let mut c = Controller::new();
    match handle(&mut c, event("a", true, EventKind::Created)) {
        Directive::Spawn(spawned) => assert_eq!(spawned, pod("a", true)),
        other => panic!("expected a spawn, got {other:?}"),
    }
    match handle(&mut c, event("b", false, EventKind::Created)) {
        Directive::Spawn(spawned) => assert_eq!(spawned, pod("b", false)),
        other => panic!("expected a spawn, got {other:?}"),
    }
    assert_eq!(uids(&c.running), vec!["a"]);
    assert_eq!(uids(&c.paused), vec!["b"]);
    assert!(c.is_known(&"a".to_string()));
    assert!(c.is_known(&"b".to_string()));
    assert!(!c.is_known(&"c".to_string()));
    assert!(c.collectors.is_empty());
}

#[test]
fn a_paused_pod_moves_to_the_paused_queriers() {
    let mut c = fleet(&[("a", true), ("b", true)]);
    assert!(matches!(handle(&mut c, event("a", false, EventKind::Paused)), Directive::Pause(uid) if uid == "a"));
    assert_eq!(uids(&c.running), vec!["b"]);
    assert_eq!(uids(&c.paused), vec!["a"]);
}

#[test]
fn a_resumed_pod_moves_to_the_running_queriers() {
    let mut c = fleet(&[("a", false), ("b", true)]);
    assert!(matches!(handle(&mut c, event("a", true, EventKind::Resumed)), Directive::Resume(uid) if uid == "a"));
    assert_eq!(uids(&c.running), vec!["b", "a"]);
    assert!(c.paused.uids.is_empty());
}

#[test]
fn a_deleted_pod_loses_its_querier_and_its_history() {
    let mut c = fleet(&[("a", true), ("b", false)]);
    sample(&mut c, "a", 1000, 0);
    sample(&mut c, "b", 1000, 0);
    assert_eq!(c.collectors.len(), 2);
    assert!(matches!(handle(&mut c, event("a", true, EventKind::Deleted)), Directive::Kill(uid) if uid == "a"));
    assert!(c.running.uids.is_empty());
    assert_eq!(c.collectors.len(), 1);
    assert_eq!(c.collectors[0].uid, "b");
    assert!(matches!(handle(&mut c, event("b", true, EventKind::Deleted)), Directive::Kill(uid) if uid == "b"));
    assert!(c.paused.uids.is_empty());
    assert!(c.collectors.is_empty());
}

#[test]
fn a_deleted_pod_can_be_created_again() {
    let mut c = fleet(&[("a", true)]);
    handle(&mut c, event("a", true, EventKind::Deleted));
    assert!(c.can_handle(&event("a", false, EventKind::Created)));
    handle(&mut c, event("a", false, EventKind::Created));
    assert_eq!(uids(&c.paused), vec!["a"]);
}

#[test]
fn an_error_of_the_watch_shuts_down() {
    let mut c = fleet(&[("a", true)]);
    let error = WatcherError { cause: WatcherErrorKind::StreamNextError, error: APIError::ChannelSenderDropped };
    match handle(&mut c, Err(error)) {
        Directive::Shutdown(e) => assert_eq!(e.cause, WatcherErrorKind::StreamNextError),
        other => panic!("expected a shutdown, got {other:?}"),
    }
    assert_eq!(uids(&c.running), vec!["a"]);
}

#[test]
fn events_that_do_not_fit_the_tables_are_told_apart() {
    let c = fleet(&[("run", true), ("wait", false)]);
    assert!(!c.can_handle(&event("run", true, EventKind::Created)));
    assert!(!c.can_handle(&event("wait", true, EventKind::Created)));
    assert!(!c.can_handle(&event("wait", false, EventKind::Paused)));
    assert!(!c.can_handle(&event("new", false, EventKind::Paused)));
    assert!(!c.can_handle(&event("run", true, EventKind::Resumed)));
    assert!(!c.can_handle(&event("new", true, EventKind::Deleted)));
    assert!(c.can_handle(&event("new", true, EventKind::Created)));
    assert!(c.can_handle(&event("run", false, EventKind::Paused)));
    assert!(c.can_handle(&event("wait", true, EventKind::Resumed)));
    assert!(c.can_handle(&event("run", true, EventKind::Deleted)));
    assert!(c.can_handle(&event("wait", true, EventKind::Deleted)));
}

#[test]
fn a_sample_of_a_pod_without_querier_is_dropped() {
    let mut c = fleet(&[("a", true)]);
    assert_eq!(sample(&mut c, "ghost", 1000, 5), None);
    assert!(c.collectors.is_empty());
    assert!(c.round_set.uids.is_empty());
}

#[test]
fn the_first_sample_of_a_pod_makes_its_history() {
    let mut c = fleet(&[("a", true)]);
    assert_eq!(sample(&mut c, "a", 1000, 5), None);
    assert_eq!(c.collectors.len(), 1);
    assert_eq!(c.collectors[0].uid, "a");
    assert!(c.collectors[0].history.seeded);
    assert!(c.round_set.uids.is_empty());
    assert_eq!(c.round_min, None);
}

#[test]
fn one_running_querier_completes_a_round_with_every_point() {
    let mut c = fleet(&[("a", true)]);
    assert_eq!(sample(&mut c, "a", 1000, 10 * SECOND), None);
    assert_eq!(sample(&mut c, "a", 3000, 10 * SECOND + SECOND / 2), Some((4000, 250_000)));
    assert_eq!(sample(&mut c, "a", 5000, 11 * SECOND + SECOND / 2), Some((8000, 500_000)));
    assert_eq!(c.timestamps, vec![4000, 8000]);
    assert_eq!(c.cpu_percentages, vec![250_000, 500_000]);
    assert!(c.round_set.uids.is_empty());
    assert_eq!(c.round_min, None);
}

#[test]
fn two_queriers_complete_a_round_at_the_earlier_date() {
    let mut c = fleet(&[("a", true), ("b", true)]);
    // a: rate 100 000 (10 percent) at 4000 half ms (2000 ms)
    assert_eq!(sample(&mut c, "a", 1000, 0), None);
    assert_eq!(sample(&mut c, "a", 3000, 200_000_000), None);
    assert_eq!(uids(&c.round_set), vec!["a"]);
    assert_eq!(c.round_min, Some(4000));
    // b: rate 200 000 (20 percent) at 5000 half ms (2500 ms)
    assert_eq!(sample(&mut c, "b", 2000, 0), None);
    let total = sample(&mut c, "b", 3000, 200_000_000);
    // at 2000 ms a gives its recorded 10 percent, b nothing yet: its first point is later
    let expected = c.collectors[0].history.interporlate(4000) as u128 + c.collectors[1].history.interporlate(4000) as u128;
    assert_eq!(total, Some((4000, expected)));
    assert_eq!(total, Some((4000, 100_000)));
    assert_eq!(c.timestamps, vec![4000]);
    assert_eq!(c.cpu_percentages, vec![100_000]);
    assert!(c.round_set.uids.is_empty());
    assert_eq!(c.round_min, None);
}

#[test]
fn a_round_sums_the_interpolated_rates_of_all_histories() {
    let mut c = fleet(&[("a", true), ("b", true)]);
    sample(&mut c, "a", 0, 0);
    sample(&mut c, "b", 0, 0);
    assert_eq!(sample(&mut c, "a", 1000, 100_000), None);
    assert_eq!(sample(&mut c, "b", 3000, 900_000), Some((1000, 100)));
    assert_eq!(sample(&mut c, "a", 5000, 2_100_000), None);
    // a: (1000, 100), (6000, 500); b: (3000, 300), (9000, 700); the round's date is 6000
    let total = sample(&mut c, "b", 6000, 3_000_000);
    assert_eq!(total, Some((6000, 500 + 500)));
}

#[test]
fn a_pod_counts_once_in_a_round() {
    let mut c = fleet(&[("a", true), ("b", true)]);
    sample(&mut c, "a", 0, 0);
    assert_eq!(sample(&mut c, "a", 1000, 1000), None);
    assert_eq!(sample(&mut c, "a", 2000, 2000), None);
    assert_eq!(sample(&mut c, "a", 2000, 2000), None);
    assert_eq!(uids(&c.round_set), vec!["a"]);
    assert_eq!(c.round_min, Some(1000));
}

#[test]
fn paused_queriers_do_not_hold_up_a_round() {
    let mut c = fleet(&[("a", true), ("b", false)]);
    sample(&mut c, "a", 0, 0);
    assert_eq!(sample(&mut c, "a", 1000, 5000), Some((1000, 5)));
}

#[test]
fn without_running_queriers_every_point_completes_a_round() {
    let mut c = fleet(&[("a", false)]);
    sample(&mut c, "a", 0, 0);
    assert_eq!(sample(&mut c, "a", 10, 70), Some((10, 7)));
}

#[test]
fn the_controller_refuses_a_sample_that_steps_back() {
    let mut c = fleet(&[("a", true)]);
    sample(&mut c, "a", 1000, 50);
    assert!(!c.accepts(&"a".to_string(), 999, 60));
    assert!(!c.accepts(&"a".to_string(), 1001, 49));
    assert!(c.accepts(&"other".to_string(), 0, 0));
}

#[test]
fn the_end_of_a_run_names_the_queriers_and_hands_over_the_results() {
    let mut c = fleet(&[("a", true), ("b", false), ("c", true)]);
    sample(&mut c, "a", 0, 0);
    sample(&mut c, "c", 0, 0);
    sample(&mut c, "a", 10, 100);
    sample(&mut c, "c", 10, 300);
    let (kill, result) = c.finish();
    assert_eq!(kill, vec!["a".to_string(), "c".to_string(), "b".to_string()]);
    assert_eq!(result.timestamps, vec![10]);
    assert_eq!(result.cpu_percentages, vec![40]);
    assert_eq!(result.collector_map.len(), 2);
    assert_eq!(result.collector_map[0].uid, "a");
    assert_eq!(result.collector_map[0].history.rates, vec![10]);
    assert_eq!(result.collector_map[1].history.rates, vec![30]);
}

#[test]
fn the_total_is_the_sum_over_all_histories() {
    let mut c = fleet(&[("a", true), ("b", true), ("c", true)]);
    assert_eq!(c.total(0), 0);
    for uid in ["a", "b", "c"] {
        sample(&mut c, uid, 0, 0);
    }
    sample(&mut c, "a", 10, 100);
    sample(&mut c, "b", 10, 200);
    sample(&mut c, "c", 10, 300);
    assert_eq!(c.total(10), 60);
    assert_eq!(c.total(9), 0);
    assert_eq!(c.total(11), 0);
}
