use kubewatch::client::endpoint::{decimal, list_endpoint, watch_endpoint};
use kubewatch::client::error::{APIError, JsonQuery, WatcherError, WatcherErrorKind};
use kubewatch::client::json::Fallback;
use kubewatch::client::pods::{CAdvisorDaemonSetMetadata, CAdvisorPods, Pod};
use kubewatch::client::session::{
    Command, SessionEnd, SessionInput, SessionPhase, Step, WatchSession, RETRY_ALLOWANCE,
};
use kubewatch::client::watch::{DaemonSetEvent, EventKind};

fn pod(uid: &str, ready: bool) -> Pod {
    Pod::new(uid.to_string(), "kube-system".to_string(), format!("cadvisor-{uid}"), ready)
}

fn session(pods: Vec<Pod>) -> WatchSession {
    let meta = CAdvisorDaemonSetMetadata::new("k8s-app", "cadvisor", "kube-system");
    WatchSession::new(meta, CAdvisorPods { pods, version: "100".to_string() }, 60)
}

fn frame(kind: &str, uid: &str, ready: bool) -> String {
    let status = if ready { "True" } else { "False" };
    format!(
        "{{\"type\":\"{kind}\",\"object\":{{\"metadata\":{{\"name\":\"cadvisor-{uid}\",\"namespace\":\"kube-system\",\"uid\":\"{uid}\"}},\"status\":{{\"conditions\":[{{\"type\":\"Ready\",\"status\":\"{status}\"}}]}}}}}}\n"
    )
}

fn listing(version: &str, pods: &[(&str, bool)]) -> Vec<u8> {
    let items: Vec<String> = pods
        .iter()
        .map(|(uid, ready)| {
            let status = if *ready { "True" } else { "False" };
            format!(
                "{{\"metadata\":{{\"name\":\"cadvisor-{uid}\",\"namespace\":\"kube-system\",\"uid\":\"{uid}\"}},\"status\":{{\"conditions\":[{{\"type\":\"Ready\",\"status\":\"{status}\"}}]}}}}"
            )
        })
        .collect();
    format!(
        "{{\"kind\":\"PodList\",\"apiVersion\":\"v1\",\"metadata\":{{\"resourceVersion\":\"{version}\"}},\"items\":[{}]}}",
        items.join(",")
    )
    .into_bytes()
}

fn quiet(step: &Step) -> bool {
    step.events.is_empty() && step.fallbacks.is_empty() && step.end.is_none()
}

fn transport() -> APIError {
    APIError::Http(reqwest::Client::new().get("not a url").build().unwrap_err())
}

fn refusal() -> APIError {
    APIError::Response(k8s_openapi::apimachinery::pkg::apis::meta::v1::Status {
        code: Some(410),
        ..Default::default()
    })
}

fn failure(step: Step) -> WatcherError {
    match step.end {
        Some(SessionEnd::Failed(error)) => error,
        other => panic!("expected a failure, got {other:?}"),
    }
}

fn streaming(pods: Vec<Pod>) -> WatchSession {
    let mut s = session(pods);
    assert!(quiet(&s.step(SessionInput::Connected)));
    assert_eq!(s.phase, SessionPhase::Streaming);
    s
}

#[test]
fn the_allowance_is_five() {
    assert_eq!(RETRY_ALLOWANCE, 5);
}

#[test]
fn numbers_are_written_in_decimal() {
    assert_eq!(decimal(0), "0");
    assert_eq!(decimal(7), "7");
    assert_eq!(decimal(10), "10");
    assert_eq!(decimal(60), "60");
    assert_eq!(decimal(1234567890), "1234567890");
    assert_eq!(decimal(u64::MAX), "18446744073709551615");
}

#[test]
fn the_list_path_names_namespace_and_selector() {
    let meta = CAdvisorDaemonSetMetadata::new("k8s-app", "cadvisor", "kube-system");
    assert_eq!(list_endpoint(&meta), "/api/v1/namespaces/kube-system/pods?labelSelector=k8s-app=cadvisor");
}

#[test]
fn the_watch_path_adds_cursor_and_timeout() {
    let meta = CAdvisorDaemonSetMetadata::new("k8s-app", "cadvisor", "kube-system");
    assert_eq!(
        watch_endpoint(&meta, &"8812".to_string(), 10),
        "/api/v1/namespaces/kube-system/pods?labelSelector=k8s-app=cadvisor&watch=true&resourceVersion=8812&timeoutSeconds=10"
    );
}

#[test]
fn a_new_session_is_about_to_connect() {
    let s = session(vec![pod("a", true)]);
    assert_eq!(s.phase, SessionPhase::Connecting);
    assert_eq!(s.retries_left, 5);
    assert!(s.pending.is_empty());
    assert_eq!(
        s.command(),
        Command::Connect(
            "/api/v1/namespaces/kube-system/pods?labelSelector=k8s-app=cadvisor&watch=true&resourceVersion=100&timeoutSeconds=60"
                .to_string()
        )
    );
}

#[test]
fn each_phase_has_its_command() {
    let mut s = session(vec![]);
    s.phase = SessionPhase::Streaming;
    assert_eq!(s.command(), Command::Read);
    s.phase = SessionPhase::Reconciling;
    assert_eq!(
        s.command(),
        Command::List("/api/v1/namespaces/kube-system/pods?labelSelector=k8s-app=cadvisor".to_string())
    );
    s.phase = SessionPhase::Terminated;
    assert_eq!(s.command(), Command::Stop);
    s.phase = SessionPhase::Failed;
    assert_eq!(s.command(), Command::Stop);
}

#[test]
fn a_request_that_could_not_be_sent_is_sent_again_five_times() {
    let mut s = session(vec![]);
    for left in (0..5).rev() {
        let step = s.step(SessionInput::ConnectFailed(transport()));
        assert!(quiet(&step));
        assert_eq!(s.phase, SessionPhase::Connecting);
        assert_eq!(s.retries_left, left);
        assert!(matches!(s.command(), Command::Connect(_)));
    }
    let error = failure(s.step(SessionInput::ConnectFailed(transport())));
    assert_eq!(error.cause, WatcherErrorKind::StreamRetrieveError);
    assert!(matches!(error.error, APIError::Http(_)));
    assert_eq!(s.phase, SessionPhase::Failed);
    assert_eq!(s.retries_left, 0);
    assert_eq!(s.command(), Command::Stop);
}

#[test]
fn a_refused_request_is_surfaced_at_once() {
    let mut s = session(vec![]);
    let step = s.step(SessionInput::ConnectFailed(refusal()));
    assert!(step.events.is_empty());
    let error = failure(step);
    assert_eq!(error.cause, WatcherErrorKind::StreamRetrieveError);
    match error.error {
        APIError::Response(status) => assert_eq!(status.code, Some(410)),
        other => panic!("expected the status, got {other:?}"),
    }
    assert_eq!(s.phase, SessionPhase::Failed);
    assert_eq!(s.retries_left, 5);
    assert_eq!(s.command(), Command::Stop);
}

#[test]
fn a_refusal_is_surfaced_at_once_whatever_the_error() {
    for error in [transport(), refusal(), APIError::ChannelSenderDropped] {
        let mut s = session(vec![]);
        let error = failure(s.step(SessionInput::Refused(error)));
        assert_eq!(error.cause, WatcherErrorKind::StreamRetrieveError);
        assert_eq!(s.phase, SessionPhase::Failed);
        assert_eq!(s.retries_left, 5);
    }
}

#[test]
fn an_error_that_is_no_transport_error_is_not_retried() {
    let mut s = session(vec![]);
    let error = failure(s.step(SessionInput::ConnectFailed(APIError::ChannelReceiverDropped)));
    assert_eq!(error.cause, WatcherErrorKind::StreamRetrieveError);
    assert!(matches!(error.error, APIError::ChannelReceiverDropped));
    assert_eq!(s.phase, SessionPhase::Failed);
}

#[test]
fn a_refusal_after_failed_sends_ends_the_session() {
    let mut s = session(vec![]);
    assert!(quiet(&s.step(SessionInput::ConnectFailed(transport()))));
    assert!(quiet(&s.step(SessionInput::ConnectFailed(transport()))));
    let error = failure(s.step(SessionInput::ConnectFailed(refusal())));
    assert!(matches!(error.error, APIError::Response(_)));
    assert_eq!(s.retries_left, 3);
}

#[test]
fn a_connect_that_succeeds_after_failures_streams() {
    let mut s = session(vec![]);
    assert!(quiet(&s.step(SessionInput::ConnectFailed(transport()))));
    assert!(quiet(&s.step(SessionInput::Connected)));
    assert_eq!(s.phase, SessionPhase::Streaming);
}

#[test]
fn the_allowance_is_fresh_after_each_reconciliation() {
    let mut s = session(vec![]);
    for _ in 0..3 {
        s.step(SessionInput::ConnectFailed(transport()));
    }
    assert_eq!(s.retries_left, 2);
    s.step(SessionInput::Connected);
    s.step(SessionInput::StreamEnded);
    assert!(quiet(&s.step(SessionInput::Listed(Ok(listing("101", &[]))))));
    assert_eq!(s.phase, SessionPhase::Connecting);
    assert_eq!(s.retries_left, 5);
}

#[test]
fn a_modified_frame_of_a_ready_pod_pauses_it_and_nothing_else() {
    let mut s = streaming(vec![pod("podA", true)]);
    let step = s.step(SessionInput::Chunk(frame("MODIFIED", "podA", false).into_bytes()));
    assert!(step.end.is_none());
    assert_eq!(step.events, vec![DaemonSetEvent { pod: pod("podA", false), kind: EventKind::Paused }]);
    assert_eq!(s.state.pods, vec![pod("podA", false)]);
    assert_eq!(s.phase, SessionPhase::Streaming);
}

#[test]
fn a_stream_that_ends_without_frames_is_reconciled() {
    let mut s = streaming(vec![pod("podA", true)]);
    assert!(quiet(&s.step(SessionInput::StreamEnded)));
    assert_eq!(s.phase, SessionPhase::Reconciling);
    let step = s.step(SessionInput::Listed(Ok(listing("200", &[("podA", true), ("podB", true)]))));
    assert!(step.end.is_none());
    assert_eq!(step.events, vec![DaemonSetEvent { pod: pod("podB", true), kind: EventKind::Created }]);
    assert_eq!(s.phase, SessionPhase::Connecting);
    assert_eq!(s.state.version, "200");
    assert_eq!(s.state.pods, vec![pod("podA", true), pod("podB", true)]);
    assert_eq!(
        s.command(),
        Command::Connect(
            "/api/v1/namespaces/kube-system/pods?labelSelector=k8s-app=cadvisor&watch=true&resourceVersion=200&timeoutSeconds=60"
                .to_string()
        )
    );
}

#[test]
fn a_frame_may_arrive_in_pieces() {
    let mut s = streaming(vec![]);
    let whole = frame("ADDED", "a", true).into_bytes();
    let (head, tail) = whole.split_at(25);
    assert!(quiet(&s.step(SessionInput::Chunk(head.to_vec()))));
    assert_eq!(s.pending, head.to_vec());
    let step = s.step(SessionInput::Chunk(tail.to_vec()));
    assert_eq!(step.events, vec![DaemonSetEvent { pod: pod("a", true), kind: EventKind::Created }]);
    assert!(s.pending.is_empty());
}

#[test]
fn what_is_pending_survives_a_reconciliation() {
    let mut s = streaming(vec![]);
    s.step(SessionInput::Chunk(b"{\"type\":".to_vec()));
    s.step(SessionInput::StreamEnded);
    s.step(SessionInput::Listed(Ok(listing("2", &[]))));
    assert_eq!(s.pending, b"{\"type\":".to_vec());
}

#[test]
fn a_chunk_with_a_broken_frame_fails_before_anything_is_applied() {
    let mut s = streaming(vec![]);
    let chunk = format!("{}garbage\n", frame("ADDED", "a", true));
    let step = s.step(SessionInput::Chunk(chunk.into_bytes()));
    assert!(step.events.is_empty());
    assert!(s.state.pods.is_empty());
    let error = failure(step);
    assert_eq!(error.cause, WatcherErrorKind::StreamNextError);
    assert!(matches!(error.error, APIError::JsonParse(_)));
    assert_eq!(s.phase, SessionPhase::Failed);
}

#[test]
fn a_frame_without_uid_fails_after_the_events_before_it() {
    let mut s = streaming(vec![]);
    let chunk = format!(
        "{}{}",
        frame("ADDED", "a", true),
        "{\"type\":\"ADDED\",\"object\":{\"metadata\":{\"name\":\"x\",\"namespace\":\"y\"}}}\n"
    );
    let step = s.step(SessionInput::Chunk(chunk.into_bytes()));
    assert_eq!(step.events, vec![DaemonSetEvent { pod: pod("a", true), kind: EventKind::Created }]);
    let error = failure(step);
    assert_eq!(error.cause, WatcherErrorKind::StreamNextError);
    assert!(matches!(error.error, APIError::JsonQuery(JsonQuery::NoUid)));
    assert_eq!(s.phase, SessionPhase::Failed);
}

#[test]
fn a_modification_of_an_unknown_pod_ends_the_session() {
    let mut s = streaming(vec![]);
    let step = s.step(SessionInput::Chunk(frame("MODIFIED", "ghost", true).into_bytes()));
    assert!(step.events.is_empty());
    match step.end {
        Some(SessionEnd::UnknownPod(unknown)) => assert_eq!(unknown, pod("ghost", true)),
        other => panic!("expected an unknown pod, got {other:?}"),
    }
    assert_eq!(s.phase, SessionPhase::Failed);
}

#[test]
fn a_broken_stream_is_a_stream_error() {
    let mut s = streaming(vec![]);
    let error = failure(s.step(SessionInput::StreamFailed(APIError::ChannelSenderDropped)));
    assert_eq!(error.cause, WatcherErrorKind::StreamNextError);
    assert_eq!(s.phase, SessionPhase::Failed);
}

#[test]
fn a_listing_that_fails_is_a_reconciliation_error() {
    let mut s = streaming(vec![pod("a", true)]);
    s.step(SessionInput::StreamEnded);
    let error = failure(s.step(SessionInput::Listed(Err(APIError::ChannelSenderDropped))));
    assert_eq!(error.cause, WatcherErrorKind::ReconilationError);
    assert!(matches!(error.error, APIError::ChannelSenderDropped));
    assert_eq!(s.state.pods, vec![pod("a", true)]);
}

#[test]
fn a_listing_without_cursor_is_a_reconciliation_error() {
    let mut s = streaming(vec![]);
    s.step(SessionInput::StreamEnded);
    let body = b"{\"kind\":\"PodList\",\"apiVersion\":\"v1\",\"metadata\":{},\"items\":[]}".to_vec();
    let error = failure(s.step(SessionInput::Listed(Ok(body))));
    assert_eq!(error.cause, WatcherErrorKind::ReconilationError);
    assert!(matches!(error.error, APIError::JsonQuery(JsonQuery::NoResourceVersion)));
}

#[test]
fn a_listing_that_is_no_json_is_a_reconciliation_error() {
    let mut s = streaming(vec![]);
    s.step(SessionInput::StreamEnded);
    let error = failure(s.step(SessionInput::Listed(Ok(b"oops".to_vec()))));
    assert_eq!(error.cause, WatcherErrorKind::ReconilationError);
    assert!(matches!(error.error, APIError::JsonParse(_)));
}

#[test]
fn the_stop_signal_ends_every_phase_silently() {
    for phase in [SessionPhase::Connecting, SessionPhase::Streaming, SessionPhase::Reconciling] {
        let mut s = session(vec![pod("a", true)]);
        s.phase = phase;
        let step = s.step(SessionInput::Killed);
        assert!(step.events.is_empty());
        assert!(matches!(step.end, Some(SessionEnd::Killed)));
        assert_eq!(s.phase, SessionPhase::Terminated);
        assert_eq!(s.command(), Command::Stop);
    }
}

#[test]
fn a_session_that_is_over_stays_as_it_is() {
    let mut s = streaming(vec![pod("a", true)]);
    s.step(SessionInput::Killed);
    for input in [
        SessionInput::Connected,
        SessionInput::Chunk(frame("DELETED", "a", true).into_bytes()),
        SessionInput::StreamEnded,
        SessionInput::Killed,
        SessionInput::Listed(Ok(listing("9", &[]))),
    ] {
        assert!(quiet(&s.step(input)));
        assert_eq!(s.phase, SessionPhase::Terminated);
        assert_eq!(s.state.pods, vec![pod("a", true)]);
    }
}

#[test]
fn an_input_that_the_phase_does_not_await_changes_nothing() {
    let mut s = session(vec![pod("a", true)]);
    assert!(quiet(&s.step(SessionInput::Chunk(frame("DELETED", "a", true).into_bytes()))));
    assert!(quiet(&s.step(SessionInput::StreamEnded)));
    assert!(quiet(&s.step(SessionInput::Listed(Ok(listing("9", &[]))))));
    assert_eq!(s.phase, SessionPhase::Connecting);
    assert_eq!(s.state.pods, vec![pod("a", true)]);
    let mut s = streaming(vec![pod("a", true)]);
    assert!(quiet(&s.step(SessionInput::Connected)));
    assert!(quiet(&s.step(SessionInput::ConnectFailed(transport()))));
    assert!(quiet(&s.step(SessionInput::Refused(refusal()))));
    assert_eq!(s.phase, SessionPhase::Streaming);
}

#[test]
fn uids_stay_unique_over_frames_and_reconciliations() {
    let mut s = streaming(vec![pod("a", true)]);
    let rounds: [&[(&str, bool)]; 3] = [&[("a", true), ("b", false)], &[("c", true)], &[("a", false), ("c", true)]];
    for (n, listed) in rounds.iter().enumerate() {
        for (kind, uid, ready) in [("ADDED", "a", true), ("ADDED", "b", true), ("ADDED", "a", false), ("DELETED", "b", true)] {
            s.step(SessionInput::Chunk(frame(kind, uid, ready).into_bytes()));
        }
        s.step(SessionInput::StreamEnded);
        s.step(SessionInput::Listed(Ok(listing(&format!("{n}"), listed))));
        s.step(SessionInput::Connected);
        assert_eq!(s.phase, SessionPhase::Streaming);
        for i in 0..s.state.pods.len() {
            for j in (i + 1)..s.state.pods.len() {
                assert_ne!(s.state.pods[i].uid, s.state.pods[j].uid);
            }
        }
    }
}

#[test]
fn a_listing_that_names_a_uid_twice_mirrors_it_once() {
    let mut s = streaming(vec![pod("a", true)]);
    s.step(SessionInput::StreamEnded);
    let step = s.step(SessionInput::Listed(Ok(listing("7", &[("a", true), ("b", true), ("a", false)]))));
    assert!(step.end.is_none());
    assert_eq!(s.state.pods, vec![pod("b", true), pod("a", false)]);
    assert_eq!(
        step.events,
        vec![
            DaemonSetEvent { pod: pod("b", true), kind: EventKind::Created },
            DaemonSetEvent { pod: pod("a", false), kind: EventKind::Paused },
        ]
    );
}

#[test]
fn a_frame_whose_readiness_cannot_be_read_is_warned_of() {
    let mut s = streaming(vec![]);
    let chunk = format!(
        "{}{}",
        "{\"type\":\"ADDED\",\"object\":{\"metadata\":{\"name\":\"cadvisor-x\",\"namespace\":\"kube-system\",\"uid\":\"x\"}}}\n",
        frame("ADDED", "a", true)
    );
    let step = s.step(SessionInput::Chunk(chunk.into_bytes()));
    assert!(step.end.is_none());
    assert_eq!(step.events.len(), 2);
    assert_eq!(step.events[0].pod, pod("x", false));
    assert_eq!(
        step.fallbacks,
        vec![Fallback { uid: "x".to_string(), name: "cadvisor-x".to_string(), missing: JsonQuery::NoStatus }]
    );
}

#[test]
fn a_listed_pod_whose_readiness_cannot_be_read_is_warned_of() {
    let mut s = streaming(vec![]);
    s.step(SessionInput::StreamEnded);
    let body = "{\"kind\":\"PodList\",\"apiVersion\":\"v1\",\"metadata\":{\"resourceVersion\":\"5\"},\"items\":[{\"metadata\":{\"name\":\"cadvisor-x\",\"namespace\":\"kube-system\",\"uid\":\"x\"},\"status\":{\"conditions\":[{\"type\":\"Initialized\",\"status\":\"True\"}]}}]}";
    let step = s.step(SessionInput::Listed(Ok(body.as_bytes().to_vec())));
    assert!(step.end.is_none());
    assert_eq!(step.events, vec![DaemonSetEvent { pod: pod("x", false), kind: EventKind::Created }]);
    assert_eq!(
        step.fallbacks,
        vec![Fallback {
            uid: "x".to_string(),
            name: "cadvisor-x".to_string(),
            missing: JsonQuery::NoReadyCondition
        }]
    );
}
