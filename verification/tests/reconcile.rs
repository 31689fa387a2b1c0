use kubewatch::client::error::{APIError, JsonQuery, WatcherError, WatcherErrorKind};
use kubewatch::client::json::{Fallback, JsonPod, PodCondition, PodList, PodStatus};
use kubewatch::client::pods::{CAdvisorPods, Pod};
use kubewatch::client::reconcile::{diff, get_daemon_set_pods, pods_of_list, reconcile, Listed};
use kubewatch::client::watch::{DaemonSetEvent, EventKind};

fn pod(uid: &str, ready: bool) -> Pod {
    Pod::new(uid.to_string(), "kube-system".to_string(), format!("cadvisor-{uid}"), ready)
}

fn state(version: &str, pods: Vec<Pod>) -> CAdvisorPods {
    CAdvisorPods { pods, version: version.to_string() }
}

fn event(uid: &str, ready: bool, kind: EventKind) -> DaemonSetEvent {
    DaemonSetEvent { pod: pod(uid, ready), kind }
}

#[test]
fn equal_states_give_no_event() {
    let old = state("1", vec![pod("a", true), pod("b", false)]);
    let new = state("2", vec![pod("b", false), pod("a", true)]);
    assert_eq!(diff(&old, &new), vec![]);
}

#[test]
fn a_uid_only_in_the_listing_is_created() {
    let old = state("1", vec![pod("a", true)]);
    let new = state("2", vec![pod("a", true), pod("b", true)]);
    assert_eq!(diff(&old, &new), vec![event("b", true, EventKind::Created)]);
}

#[test]
fn a_uid_only_in_the_mirror_is_deleted() {
    let old = state("1", vec![pod("a", true), pod("b", false)]);
    let new = state("2", vec![pod("a", true)]);
    assert_eq!(diff(&old, &new), vec![event("b", false, EventKind::Deleted)]);
}

#[test]
fn a_changed_readiness_is_paused_or_resumed() {
    let old = state("1", vec![pod("a", true), pod("b", false)]);
    let new = state("2", vec![pod("a", false), pod("b", true)]);
    assert_eq!(
        diff(&old, &new),
        vec![event("a", false, EventKind::Paused), event("b", true, EventKind::Resumed)]
    );
}

#[test]
fn disjoint_states_give_one_event_per_uid() {
    let old = state("1", vec![pod("a", true), pod("b", false)]);
    let new = state("2", vec![pod("c", false), pod("d", true)]);
    assert_eq!(
        diff(&old, &new),
        vec![
            event("c", false, EventKind::Created),
            event("d", true, EventKind::Created),
            event("a", true, EventKind::Deleted),
            event("b", false, EventKind::Deleted),
        ]
    );
}

#[test]
fn overlapping_states_give_one_event_per_difference() {
    let old = state("1", vec![pod("keep", true), pod("flip", true), pod("gone", true)]);
    let new = state("2", vec![pod("new", false), pod("flip", false), pod("keep", true)]);
    let events = diff(&old, &new);
    assert_eq!(
        events,
        vec![
            event("new", false, EventKind::Created),
            event("flip", false, EventKind::Paused),
            event("gone", true, EventKind::Deleted),
        ]
    );
    for uid in ["keep", "flip", "gone", "new"] {
        let count = events.iter().filter(|e| e.pod.uid == uid).count();
        assert_eq!(count, if uid == "keep" { 0 } else { 1 });
    }
}

#[test]
fn empty_states_give_no_event() {
    assert_eq!(diff(&state("1", vec![]), &state("2", vec![])), vec![]);
    assert_eq!(diff(&state("1", vec![]), &state("2", vec![pod("a", true)])), vec![event("a", true, EventKind::Created)]);
    assert_eq!(diff(&state("1", vec![pod("a", true)]), &state("2", vec![])), vec![event("a", true, EventKind::Deleted)]);
}

#[test]
fn reconcile_hands_back_the_listing_and_the_events() {
    let old = state("1", vec![pod("a", true)]);
    let new = state("9", vec![pod("a", true), pod("b", true)]);
    let (after, events) = reconcile(&old, Ok(new.clone())).unwrap();
    assert_eq!(after, new);
    assert_eq!(events, vec![event("b", true, EventKind::Created)]);
}

#[test]
fn reconcile_fails_on_a_listing_that_could_not_be_had() {
    let old = state("1", vec![pod("a", true)]);
    let error = reconcile(&old, Err(APIError::ChannelSenderDropped)).unwrap_err();
    assert_eq!(error.cause, WatcherErrorKind::ReconilationError);
    assert!(matches!(error.error, APIError::ChannelSenderDropped));
}

fn item(name: &str, uid: Option<&str>, ready: &str) -> JsonPod {
    JsonPod {
        name: Some(name.to_string()),
        namespace: Some("kube-system".to_string()),
        uid: uid.map(str::to_string),
        status: Some(PodStatus {
            conditions: Some(vec![PodCondition { type_: "Ready".to_string(), status: ready.to_string() }]),
        }),
    }
}

#[test]
fn a_listing_becomes_a_state() {
    let list = PodList {
        resource_version: Some("42".to_string()),
        items: vec![item("cadvisor-a", Some("a"), "True"), item("cadvisor-b", Some("b"), "False")],
    };
    assert_eq!(pods_of_list(list).unwrap().state, state("42", vec![pod("a", true), pod("b", false)]));
}

#[test]
fn a_listing_without_cursor_is_refused_first() {
    let list = PodList { resource_version: None, items: vec![item("x", None, "True")] };
    assert!(matches!(pods_of_list(list), Err(APIError::JsonQuery(JsonQuery::NoResourceVersion))));
}

#[test]
fn the_first_unreadable_item_refuses_the_listing() {
    let mut nameless = item("x", Some("u"), "True");
    nameless.name = None;
    let list = PodList {
        resource_version: Some("1".to_string()),
        items: vec![item("a", Some("a"), "True"), item("b", None, "True"), nameless],
    };
    assert!(matches!(pods_of_list(list), Err(APIError::JsonQuery(JsonQuery::NoUid))));
}

#[test]
fn an_empty_listing_is_an_empty_state() {
    let list = PodList { resource_version: Some("3".to_string()), items: vec![] };
    assert_eq!(pods_of_list(list).unwrap().state, state("3", vec![]));
}

const LIST: &str = r#"{"kind":"PodList","apiVersion":"v1","metadata":{"resourceVersion":"1234"},"items":[
  {"metadata":{"name":"cadvisor-a","namespace":"kube-system","uid":"a"},"status":{"conditions":[{"type":"Ready","status":"True"}]}},
  {"metadata":{"name":"cadvisor-b","namespace":"kube-system","uid":"b"},"status":{"phase":"Pending"}}
]}"#;

#[test]
fn a_list_response_is_decoded_and_read() {
    assert_eq!(
        get_daemon_set_pods(LIST.as_bytes()).unwrap(),
        Listed {
            state: state("1234", vec![pod("a", true), pod("b", false)]),
            fallbacks: vec![Fallback {
                uid: "b".to_string(),
                name: "cadvisor-b".to_string(),
                missing: JsonQuery::NoCondition
            }],
        }
    );
}

#[test]
fn a_list_response_that_is_no_json_is_a_parse_error() {
    assert!(matches!(get_daemon_set_pods(b"<html>"), Err(APIError::JsonParse(_))));
    assert!(matches!(get_daemon_set_pods(b""), Err(APIError::JsonParse(_))));
}

#[test]
fn a_list_response_of_another_kind_is_a_parse_error() {
    let body = LIST.replace("PodList", "NodeList");
    assert!(matches!(get_daemon_set_pods(body.as_bytes()), Err(APIError::JsonParse(_))));
}

#[test]
fn a_list_response_without_cursor_is_refused() {
    let body = LIST.replace(r#""resourceVersion":"1234""#, "");
    assert!(matches!(
        get_daemon_set_pods(body.as_bytes()),
        Err(APIError::JsonQuery(JsonQuery::NoResourceVersion))
    ));
}

#[test]
fn a_list_response_with_a_pod_without_uid_is_refused() {
    let body = LIST.replace(r#","uid":"b""#, "");
    assert!(matches!(get_daemon_set_pods(body.as_bytes()), Err(APIError::JsonQuery(JsonQuery::NoUid))));
}

#[test]
fn a_watcher_error_names_the_step_that_failed() {
    use_error(WatcherError::recon(APIError::CPUMetricNotFound), WatcherErrorKind::ReconilationError);
    use_error(WatcherError::stream(APIError::CPUMetricNotFound), WatcherErrorKind::StreamRetrieveError);
    use_error(WatcherError::next(APIError::CPUMetricNotFound), WatcherErrorKind::StreamNextError);
    let gone = WatcherError::terminate();
    assert_eq!(gone.cause, WatcherErrorKind::Termination);
    assert!(matches!(gone.error, APIError::WatcherTermination));
}

fn use_error(error: WatcherError, cause: WatcherErrorKind) {
    assert_eq!(error.cause, cause);
    assert!(matches!(error.error, APIError::CPUMetricNotFound));
}

#[test]
fn a_uid_that_is_listed_twice_is_mirrored_once_as_listed_last() {
    let list = PodList {
        resource_version: Some("8".to_string()),
        items: vec![
            item("cadvisor-a", Some("a"), "True"),
            item("cadvisor-b", Some("b"), "True"),
            item("cadvisor-a", Some("a"), "False"),
            item("cadvisor-c", Some("c"), "False"),
            item("cadvisor-b", Some("b"), "True"),
        ],
    };
    let listed = pods_of_list(list).unwrap();
    assert_eq!(listed.state, state("8", vec![pod("a", false), pod("c", false), pod("b", true)]));
    assert!(listed.fallbacks.is_empty());
}

#[test]
fn listed_pods_whose_readiness_cannot_be_read_are_warned_of() {
    let mut bare = item("cadvisor-a", Some("a"), "True");
    bare.status = None;
    let mut empty = item("cadvisor-b", Some("b"), "True");
    empty.status = Some(PodStatus { conditions: Some(vec![]) });
    let list = PodList {
        resource_version: Some("8".to_string()),
        items: vec![bare, item("cadvisor-c", Some("c"), "False"), empty],
    };
    let listed = pods_of_list(list).unwrap();
    assert_eq!(listed.state, state("8", vec![pod("a", false), pod("c", false), pod("b", false)]));
    assert_eq!(
        listed.fallbacks,
        vec![
            Fallback { uid: "a".to_string(), name: "cadvisor-a".to_string(), missing: JsonQuery::NoStatus },
            Fallback {
                uid: "b".to_string(),
                name: "cadvisor-b".to_string(),
                missing: JsonQuery::NoReadyCondition
            },
        ]
    );
}
