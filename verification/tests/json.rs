use kubewatch::client::error::JsonQuery;
use kubewatch::client::json::{
    parse_json_pod, parse_pod_object, readiness, JsonPod, PodCondition, PodStatus,
};
use kubewatch::client::pods::Pod;

fn condition(kind: &str, status: &str) -> PodCondition {
    PodCondition { type_: kind.to_string(), status: status.to_string() }
}

fn status(conditions: Vec<PodCondition>) -> Option<PodStatus> {
    Some(PodStatus { conditions: Some(conditions) })
}

fn object(name: Option<&str>, namespace: Option<&str>, uid: Option<&str>, status: Option<PodStatus>) -> JsonPod {
    JsonPod {
        name: name.map(str::to_string),
        namespace: namespace.map(str::to_string),
        uid: uid.map(str::to_string),
        status,
    }
}

#[test]
fn a_ready_pod_is_read() {
    let pod = object(Some("n"), Some("ns"), Some("u"), status(vec![condition("Ready", "True")]));
    assert_eq!(
        parse_json_pod(pod),
        Ok(Pod::new("u".to_string(), "ns".to_string(), "n".to_string(), true))
    );
}

#[test]
fn a_pod_that_is_not_ready_is_read() {
    let pod = object(Some("n"), Some("ns"), Some("u"), status(vec![condition("Ready", "False")]));
    assert_eq!(parse_json_pod(pod).unwrap().status, false);
    let pod = object(Some("n"), Some("ns"), Some("u"), status(vec![condition("Ready", "Unknown")]));
    assert_eq!(parse_json_pod(pod).unwrap().status, false);
}

#[test]
fn the_first_ready_condition_decides() {
    let conditions = vec![
        condition("PodScheduled", "True"),
        condition("Ready", "False"),
        condition("Ready", "True"),
    ];
    assert_eq!(readiness(&status(conditions)), Ok(false));
}

#[test]
fn readiness_names_what_is_missing() {
    assert_eq!(readiness(&None), Err(JsonQuery::NoStatus));
    assert_eq!(readiness(&Some(PodStatus { conditions: None })), Err(JsonQuery::NoCondition));
    assert_eq!(readiness(&status(vec![])), Err(JsonQuery::NoReadyCondition));
    assert_eq!(
        readiness(&status(vec![condition("Initialized", "True")])),
        Err(JsonQuery::NoReadyCondition)
    );
    assert_eq!(readiness(&status(vec![condition("ready", "True")])), Err(JsonQuery::NoReadyCondition));
}

#[test]
fn a_missing_readiness_falls_back_to_not_ready() {
    assert_eq!(parse_json_pod(object(Some("n"), Some("ns"), Some("u"), None)).unwrap().status, false);
    let no_conditions = Some(PodStatus { conditions: None });
    assert_eq!(parse_json_pod(object(Some("n"), Some("ns"), Some("u"), no_conditions)).unwrap().status, false);
    assert_eq!(parse_json_pod(object(Some("n"), Some("ns"), Some("u"), status(vec![]))).unwrap().status, false);
}

#[test]
fn a_listed_pod_without_identity_is_refused() {
    let ready = || status(vec![condition("Ready", "True")]);
    assert_eq!(parse_json_pod(object(None, Some("ns"), Some("u"), ready())), Err(JsonQuery::NoName));
    assert_eq!(parse_json_pod(object(Some("n"), Some("ns"), None, ready())), Err(JsonQuery::NoUid));
    assert_eq!(parse_json_pod(object(Some("n"), None, Some("u"), ready())), Err(JsonQuery::NoNamespace));
}

#[test]
fn a_listed_pod_is_asked_for_its_name_first() {
    assert_eq!(parse_json_pod(object(None, None, None, None)), Err(JsonQuery::NoName));
    assert_eq!(parse_json_pod(object(Some("n"), None, None, None)), Err(JsonQuery::NoUid));
}

#[test]
fn a_watched_pod_is_asked_for_its_uid_first() {
    assert_eq!(parse_pod_object(object(None, None, None, None)), Err(JsonQuery::NoUid));
    assert_eq!(parse_pod_object(object(None, Some("ns"), Some("u"), None)), Err(JsonQuery::NoName));
    assert_eq!(parse_pod_object(object(Some("n"), None, Some("u"), None)), Err(JsonQuery::NoNamespace));
    assert_eq!(
        parse_pod_object(object(Some("n"), Some("ns"), Some("u"), status(vec![condition("Ready", "True")]))),
        Ok(Pod::new("u".to_string(), "ns".to_string(), "n".to_string(), true))
    );
}
