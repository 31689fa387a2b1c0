//! What the engine reads of a pod's JSON, and how a payload becomes a [`Pod`].
//!
//! The API's objects are decoded by `serde_json` into the types of
//! `k8s_openapi`; the fields that the engine reads are moved into the plain
//! types of this module, on which the rules below are stated.
use vstd::prelude::*;
use crate::client::error::JsonQuery;
use crate::client::pods::Pod;
use k8s_openapi::api;
use k8s_openapi::apimachinery::pkg::apis::meta::v1::WatchEvent;
use k8s_openapi::List;

verus! {

/// One entry of a pod's `status.conditions`.
#[derive(Debug, PartialEq, Eq)]
pub struct PodCondition {
    pub type_: String,
    pub status: String,
}

/// A pod's `status`, as far as it is read.
#[derive(Debug, PartialEq, Eq)]
pub struct PodStatus {
    pub conditions: Option<Vec<PodCondition>>,
}

/// A pod as the API sent it: the name, namespace and uid of its `metadata`,
/// and its `status`.
#[derive(Debug, PartialEq, Eq)]
pub struct JsonPod {
    pub name: Option<String>,
    pub namespace: Option<String>,
    pub uid: Option<String>,
    pub status: Option<PodStatus>,
}

/// A full listing of pods: the cursor it was taken at, and the pods.
#[derive(Debug, PartialEq, Eq)]
pub struct PodList {
    pub resource_version: Option<String>,
    pub items: Vec<JsonPod>,
}

/// One frame of a watch stream.
#[derive(Debug, PartialEq, Eq)]
pub enum WatchFrame {
    Added(JsonPod),
    Deleted(JsonPod),
    Modified(JsonPod),
    /// A bookmark or an error object: the engine passes over both.
    Other,
}

/// What `serde_json::from_slice` makes of `bytes` read as one watch event
/// on pods: the frame, or `None` where it reports an error.
pub uninterp spec fn watch_frame_of(bytes: Seq<u8>) -> Option<WatchFrame>;

/// What `serde_json::from_slice` makes of `bytes` read as a list of pods:
/// the listing, or `None` where it reports an error.
pub uninterp spec fn pod_list_of(bytes: Seq<u8>) -> Option<PodList>;

/// `serde_json::from_slice` at `WatchEvent<Pod>`, and the move of the
/// fields that [`JsonPod`] holds out of the decoded pod: `metadata.name`,
/// `metadata.namespace`, `metadata.uid`, and of each entry of
/// `status.conditions` its `type` and `status`. The result is a function of
/// the bytes alone, so it is named: [`watch_frame_of`]. The decoder's error
/// is handed on as it is.
#[verifier::external_body]
pub(crate) fn decode_watch_frame(bytes: &[u8]) -> (decoded: Result<WatchFrame, serde_json::Error>)
    ensures
        decoded is Ok <==> watch_frame_of(bytes@) is Some,
        decoded is Ok ==> decoded->Ok_0 == watch_frame_of(bytes@)->Some_0,
{
    let event: WatchEvent<api::core::v1::Pod> = serde_json::from_slice(bytes)?;
    let (pod, frame): (_, fn(JsonPod) -> WatchFrame) = match event {
        WatchEvent::Added(pod) => (pod, WatchFrame::Added),
        WatchEvent::Deleted(pod) => (pod, WatchFrame::Deleted),
        WatchEvent::Modified(pod) => (pod, WatchFrame::Modified),
        _ => return Ok(WatchFrame::Other),
    };
    let status = pod.status.map(|s| PodStatus {
        conditions: s.conditions.map(|all| all.into_iter().map(|c| PodCondition { type_: c.type_, status: c.status }).collect()),
    });
    Ok(frame(JsonPod { name: pod.metadata.name, namespace: pod.metadata.namespace, uid: pod.metadata.uid, status }))
}

/// `serde_json::from_slice` at `List<Pod>`, and the same move of fields out
/// of each listed pod, with the list's `metadata.resourceVersion`. The
/// result is a function of the bytes alone, so it is named:
/// [`pod_list_of`]. The decoder's error is handed on as it is.
#[verifier::external_body]
pub(crate) fn decode_pod_list(bytes: &[u8]) -> (decoded: Result<PodList, serde_json::Error>)
    ensures
        decoded is Ok <==> pod_list_of(bytes@) is Some,
        decoded is Ok ==> decoded->Ok_0 == pod_list_of(bytes@)->Some_0,
{
    let list: List<api::core::v1::Pod> = serde_json::from_slice(bytes)?;
    let fields = |pod: api::core::v1::Pod| JsonPod {
        name: pod.metadata.name,
        namespace: pod.metadata.namespace,
        uid: pod.metadata.uid,
        status: pod.status.map(|s| PodStatus {
            conditions: s.conditions.map(|all| all.into_iter().map(|c| PodCondition { type_: c.type_, status: c.status }).collect()),
        }),
    };
    Ok(PodList { resource_version: list.metadata.resource_version, items: list.items.into_iter().map(fields).collect() })
}

/// The readiness that the first condition of type `Ready` reports: ready
/// where its status is `True`. `None` where no condition has that type.
pub open spec fn first_ready(conditions: Seq<PodCondition>) -> Option<bool>
    decreases conditions.len(),
{
    if conditions.len() == 0 {
        None
    } else if conditions[0].type_@ == "Ready"@ {
        Some(conditions[0].status@ == "True"@)
    } else {
        first_ready(conditions.drop_first())
    }
}

/// The readiness that a pod's status reports, or the field that is missing.
pub open spec fn readiness_of(status: Option<PodStatus>) -> Result<bool, JsonQuery> {
    match status {
        None => Err(JsonQuery::NoStatus),
        Some(status) => match status.conditions {
            None => Err(JsonQuery::NoCondition),
            Some(conditions) => match first_ready(conditions@) {
                None => Err(JsonQuery::NoReadyCondition),
                Some(ready) => Ok(ready),
            },
        },
    }
}

/// The readiness that a pod's status reports, or the field that is missing.
#[verifier::loop_isolation(false)]
pub fn readiness(status: &Option<PodStatus>) -> (ready: Result<bool, JsonQuery>)
    ensures
        ready == readiness_of(*status),
{
    let status = match status {
        None => { return Err(JsonQuery::NoStatus); },
        Some(status) => status,
    };
    let conditions = match &status.conditions {
        None => { return Err(JsonQuery::NoCondition); },
        Some(conditions) => conditions,
    };
    let wanted = "Ready".to_owned();
    let yes = "True".to_owned();
    let mut i: usize = 0;
    assert(conditions@.skip(0) == conditions@);
    while i < conditions.len()
        invariant
            i <= conditions.len(),
            wanted@ == "Ready"@,
            yes@ == "True"@,
            first_ready(conditions@) == first_ready(conditions@.skip(i as int)),
        decreases conditions.len() - i,
    {
        let rest = Ghost(conditions@.skip(i as int));
        assert(rest@.len() > 0 && rest@[0] == conditions@[i as int]);
        if conditions[i].type_ == wanted {
            return Ok(conditions[i].status == yes);
        }
        assert(rest@.drop_first() == conditions@.skip(i + 1));
        i += 1;
    }
    assert(conditions@.skip(i as int).len() == 0);
    Err(JsonQuery::NoReadyCondition)
}

/// The pod that a listed payload describes. The name, the uid and the
/// namespace must be there, and are asked for in that order; a readiness
/// that cannot be read counts as not ready.
pub open spec fn parsed_pod(pod: JsonPod) -> Result<Pod, JsonQuery> {
    if pod.name is None {
        Err(JsonQuery::NoName)
    } else if pod.uid is None {
        Err(JsonQuery::NoUid)
    } else if pod.namespace is None {
        Err(JsonQuery::NoNamespace)
    } else {
        Ok(
            Pod {
                uid: pod.uid->Some_0,
                namespace: pod.namespace->Some_0,
                name: pod.name->Some_0,
                status: readiness_of(pod.status) == Ok::<bool, JsonQuery>(true),
            },
        )
    }
}

/// Reads a listed pod: see [`parsed_pod`].
pub fn parse_json_pod(pod: JsonPod) -> (parsed: Result<Pod, JsonQuery>)
    ensures
        parsed == parsed_pod(pod),
{
    let JsonPod { name, namespace, uid, status } = pod;
    let name = match name {
        Some(name) => name,
        None => { return Err(JsonQuery::NoName); },
    };
    let uid = match uid {
        Some(uid) => uid,
        None => { return Err(JsonQuery::NoUid); },
    };
    let namespace = match namespace {
        Some(namespace) => namespace,
        None => { return Err(JsonQuery::NoNamespace); },
    };
    let status = match readiness(&status) {
        Ok(ready) => ready,
        Err(_) => false,
    };
    Ok(Pod::new(uid, namespace, name, status))
}

/// The pod that a watch frame's payload describes. As [`parsed_pod`], but
/// the uid is asked for before the name.
pub open spec fn parsed_pod_object(pod: JsonPod) -> Result<Pod, JsonQuery> {
    if pod.uid is None {
        Err(JsonQuery::NoUid)
    } else {
        parsed_pod(pod)
    }
}

/// Reads the pod of a watch frame: see [`parsed_pod_object`].
pub fn parse_pod_object(pod: JsonPod) -> (parsed: Result<Pod, JsonQuery>)
    ensures
        parsed == parsed_pod_object(pod),
{
    if pod.uid.is_none() {
        return Err(JsonQuery::NoUid);
    }
    parse_json_pod(pod)
}

/// A warning: the readiness of this pod could not be read, for want of
/// `missing`, and counts as not ready.
#[derive(Debug, PartialEq, Eq)]
pub struct Fallback {
    pub uid: String,
    pub name: String,
    pub missing: JsonQuery,
}

/// The warning that a payload calls for: it reads as a pod, but its
/// readiness does not read.
pub open spec fn fallback_of(pod: JsonPod) -> Option<Fallback> {
    match (parsed_pod(pod), readiness_of(pod.status)) {
        (Ok(read), Err(missing)) => Some(Fallback { uid: read.uid, name: read.name, missing }),
        _ => None,
    }
}

/// The warning that a payload calls for: see [`fallback_of`].
pub fn fallback(pod: &JsonPod) -> (warning: Option<Fallback>)
    ensures
        warning == fallback_of(*pod),
{
    let name = match &pod.name {
        Some(name) => name,
        None => { return None; },
    };
    let uid = match &pod.uid {
        Some(uid) => uid,
        None => { return None; },
    };
    if pod.namespace.is_none() {
        return None;
    }
    match readiness(&pod.status) {
        Ok(_) => None,
        Err(missing) => Some(Fallback { uid: uid.clone(), name: name.clone(), missing }),
    }
}

} // verus!
