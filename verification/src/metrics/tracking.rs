//! The controller's tables held against the mirrored pods.
//!
//! The watch tells the controller of every change of the mirrored set. As
//! long as the tables track the set, the controller can take what the
//! watch tells, and tracks the set afterwards.
use vstd::prelude::*;
use crate::client::error::WatcherError;
use crate::client::json::{parsed_pod_object, WatchFrame};
use crate::client::pods::{
    distinct_uids, has_uid, index_of, lemma_index_of, lemma_push_uids, lemma_remove_uids,
    lemma_update_uids, pod_of, Pod,
};
use crate::client::reconcile::owed_event;
use crate::client::watch::{outcome_of, pods_after, DaemonSetEvent};
use crate::metrics::controller::{Controller, Directive};
use crate::metrics::uids::{first_of, is_first, lemma_remove_uid, without};

verus! {

/// The tables track the mirrored pods: a pod has a running querier if it
/// is ready and a paused one if it is not, and nothing else has a querier.
pub open spec fn tracks(controller: Controller, pods: Seq<Pod>) -> bool {
    forall|uid: Seq<char>| #[trigger]
        has_uid(pods, uid) ==> (controller.running.has(uid) <==> pod_of(pods, uid).status) && (
        controller.paused.has(uid) <==> !pod_of(pods, uid).status)
}

/// No uid outside the mirrored pods has a querier.
pub open spec fn bounded(controller: Controller, pods: Seq<Pod>) -> bool {
    forall|uid: Seq<char>| #[trigger] controller.knows(uid) ==> has_uid(pods, uid)
}

/// The frame says of the mirrored pods what can be: an added pod is not
/// mirrored yet, and a deleted one is.
pub open spec fn fits(pods: Seq<Pod>, frame: WatchFrame) -> bool {
    match frame {
        WatchFrame::Added(object) => parsed_pod_object(object) matches Ok(pod) ==> !has_uid(
            pods,
            pod.uid@,
        ),
        WatchFrame::Deleted(object) => parsed_pod_object(object) matches Ok(pod) ==> has_uid(
            pods,
            pod.uid@,
        ),
        _ => true,
    }
}

/// The event as the item of the watch that the controller is handed.
pub open spec fn told(event: DaemonSetEvent) -> Result<DaemonSetEvent, WatcherError> {
    Ok(event)
}

proof fn lemma_push_contains(uids: Seq<Seq<char>>, uid: Seq<char>, other: Seq<char>)
    ensures
        uids.push(uid).contains(other) <==> uids.contains(other) || other == uid,
{
    let all = uids.push(uid);
    if uids.contains(other) {
        let k = choose|k: int| 0 <= k < uids.len() && uids[k] == other;
        assert(all[k] == other);
    }
    if other == uid {
        assert(all[uids.len() as int] == other);
    }
    if all.contains(other) {
        let k = choose|k: int| 0 <= k < all.len() && all[k] == other;
        if k < uids.len() {
            assert(uids[k] == other);
        }
    }
}

proof fn lemma_first_exists(uids: Seq<Seq<char>>, uid: Seq<char>, k: int)
    requires
        0 <= k < uids.len(),
        uids[k] == uid,
    ensures
        is_first(uids, uid, first_of(uids, uid)),
    decreases k,
{
    if exists|j: int| 0 <= j < k && uids[j] == uid {
        let j = choose|j: int| 0 <= j < k && uids[j] == uid;
        lemma_first_exists(uids, uid, j);
    } else {
        assert(is_first(uids, uid, k));
    }
}

proof fn lemma_without_contains(uids: Seq<Seq<char>>, uid: Seq<char>, other: Seq<char>)
    requires
        uids.no_duplicates(),
    ensures
        without(uids, uid).contains(other) <==> uids.contains(other) && other != uid,
{
    if uids.contains(uid) {
        let k = choose|k: int| 0 <= k < uids.len() && uids[k] == uid;
        lemma_first_exists(uids, uid, k);
        lemma_remove_uid(uids, first_of(uids, uid));
    }
}

/// What a frame of the watch tells is what the controller can take, if its
/// tables track the mirrored pods.
pub proof fn lemma_frame_event_is_expected(controller: Controller, pods: Seq<Pod>, frame: WatchFrame)
    requires
        distinct_uids(pods),
        tracks(controller, pods),
        bounded(controller, pods),
        fits(pods, frame),
        outcome_of(pods, frame) is Event,
    ensures
        controller.expects(told(outcome_of(pods, frame)->Event_0)),
{
    let event = outcome_of(pods, frame)->Event_0;
    let uid = event.pod.uid@;
    match frame {
        WatchFrame::Added(_) => {
            if controller.knows(uid) {
                assert(has_uid(pods, uid));
            }
        },
        WatchFrame::Deleted(_) => {
            assert(has_uid(pods, uid));
        },
        WatchFrame::Modified(_) => {
            assert(has_uid(pods, uid));
        },
        WatchFrame::Other => {},
    }
}

/// Once the controller has taken what a frame of the watch tells, its
/// tables track the mirrored pods as the frame left them.
pub proof fn lemma_tables_follow_frame(
    before: Controller,
    after: Controller,
    directive: Directive,
    pods: Seq<Pod>,
    frame: WatchFrame,
)
    requires
        before.wf(),
        distinct_uids(pods),
        tracks(before, pods),
        bounded(before, pods),
        fits(pods, frame),
        outcome_of(pods, frame) is Event,
        after.handled(&before, told(outcome_of(pods, frame)->Event_0), directive),
    ensures
        tracks(after, pods_after(pods, frame)),
        bounded(after, pods_after(pods, frame)),
{
    let event = outcome_of(pods, frame)->Event_0;
    let uid = event.pod.uid@;
    let next = pods_after(pods, frame);
    assert forall|other: Seq<char>| #[trigger] has_uid(next, other) implies (after.running.has(other)
        <==> pod_of(next, other).status) && (after.paused.has(other) <==> !pod_of(
        next,
        other,
    ).status) by {
        lemma_follow(before, after, directive, pods, frame, other);
    }
    assert forall|other: Seq<char>| #[trigger] after.knows(other) implies has_uid(next, other) by {
        lemma_follow(before, after, directive, pods, frame, other);
    }
}

proof fn lemma_follow(
    before: Controller,
    after: Controller,
    directive: Directive,
    pods: Seq<Pod>,
    frame: WatchFrame,
    other: Seq<char>,
)
    requires
        before.wf(),
        distinct_uids(pods),
        tracks(before, pods),
        bounded(before, pods),
        fits(pods, frame),
        outcome_of(pods, frame) is Event,
        after.handled(&before, told(outcome_of(pods, frame)->Event_0), directive),
    ensures
        has_uid(pods_after(pods, frame), other) ==> (after.running.has(other) <==> pod_of(
            pods_after(pods, frame),
            other,
        ).status) && (after.paused.has(other) <==> !pod_of(pods_after(pods, frame), other).status),
        after.knows(other) ==> has_uid(pods_after(pods, frame), other),
{
    let event = outcome_of(pods, frame)->Event_0;
    let uid = event.pod.uid@;
    let next = pods_after(pods, frame);
    if before.knows(other) {
        assert(has_uid(pods, other));
    }
    if has_uid(pods, other) {
        assert((before.running.has(other) <==> pod_of(pods, other).status) && (
        before.paused.has(other) <==> !pod_of(pods, other).status));
    }
    match frame {
        WatchFrame::Added(_) => {
            lemma_push_uids(pods, event.pod, other);
            lemma_push_contains(before.running@, uid, other);
            lemma_push_contains(before.paused@, uid, other);
            if before.knows(uid) {
                assert(has_uid(pods, uid));
            }
        },
        WatchFrame::Deleted(_) => {
            assert(has_uid(pods, uid));
            lemma_index_of(pods, uid);
            lemma_remove_uids(pods, index_of(pods, uid), other);
            lemma_without_contains(before.running@, uid, other);
            lemma_without_contains(before.paused@, uid, other);
        },
        WatchFrame::Modified(_) => {
            assert(has_uid(pods, uid));
            lemma_index_of(pods, uid);
            lemma_update_uids(pods, index_of(pods, uid), event.pod.status, other);
            lemma_push_contains(before.running@, uid, other);
            lemma_push_contains(before.paused@, uid, other);
            lemma_without_contains(before.running@, uid, other);
            lemma_without_contains(before.paused@, uid, other);
            assert((before.running.has(uid) <==> pod_of(pods, uid).status) && (
            before.paused.has(uid) <==> !pod_of(pods, uid).status));
        },
        WatchFrame::Other => {},
    }
}

/// What reconciliation owes a uid is what the controller can take, if its
/// tables track the mirrored pods.
pub proof fn lemma_reconcile_event_is_expected(
    controller: Controller,
    old: Seq<Pod>,
    new: Seq<Pod>,
    uid: Seq<char>,
)
    requires
        distinct_uids(old),
        tracks(controller, old),
        bounded(controller, old),
        owed_event(old, new, uid) is Some,
    ensures
        controller.expects(told(owed_event(old, new, uid)->Some_0)),
{
    let event = owed_event(old, new, uid)->Some_0;
    if has_uid(new, uid) {
        lemma_index_of(new, uid);
        assert(event.pod.uid@ == uid);
    } else {
        lemma_index_of(old, uid);
        assert(event.pod.uid@ == uid);
    }
    if controller.knows(uid) {
        assert(has_uid(old, uid));
    }
    if has_uid(old, uid) {
        assert((controller.running.has(uid) <==> pod_of(old, uid).status) && (
        controller.paused.has(uid) <==> !pod_of(old, uid).status));
    }
}

} // verus!
