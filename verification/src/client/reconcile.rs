//! Reconciliation: a full listing held against the mirrored set.
//!
//! When a watch window ends, the listing is authoritative. Every uid whose
//! presence or readiness differs between the mirrored set and the listing
//! gives one event; no other uid gives any.
use vstd::prelude::*;
use crate::client::error::{APIError, JsonQuery, WatcherError, WatcherErrorKind};
use crate::client::json::{
    decode_pod_list, fallback, fallback_of, parse_json_pod, parsed_pod, pod_list_of, Fallback,
    JsonPod, PodList,
};
use crate::client::pods::{
    distinct_uids, has_uid, lemma_push_uids, pod_of, without_uid, CAdvisorPods, Pod,
};
use crate::client::watch::{flip_kind, lemma_without_uid_distinct, DaemonSetEvent, EventKind};

verus! {

/// The event that a listed pod calls for, given the mirrored pods: it is
/// new, or its readiness flipped, or nothing changed.
pub open spec fn change_of(old: Seq<Pod>, listed: Pod) -> Option<DaemonSetEvent> {
    if !has_uid(old, listed.uid@) {
        Some(DaemonSetEvent { pod: listed, kind: EventKind::Created })
    } else if pod_of(old, listed.uid@).status == listed.status {
        None
    } else {
        Some(DaemonSetEvent { pod: listed, kind: flip_kind(listed.status) })
    }
}

/// The event that a mirrored pod calls for, given the listing: it is gone,
/// or it is still there.
pub open spec fn loss_of(new: Seq<Pod>, mirrored: Pod) -> Option<DaemonSetEvent> {
    if has_uid(new, mirrored.uid@) {
        None
    } else {
        Some(DaemonSetEvent { pod: mirrored, kind: EventKind::Deleted })
    }
}

/// The events of the listed pods, in the listing's order.
pub open spec fn changes(old: Seq<Pod>, new: Seq<Pod>) -> Seq<DaemonSetEvent>
    decreases new.len(),
{
    if new.len() == 0 {
        Seq::empty()
    } else {
        match change_of(old, new.last()) {
            Some(event) => changes(old, new.drop_last()).push(event),
            None => changes(old, new.drop_last()),
        }
    }
}

/// The events of the mirrored pods that the listing lacks, in the mirrored
/// order.
pub open spec fn losses(old: Seq<Pod>, new: Seq<Pod>) -> Seq<DaemonSetEvent>
    decreases old.len(),
{
    if old.len() == 0 {
        Seq::empty()
    } else {
        match loss_of(new, old.last()) {
            Some(event) => losses(old.drop_last(), new).push(event),
            None => losses(old.drop_last(), new),
        }
    }
}

/// The events of a reconciliation: those of the listed pods, then the
/// deletions.
pub open spec fn diff_events(old: Seq<Pod>, new: Seq<Pod>) -> Seq<DaemonSetEvent> {
    changes(old, new) + losses(old, new)
}

/// The events that take the mirrored set `old_state` to the listing
/// `new_state`.
pub fn diff(old_state: &CAdvisorPods, new_state: &CAdvisorPods) -> (events: Vec<DaemonSetEvent>)
    ensures
        events@ == diff_events(old_state.pods@, new_state.pods@),
{
    let mut events: Vec<DaemonSetEvent> = Vec::new();
    let mut i: usize = 0;
    assert(new_state.pods@.take(0) == Seq::<Pod>::empty());
    while i < new_state.pods.len()
        invariant
            i <= new_state.pods.len(),
            events@ == changes(old_state.pods@, new_state.pods@.take(i as int)),
        decreases new_state.pods.len() - i,
    {
        let listed = &new_state.pods[i];
        proof {
            let next = new_state.pods@.take(i + 1);
            assert(next.drop_last() == new_state.pods@.take(i as int));
            assert(next.last() == *listed);
        }
        match old_state.get_by_uid(&listed.uid) {
            None => {
                events.push(DaemonSetEvent { pod: listed.clone(), kind: EventKind::Created });
            },
            Some(mirrored) => {
                if mirrored.status != listed.status {
                    let kind = if listed.status {
                        EventKind::Resumed
                    } else {
                        EventKind::Paused
                    };
                    events.push(DaemonSetEvent { pod: listed.clone(), kind });
                }
            },
        }
        i += 1;
    }
    assert(new_state.pods@.take(i as int) == new_state.pods@);
    let ghost listed_events = events@;
    let mut j: usize = 0;
    assert(old_state.pods@.take(0) == Seq::<Pod>::empty());
    while j < old_state.pods.len()
        invariant
            j <= old_state.pods.len(),
            listed_events == changes(old_state.pods@, new_state.pods@),
            events@ == listed_events + losses(old_state.pods@.take(j as int), new_state.pods@),
        decreases old_state.pods.len() - j,
    {
        let mirrored = &old_state.pods[j];
        proof {
            let next = old_state.pods@.take(j + 1);
            assert(next.drop_last() == old_state.pods@.take(j as int));
            assert(next.last() == *mirrored);
        }
        if new_state.get_by_uid(&mirrored.uid).is_none() {
            let ghost before = losses(old_state.pods@.take(j as int), new_state.pods@);
            let event = DaemonSetEvent { pod: mirrored.clone(), kind: EventKind::Deleted };
            assert((listed_events + before).push(event) == listed_events + before.push(event));
            events.push(event);
        }
        j += 1;
    }
    assert(old_state.pods@.take(j as int) == old_state.pods@);
    events
}

/// How many of `events` speak of the pod `uid`.
pub open spec fn events_for(events: Seq<DaemonSetEvent>, uid: Seq<char>) -> nat
    decreases events.len(),
{
    if events.len() == 0 {
        0
    } else if events.last().pod.uid@ == uid {
        events_for(events.drop_last(), uid) + 1
    } else {
        events_for(events.drop_last(), uid)
    }
}

/// The one event that reconciliation owes the pod `uid`, by the rule: in
/// both states with the same readiness, none; in both with another
/// readiness, resumed if now ready and paused if not; only listed,
/// created; only mirrored, deleted.
pub open spec fn owed_event(old: Seq<Pod>, new: Seq<Pod>, uid: Seq<char>) -> Option<
    DaemonSetEvent,
> {
    if has_uid(new, uid) {
        change_of(old, pod_of(new, uid))
    } else if has_uid(old, uid) {
        Some(DaemonSetEvent { pod: pod_of(old, uid), kind: EventKind::Deleted })
    } else {
        None
    }
}

proof fn lemma_events_for_concat(a: Seq<DaemonSetEvent>, b: Seq<DaemonSetEvent>, uid: Seq<char>)
    ensures
        events_for(a + b, uid) == events_for(a, uid) + events_for(b, uid),
    decreases b.len(),
{
    if b.len() == 0 {
        assert(a + b == a);
    } else {
        lemma_events_for_concat(a, b.drop_last(), uid);
        assert((a + b).drop_last() == a + b.drop_last());
        assert((a + b).last() == b.last());
    }
}

proof fn lemma_distinct_prefix(pods: Seq<Pod>)
    requires
        distinct_uids(pods),
        pods.len() > 0,
    ensures
        distinct_uids(pods.drop_last()),
        !has_uid(pods.drop_last(), pods.last().uid@),
{
    let init = pods.drop_last();
    assert forall|a: int, b: int| 0 <= a < b < init.len() implies (#[trigger] init[a]).uid@ != (
    #[trigger] init[b]).uid@ by {
        assert(init[a] == pods[a]);
        assert(init[b] == pods[b]);
    }
    assert forall|a: int| 0 <= a < init.len() implies (#[trigger] init[a]).uid@
        != pods.last().uid@ by {
        assert(init[a] == pods[a]);
        assert(pods.last() == pods[pods.len() - 1]);
    }
}

proof fn lemma_changes_for(old: Seq<Pod>, new: Seq<Pod>, uid: Seq<char>)
    requires
        distinct_uids(new),
    ensures
        events_for(changes(old, new), uid) == (if has_uid(new, uid) && change_of(
            old,
            pod_of(new, uid),
        ) is Some {
            1nat
        } else {
            0nat
        }),
        has_uid(new, uid) && change_of(old, pod_of(new, uid)) is Some ==> changes(
            old,
            new,
        ).contains(change_of(old, pod_of(new, uid))->Some_0),
    decreases new.len(),
{
    if new.len() == 0 {
    } else {
        let init = new.drop_last();
        let last = new.last();
        lemma_distinct_prefix(new);
        lemma_changes_for(old, init, uid);
        assert(new == init.push(last));
        lemma_push_uids(init, last, uid);
        let before = changes(old, init);
        match change_of(old, last) {
            Some(event) => {
                let all = before.push(event);
                assert(all.drop_last() == before);
                assert(all.last() == event);
                assert(all[all.len() - 1] == event);
                if has_uid(init, uid) && change_of(old, pod_of(init, uid)) is Some {
                    let wanted = change_of(old, pod_of(init, uid))->Some_0;
                    let k = choose|k: int| 0 <= k < before.len() && before[k] == wanted;
                    assert(all[k] == wanted);
                }
            },
            None => {},
        }
    }
}

proof fn lemma_losses_for(old: Seq<Pod>, new: Seq<Pod>, uid: Seq<char>)
    requires
        distinct_uids(old),
    ensures
        events_for(losses(old, new), uid) == (if has_uid(old, uid) && !has_uid(new, uid) {
            1nat
        } else {
            0nat
        }),
        has_uid(old, uid) && !has_uid(new, uid) ==> losses(old, new).contains(
            DaemonSetEvent { pod: pod_of(old, uid), kind: EventKind::Deleted },
        ),
    decreases old.len(),
{
    if old.len() == 0 {
    } else {
        let init = old.drop_last();
        let last = old.last();
        lemma_distinct_prefix(old);
        lemma_losses_for(init, new, uid);
        assert(old == init.push(last));
        lemma_push_uids(init, last, uid);
        let before = losses(init, new);
        match loss_of(new, last) {
            Some(event) => {
                let all = before.push(event);
                assert(all.drop_last() == before);
                assert(all.last() == event);
                assert(all[all.len() - 1] == event);
                if has_uid(init, uid) && !has_uid(new, uid) {
                    let wanted = DaemonSetEvent { pod: pod_of(init, uid), kind: EventKind::Deleted };
                    let k = choose|k: int| 0 <= k < before.len() && before[k] == wanted;
                    assert(all[k] == wanted);
                }
            },
            None => {},
        }
    }
}

/// Reconciliation is complete and exact: of two states that each hold a
/// uid at most once, the events speak once of every uid that is in one
/// state only or whose readiness differs, with the event that the rule
/// gives, and not at all of any other uid.
pub proof fn lemma_reconcile_complete(old: Seq<Pod>, new: Seq<Pod>, uid: Seq<char>)
    requires
        distinct_uids(old),
        distinct_uids(new),
    ensures
        owed_event(old, new, uid) is Some ==> events_for(diff_events(old, new), uid) == 1
            && diff_events(old, new).contains(owed_event(old, new, uid)->Some_0),
        owed_event(old, new, uid) is None ==> events_for(diff_events(old, new), uid) == 0,
{
    lemma_changes_for(old, new, uid);
    lemma_losses_for(old, new, uid);
    lemma_events_for_concat(changes(old, new), losses(old, new), uid);
    let all = diff_events(old, new);
    if has_uid(new, uid) && change_of(old, pod_of(new, uid)) is Some {
        let wanted = change_of(old, pod_of(new, uid))->Some_0;
        let k = choose|k: int| 0 <= k < changes(old, new).len() && changes(old, new)[k] == wanted;
        assert(all[k] == wanted);
    }
    if has_uid(old, uid) && !has_uid(new, uid) {
        let wanted = DaemonSetEvent { pod: pod_of(old, uid), kind: EventKind::Deleted };
        let k = choose|k: int| 0 <= k < losses(old, new).len() && losses(old, new)[k] == wanted;
        assert(all[changes(old, new).len() + k] == wanted);
    }
}

/// The pods of a listing's items, or the field that the first unreadable
/// item lacks. The pods stand in the listing's order; of two items with
/// one uid the later takes the place of the earlier, so that no uid
/// stands twice.
pub open spec fn listed_pods(items: Seq<JsonPod>) -> Result<Seq<Pod>, JsonQuery>
    decreases items.len(),
{
    if items.len() == 0 {
        Ok(Seq::empty())
    } else {
        match listed_pods(items.drop_last()) {
            Err(missing) => Err(missing),
            Ok(pods) => match parsed_pod(items.last()) {
                Err(missing) => Err(missing),
                Ok(pod) => Ok(without_uid(pods, pod.uid@).push(pod)),
            },
        }
    }
}

/// The warnings of a listing's items, in order.
pub open spec fn list_fallbacks(items: Seq<JsonPod>) -> Seq<Fallback>
    decreases items.len(),
{
    if items.len() == 0 {
        Seq::empty()
    } else {
        match fallback_of(items.last()) {
            Some(warning) => list_fallbacks(items.drop_last()).push(warning),
            None => list_fallbacks(items.drop_last()),
        }
    }
}

/// The pods of a listing hold each uid once.
pub proof fn lemma_listed_pods_distinct(items: Seq<JsonPod>)
    ensures
        listed_pods(items) matches Ok(pods) ==> distinct_uids(pods),
    decreases items.len(),
{
    if items.len() > 0 {
        lemma_listed_pods_distinct(items.drop_last());
        if let Ok(before) = listed_pods(items.drop_last()) {
            if let Ok(pod) = parsed_pod(items.last()) {
                lemma_without_uid_distinct(before, pod.uid@);
                let rest = without_uid(before, pod.uid@);
                let all = rest.push(pod);
                assert forall|a: int, b: int| 0 <= a < b < all.len() implies (#[trigger] all[a]).uid@
                    != (#[trigger] all[b]).uid@ by {
                    assert(all[a] == rest[a]);
                    if b < rest.len() {
                        assert(all[b] == rest[b]);
                    }
                }
            }
        }
    }
}

/// The field for whose absence a listing is refused, if it is: a listing
/// without a cursor is refused before its items are looked at; then the
/// first item that cannot be read refuses it.
pub open spec fn listing_fault(list: PodList) -> Option<JsonQuery> {
    if list.resource_version is None {
        Some(JsonQuery::NoResourceVersion)
    } else {
        match listed_pods(list.items@) {
            Err(missing) => Some(missing),
            Ok(_) => None,
        }
    }
}

/// Whether `state` is what the listing `list` describes: its pods and its
/// cursor, or the fault for which it is refused.
pub open spec fn state_matches(state: Result<CAdvisorPods, APIError>, list: PodList) -> bool {
    match listing_fault(list) {
        Some(missing) => state == Err::<CAdvisorPods, APIError>(APIError::JsonQuery(missing)),
        None => state is Ok && state->Ok_0.pods@ == listed_pods(list.items@)->Ok_0
            && state->Ok_0.version == list.resource_version->Some_0,
    }
}

/// What a listing gave: the mirrored state, and the warnings of the pods
/// whose readiness could not be read.
#[derive(Debug, PartialEq, Eq)]
pub struct Listed {
    pub state: CAdvisorPods,
    pub fallbacks: Vec<Fallback>,
}

/// Whether `listed` is what the listing `list` describes: its state, as
/// [`state_matches`] says, with the warnings of its items, or the fault
/// for which it is refused.
pub open spec fn listing_matches(listed: Result<Listed, APIError>, list: PodList) -> bool {
    match listing_fault(list) {
        Some(missing) => listed == Err::<Listed, APIError>(APIError::JsonQuery(missing)),
        None => listed is Ok && state_matches(
            Ok::<CAdvisorPods, APIError>(listed->Ok_0.state),
            list,
        ) && listed->Ok_0.fallbacks@ == list_fallbacks(list.items@),
    }
}

/// Turns a decoded listing into a mirrored state. A uid that the listing
/// names twice is mirrored once, as its later item has it.
#[verifier::loop_isolation(false)]
pub fn pods_of_list(list: PodList) -> (listed: Result<Listed, APIError>)
    ensures
        listing_matches(listed, list),
        listed is Ok ==> listed->Ok_0.state.wf(),
{
    let PodList { resource_version, items } = list;
    let version = match resource_version {
        Some(version) => version,
        None => { return Err(APIError::JsonQuery(JsonQuery::NoResourceVersion)); },
    };
    let mut state = CAdvisorPods { pods: Vec::new(), version };
    let mut fallbacks: Vec<Fallback> = Vec::new();
    assert(items@.take(0) == Seq::<JsonPod>::empty());
    for item in it: items
        invariant
            it.seq() == items@,
            state.wf(),
            state.version == version,
            listed_pods(items@.take(it.index() as int)) == Ok::<Seq<Pod>, JsonQuery>(state.pods@),
            fallbacks@ == list_fallbacks(items@.take(it.index() as int)),
    {
        proof {
            let next = items@.take(it.index() + 1);
            assert(next.drop_last() == items@.take(it.index() as int));
            assert(next.last() == item);
        }
        match fallback(&item) {
            Some(warning) => {
                fallbacks.push(warning);
            },
            None => {},
        }
        match parse_json_pod(item) {
            Ok(pod) => {
                state.insert(pod);
            },
            Err(missing) => {
                proof {
                    lemma_listed_pods_fails(items@, it.index() + 1);
                }
                return Err(APIError::JsonQuery(missing));
            },
        }
    }
    assert(items@.take(items@.len() as int) == items@);
    Ok(Listed { state, fallbacks })
}

/// A listing that fails on some of its first items fails on all of them,
/// and in the same way.
proof fn lemma_listed_pods_fails(items: Seq<JsonPod>, n: int)
    requires
        0 <= n <= items.len(),
        listed_pods(items.take(n)) is Err,
    ensures
        listed_pods(items) == listed_pods(items.take(n)),
    decreases items.len() - n,
{
    if n == items.len() {
        assert(items.take(n) == items);
    } else {
        let next = items.take(n + 1);
        assert(next.drop_last() == items.take(n));
        lemma_listed_pods_fails(items, n + 1);
    }
}

/// Reads the body of a list response into a mirrored state.
///
/// The body is decoded as a list of pods; then the listing must carry a
/// cursor, and every item a name, a uid and a namespace.
pub fn get_daemon_set_pods(body: &[u8]) -> (listed: Result<Listed, APIError>)
    ensures
        match pod_list_of(body@) {
            None => listed is Err && listed->Err_0 is JsonParse,
            Some(list) => listing_matches(listed, list),
        },
        listed is Ok ==> listed->Ok_0.state.wf(),
{
    match decode_pod_list(body) {
        Err(e) => Err(APIError::JsonParse(e)),
        Ok(list) => pods_of_list(list),
    }
}

/// Whether `outcome` is the reconciliation of `old` with a fetch that gave
/// `listing`.
pub open spec fn reconciles(
    outcome: Result<(CAdvisorPods, Vec<DaemonSetEvent>), WatcherError>,
    old: Seq<Pod>,
    listing: Result<CAdvisorPods, APIError>,
) -> bool {
    match listing {
        Err(e) => outcome == Err::<(CAdvisorPods, Vec<DaemonSetEvent>), WatcherError>(
            WatcherError { cause: WatcherErrorKind::ReconilationError, error: e },
        ),
        Ok(new_state) => outcome is Ok && outcome->Ok_0.0 == new_state && outcome->Ok_0.1@
            == diff_events(old, new_state.pods@),
    }
}

/// Holds an authoritative listing against the mirrored set: returns the
/// listing as the new state, with the events that lead to it. A listing
/// that could not be had or read is a reconciliation error.
pub fn reconcile(old_state: &CAdvisorPods, listing: Result<CAdvisorPods, APIError>) -> (outcome:
    Result<(CAdvisorPods, Vec<DaemonSetEvent>), WatcherError>)
    ensures
        reconciles(outcome, old_state.pods@, listing),
{
    match listing {
        Err(e) => Err(WatcherError::recon(e)),
        Ok(new_state) => {
            let events = diff(old_state, &new_state);
            Ok((new_state, events))
        },
    }
}

} // verus!
