//! Watch frames applied to the mirrored set, and the events that follow.
use vstd::prelude::*;
use vstd::string::StringExecFns;
use crate::client::error::{APIError, JsonQuery, WatcherError};
use crate::client::json::{
    fallback, fallback_of, parse_pod_object, parsed_pod_object, Fallback, JsonPod, WatchFrame,
};
use crate::client::pods::{
    distinct_uids, has_uid, index_of, lemma_index_of, pod_of, without_uid, CAdvisorPods, Pod,
};

verus! {

/// What happened to a pod: it came, it went, or its readiness flipped.
#[derive(Debug, Clone, Copy, PartialEq, Eq, Structural)]
pub enum EventKind {
    Created,
    Deleted,
    Paused,
    Resumed,
}

/// A change of the mirrored set, as the consumer is told of it.
#[derive(Debug, PartialEq, Eq)]
pub struct DaemonSetEvent {
    pub pod: Pod,
    pub kind: EventKind,
}

/// What an event says of its pod.
pub open spec fn kind_text(kind: EventKind, ready: bool) -> Seq<char> {
    match kind {
        EventKind::Created => if ready {
            "created - running\n"@
        } else {
            "created - paused\n"@
        },
        EventKind::Deleted => "deleted\n"@,
        EventKind::Paused => "paused\n"@,
        EventKind::Resumed => "resumed\n"@,
    }
}

impl DaemonSetEvent {
    /// The event in one line, for a reader: `Pod {name}: ` and what
    /// happened to it.
    pub fn to_string(&self) -> (text: String)
        ensures
            text@ == "Pod "@ + self.pod.name@ + ": "@ + kind_text(self.kind, self.pod.status),
    {
        let mut text = "Pod ".to_owned();
        text.append(self.pod.name.as_str());
        text.append(": ");
        match self.kind {
            EventKind::Created => {
                if self.pod.status {
                    text.append("created - running\n");
                } else {
                    text.append("created - paused\n");
                }
            },
            EventKind::Deleted => {
                text.append("deleted\n");
            },
            EventKind::Paused => {
                text.append("paused\n");
            },
            EventKind::Resumed => {
                text.append("resumed\n");
            },
        }
        text
    }
}

/// The kind of event that a flip to `ready` is.
pub open spec fn flip_kind(ready: bool) -> EventKind {
    if ready {
        EventKind::Resumed
    } else {
        EventKind::Paused
    }
}

/// What one frame does, beside changing the mirrored set.
#[derive(Debug)]
pub enum FrameOutcome {
    /// Nothing to tell: a frame that is passed over, or a modification that
    /// left the readiness as it was.
    Quiet,
    /// The mirrored set changed; the consumer is told.
    Event(DaemonSetEvent),
    /// The frame's pod could not be read. This ends the session.
    Failed(WatcherError),
    /// A modification named a pod that the mirrored set does not hold. The
    /// stream never does this; a caller may treat it as a broken assumption.
    UnknownPod(Pod),
}

/// The mirrored pods after a frame whose pod read as `pod`.
pub open spec fn pods_after(pods: Seq<Pod>, frame: WatchFrame) -> Seq<Pod> {
    match frame {
        WatchFrame::Added(object) => match parsed_pod_object(object) {
            Ok(pod) => without_uid(pods, pod.uid@).push(pod),
            Err(_) => pods,
        },
        WatchFrame::Deleted(object) => match parsed_pod_object(object) {
            Ok(pod) => without_uid(pods, pod.uid@),
            Err(_) => pods,
        },
        WatchFrame::Modified(object) => match parsed_pod_object(object) {
            Ok(pod) => if has_uid(pods, pod.uid@) {
                pods.update(
                    index_of(pods, pod.uid@),
                    Pod { status: pod.status, ..pod_of(pods, pod.uid@) },
                )
            } else {
                pods
            },
            Err(_) => pods,
        },
        WatchFrame::Other => pods,
    }
}

/// What a frame does to mirrored pods `pods`, beside changing them.
pub open spec fn outcome_of(pods: Seq<Pod>, frame: WatchFrame) -> FrameOutcome {
    match frame {
        WatchFrame::Added(object) => match parsed_pod_object(object) {
            Ok(pod) => FrameOutcome::Event(DaemonSetEvent { pod, kind: EventKind::Created }),
            Err(missing) => unreadable(missing),
        },
        WatchFrame::Deleted(object) => match parsed_pod_object(object) {
            Ok(pod) => FrameOutcome::Event(DaemonSetEvent { pod, kind: EventKind::Deleted }),
            Err(missing) => unreadable(missing),
        },
        WatchFrame::Modified(object) => match parsed_pod_object(object) {
            Ok(pod) => if !has_uid(pods, pod.uid@) {
                FrameOutcome::UnknownPod(pod)
            } else if pod_of(pods, pod.uid@).status == pod.status {
                FrameOutcome::Quiet
            } else {
                FrameOutcome::Event(DaemonSetEvent { pod, kind: flip_kind(pod.status) })
            },
            Err(missing) => unreadable(missing),
        },
        WatchFrame::Other => FrameOutcome::Quiet,
    }
}

/// The failure of a frame whose pod lacks the field `missing`.
pub open spec fn unreadable(missing: JsonQuery) -> FrameOutcome {
    FrameOutcome::Failed(
        WatcherError {
            cause: crate::client::error::WatcherErrorKind::StreamNextError,
            error: APIError::JsonQuery(missing),
        },
    )
}

/// A frame whose outcome lets the session read on.
pub open spec fn goes_on(outcome: FrameOutcome) -> bool {
    outcome is Quiet || outcome is Event
}

fn read_object(object: JsonPod) -> (read: Result<Pod, FrameOutcome>)
    ensures
        match parsed_pod_object(object) {
            Ok(pod) => read == Ok::<Pod, FrameOutcome>(pod),
            Err(missing) => read == Err::<Pod, FrameOutcome>(unreadable(missing)),
        },
{
    match parse_pod_object(object) {
        Ok(pod) => Ok(pod),
        Err(missing) => Err(FrameOutcome::Failed(WatcherError::next(APIError::JsonQuery(missing)))),
    }
}

/// Applies one frame of the stream to the mirrored set.
///
/// An added pod takes the place of the pod with its uid; a deleted pod
/// leaves; a modified pod has its readiness taken over, and the consumer
/// is told only where it flipped.
pub fn handle_frame(state: &mut CAdvisorPods, frame: WatchFrame) -> (outcome: FrameOutcome)
    ensures
        outcome == outcome_of(old(state).pods@, frame),
        final(state).pods@ == pods_after(old(state).pods@, frame),
        final(state).version == old(state).version,
        old(state).wf() ==> final(state).wf(),
{
    match frame {
        WatchFrame::Added(object) => {
            let pod = match read_object(object) {
                Ok(pod) => pod,
                Err(failed) => { return failed; },
            };
            state.insert(pod.clone());
            FrameOutcome::Event(DaemonSetEvent { pod, kind: EventKind::Created })
        },
        WatchFrame::Deleted(object) => {
            let pod = match read_object(object) {
                Ok(pod) => pod,
                Err(failed) => { return failed; },
            };
            state.remove(&pod);
            FrameOutcome::Event(DaemonSetEvent { pod, kind: EventKind::Deleted })
        },
        WatchFrame::Modified(object) => {
            let pod = match read_object(object) {
                Ok(pod) => pod,
                Err(failed) => { return failed; },
            };
            proof {
                if has_uid(state.pods@, pod.uid@) {
                    lemma_index_of(state.pods@, pod.uid@);
                }
            }
            let ghost before = state.pods@;
            let flipped = match state.get_mut(&pod) {
                Some(mirrored) => {
                    if mirrored.status == pod.status {
                        Some(false)
                    } else {
                        mirrored.status = pod.status;
                        Some(true)
                    }
                },
                None => None,
            };
            match flipped {
                None => FrameOutcome::UnknownPod(pod),
                Some(false) => {
                    assert(state.pods@ == before);
                    FrameOutcome::Quiet
                },
                Some(true) => {
                    proof {
                        lemma_update_status_distinct(before, index_of(before, pod.uid@), pod.status);
                    }
                    let kind = if pod.status {
                        EventKind::Resumed
                    } else {
                        EventKind::Paused
                    };
                    FrameOutcome::Event(DaemonSetEvent { pod, kind })
                },
            }
        },
        WatchFrame::Other => FrameOutcome::Quiet,
    }
}

/// A pod whose readiness alone changes keeps the uids apart.
pub proof fn lemma_update_status_distinct(pods: Seq<Pod>, i: int, status: bool)
    requires
        0 <= i < pods.len(),
    ensures
        distinct_uids(pods) ==> distinct_uids(pods.update(i, Pod { status, ..pods[i] })),
{
    let after = pods.update(i, Pod { status, ..pods[i] });
    if distinct_uids(pods) {
        assert forall|a: int, b: int| 0 <= a < b < after.len() implies (#[trigger] after[a]).uid@
            != (#[trigger] after[b]).uid@ by {
            assert(after[a].uid == pods[a].uid);
            assert(after[b].uid == pods[b].uid);
        }
    }
}

/// The mirrored pods after a run of frames, applied in order up to the
/// first one that does not let the session read on.
pub open spec fn run_pods(pods: Seq<Pod>, frames: Seq<WatchFrame>) -> Seq<Pod>
    decreases frames.len(),
{
    if frames.len() == 0 {
        pods
    } else if goes_on(outcome_of(pods, frames[0])) {
        run_pods(pods_after(pods, frames[0]), frames.drop_first())
    } else {
        pods
    }
}

/// The events of a run of frames, in order, up to the first frame that
/// does not let the session read on.
pub open spec fn run_events(pods: Seq<Pod>, frames: Seq<WatchFrame>) -> Seq<DaemonSetEvent>
    decreases frames.len(),
{
    if frames.len() == 0 {
        Seq::empty()
    } else {
        match outcome_of(pods, frames[0]) {
            FrameOutcome::Quiet => run_events(pods_after(pods, frames[0]), frames.drop_first()),
            FrameOutcome::Event(event) => seq![event] + run_events(
                pods_after(pods, frames[0]),
                frames.drop_first(),
            ),
            _ => Seq::empty(),
        }
    }
}

/// The outcome that ended a run of frames early, if one did.
pub open spec fn run_halt(pods: Seq<Pod>, frames: Seq<WatchFrame>) -> Option<FrameOutcome>
    decreases frames.len(),
{
    if frames.len() == 0 {
        None
    } else if goes_on(outcome_of(pods, frames[0])) {
        run_halt(pods_after(pods, frames[0]), frames.drop_first())
    } else {
        Some(outcome_of(pods, frames[0]))
    }
}

/// The warning that a frame calls for: that of its pod.
pub open spec fn frame_fallback(frame: WatchFrame) -> Option<Fallback> {
    match frame {
        WatchFrame::Added(object) => fallback_of(object),
        WatchFrame::Deleted(object) => fallback_of(object),
        WatchFrame::Modified(object) => fallback_of(object),
        WatchFrame::Other => None,
    }
}

/// The warnings of a run of frames, in order, up to and with the first
/// frame that does not let the session read on.
pub open spec fn run_fallbacks(pods: Seq<Pod>, frames: Seq<WatchFrame>) -> Seq<Fallback>
    decreases frames.len(),
{
    if frames.len() == 0 {
        Seq::empty()
    } else {
        let first = match frame_fallback(frames[0]) {
            Some(warning) => seq![warning],
            None => Seq::empty(),
        };
        if goes_on(outcome_of(pods, frames[0])) {
            first + run_fallbacks(pods_after(pods, frames[0]), frames.drop_first())
        } else {
            first
        }
    }
}

/// The warning that a frame calls for: see [`frame_fallback`].
pub fn warning_of(frame: &WatchFrame) -> (warning: Option<Fallback>)
    ensures
        warning == frame_fallback(*frame),
{
    match frame {
        WatchFrame::Added(object) => fallback(object),
        WatchFrame::Deleted(object) => fallback(object),
        WatchFrame::Modified(object) => fallback(object),
        WatchFrame::Other => None,
    }
}

/// What a run of frames gave: the events to publish, the warnings to
/// log, and the outcome that ended it early, if one did.
#[derive(Debug)]
pub struct FrameRun {
    pub events: Vec<DaemonSetEvent>,
    pub fallbacks: Vec<Fallback>,
    pub halt: Option<FrameOutcome>,
}

/// Applies the frames of one chunk in order. The run ends at the first
/// frame whose pod cannot be read or is not known; the events of the
/// frames before it stand. A pod whose readiness cannot be read counts
/// as not ready, with a warning.
pub fn handle_frames(state: &mut CAdvisorPods, frames: Vec<WatchFrame>) -> (run: FrameRun)
    ensures
        run.events@ == run_events(old(state).pods@, frames@),
        run.fallbacks@ == run_fallbacks(old(state).pods@, frames@),
        run.halt == run_halt(old(state).pods@, frames@),
        final(state).pods@ == run_pods(old(state).pods@, frames@),
        final(state).version == old(state).version,
        old(state).wf() ==> final(state).wf(),
{
    let mut events: Vec<DaemonSetEvent> = Vec::new();
    let mut fallbacks: Vec<Fallback> = Vec::new();
    assert(frames@.skip(0) == frames@);
    for frame in it: frames
        invariant
            it.seq() == frames@,
            run_events(old(state).pods@, frames@) == events@ + run_events(
                state.pods@,
                frames@.skip(it.index() as int),
            ),
            run_fallbacks(old(state).pods@, frames@) == fallbacks@ + run_fallbacks(
                state.pods@,
                frames@.skip(it.index() as int),
            ),
            run_halt(old(state).pods@, frames@) == run_halt(
                state.pods@,
                frames@.skip(it.index() as int),
            ),
            run_pods(old(state).pods@, frames@) == run_pods(
                state.pods@,
                frames@.skip(it.index() as int),
            ),
            state.version == old(state).version,
            old(state).wf() ==> state.wf(),
    {
        let ghost rest = frames@.skip(it.index() as int);
        let ghost before = state.pods@;
        let ghost warned = fallbacks@;
        assert(rest[0] == frame);
        assert(rest.drop_first() == frames@.skip(it.index() + 1));
        match warning_of(&frame) {
            Some(warning) => {
                fallbacks.push(warning);
                assert(warned + (seq![warning] + run_fallbacks(
                    pods_after(before, frame),
                    rest.drop_first(),
                )) == warned.push(warning) + run_fallbacks(
                    pods_after(before, frame),
                    rest.drop_first(),
                ));
                assert(warned + seq![warning] == warned.push(warning));
            },
            None => {
                assert(Seq::<Fallback>::empty() + run_fallbacks(
                    pods_after(before, frame),
                    rest.drop_first(),
                ) == run_fallbacks(pods_after(before, frame), rest.drop_first()));
                assert(warned + Seq::<Fallback>::empty() == warned);
            },
        }
        match handle_frame(state, frame) {
            FrameOutcome::Quiet => {},
            FrameOutcome::Event(event) => {
                assert(events@.push(event) + run_events(state.pods@, rest.drop_first())
                    == events@ + (seq![event] + run_events(state.pods@, rest.drop_first())));
                events.push(event);
            },
            halt => {
                assert(state.pods@ == before);
                assert(events@ + Seq::<DaemonSetEvent>::empty() == events@);
                return FrameRun { events, fallbacks, halt: Some(halt) };
            },
        }
    }
    assert(frames@.skip(frames@.len() as int).len() == 0);
    assert(events@ + Seq::<DaemonSetEvent>::empty() == events@);
    assert(fallbacks@ + Seq::<Fallback>::empty() == fallbacks@);
    FrameRun { events, fallbacks, halt: None }
}

/// No frame makes a uid occur twice.
pub proof fn lemma_frame_keeps_uids_distinct(pods: Seq<Pod>, frame: WatchFrame)
    requires
        distinct_uids(pods),
    ensures
        distinct_uids(pods_after(pods, frame)),
{
    match frame {
        WatchFrame::Added(object) => {
            if let Ok(pod) = parsed_pod_object(object) {
                lemma_without_uid_distinct(pods, pod.uid@);
                let rest = without_uid(pods, pod.uid@);
                let all = rest.push(pod);
                assert forall|a: int, b: int| 0 <= a < b < all.len() implies (#[trigger] all[a]).uid@
                    != (#[trigger] all[b]).uid@ by {
                    assert(all[a] == rest[a]);
                    if b < rest.len() {
                        assert(all[b] == rest[b]);
                    }
                }
            }
        },
        WatchFrame::Deleted(object) => {
            if let Ok(pod) = parsed_pod_object(object) {
                lemma_without_uid_distinct(pods, pod.uid@);
            }
        },
        WatchFrame::Modified(object) => {
            if let Ok(pod) = parsed_pod_object(object) {
                if has_uid(pods, pod.uid@) {
                    lemma_index_of(pods, pod.uid@);
                    lemma_update_status_distinct(pods, index_of(pods, pod.uid@), pod.status);
                }
            }
        },
        WatchFrame::Other => {},
    }
}

/// Taking a uid out of pods that hold each uid once leaves none of it.
pub proof fn lemma_without_uid_distinct(pods: Seq<Pod>, uid: Seq<char>)
    requires
        distinct_uids(pods),
    ensures
        distinct_uids(without_uid(pods, uid)),
        !has_uid(without_uid(pods, uid), uid),
{
    if has_uid(pods, uid) {
        lemma_index_of(pods, uid);
        crate::client::pods::lemma_remove_distinct(pods, index_of(pods, uid));
    }
}

/// No run of frames makes a uid occur twice.
pub proof fn lemma_run_keeps_uids_distinct(pods: Seq<Pod>, frames: Seq<WatchFrame>)
    requires
        distinct_uids(pods),
    ensures
        distinct_uids(run_pods(pods, frames)),
    decreases frames.len(),
{
    if frames.len() > 0 && goes_on(outcome_of(pods, frames[0])) {
        lemma_frame_keeps_uids_distinct(pods, frames[0]);
        lemma_run_keeps_uids_distinct(pods_after(pods, frames[0]), frames.drop_first());
    }
}

} // verus!
