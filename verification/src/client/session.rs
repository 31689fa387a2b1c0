//! The watch session: connect, stream, reconcile, and around again.
//!
//! The session decides; its caller acts. The caller performs the command
//! of the current phase (a request, a read of the stream), races it against
//! the stop signal, and hands the outcome to [`WatchSession::step`], which
//! returns the events to publish, in order, and says whether the session
//! has ended.
use vstd::prelude::*;
use crate::client::endpoint::{list_endpoint, list_path, watch_endpoint, watch_path};
use crate::client::error::{APIError, WatcherError, WatcherErrorKind};
use crate::client::frames::{all_decode, frames_after, get_events, pending_after};
use crate::client::json::{pod_list_of, watch_frame_of, Fallback, WatchFrame};
use crate::client::pods::{CAdvisorDaemonSetMetadata, CAdvisorPods, Pod};
use crate::client::reconcile::{
    diff_events, get_daemon_set_pods, lemma_listed_pods_distinct, list_fallbacks, listing_fault,
    reconcile, state_matches,
};
use crate::client::watch::{
    handle_frames, lemma_run_keeps_uids_distinct, run_events, run_fallbacks, run_halt, run_pods,
    DaemonSetEvent, FrameOutcome,
};

verus! {

/// How often a watch request that could not be sent is sent again before
/// the failure is surfaced.
pub const RETRY_ALLOWANCE: u8 = 5;

/// Where a session stands.
#[derive(Debug, Clone, Copy, PartialEq, Eq, Structural)]
pub enum SessionPhase {
    /// A watch request is to be sent.
    Connecting,
    /// The stream is open and is read chunk by chunk.
    Streaming,
    /// The watch window has elapsed; a full listing is to be fetched.
    Reconciling,
    /// The stop signal ended the session.
    Terminated,
    /// An error ended the session.
    Failed,
}

/// What the caller reports back to the session.
#[derive(Debug)]
pub enum SessionInput {
    /// The stop signal fired before the pending operation completed.
    Killed,
    /// The watch request was answered with success; its stream is open.
    Connected,
    /// The watch request failed. With a transport error (`Http`) it could
    /// not be sent, and is sent again while the allowance lasts; any other
    /// error is surfaced at once.
    ConnectFailed(APIError),
    /// The watch request was answered with a status other than success.
    /// This is surfaced at once, whatever the error says of it.
    Refused(APIError),
    /// The stream delivered these bytes.
    Chunk(Vec<u8>),
    /// The stream ended without an error.
    StreamEnded,
    /// The stream broke.
    StreamFailed(APIError),
    /// The list request gave this body, or failed.
    Listed(Result<Vec<u8>, APIError>),
}

/// What the caller is to do next.
#[derive(Debug, PartialEq, Eq)]
pub enum Command {
    /// Send the watch request to this path.
    Connect(String),
    /// Read the next chunk of the open stream.
    Read,
    /// Send the list request to this path.
    List(String),
    /// Nothing more: the session is over.
    Stop,
}

/// How a session ended.
#[derive(Debug)]
pub enum SessionEnd {
    /// By the stop signal: nothing more is published, and nothing is wrong.
    Killed,
    /// By an error, which is the last item that the consumer is handed.
    Failed(WatcherError),
    /// By a modification of a pod that the mirrored set does not hold.
    UnknownPod(Pod),
}

/// What one step gave: the events to publish, in order, the warnings to
/// log, and the end of the session where the step reached it.
#[derive(Debug)]
pub struct Step {
    pub events: Vec<DaemonSetEvent>,
    /// The pods whose readiness could not be read and counts as not ready.
    pub fallbacks: Vec<Fallback>,
    pub end: Option<SessionEnd>,
}

impl Step {
    /// The step publishes nothing and warns of nothing.
    pub open spec fn silent(&self) -> bool {
        self.events@.len() == 0 && self.fallbacks@.len() == 0
    }
}

/// One watch on the pods that `meta` selects.
#[derive(Debug)]
pub struct WatchSession {
    pub meta: CAdvisorDaemonSetMetadata,
    /// The mirrored set, with the cursor from which the watch resumes.
    pub state: CAdvisorPods,
    /// The bound on one watch window, in seconds.
    pub seconds: u64,
    /// The bytes of a frame that the stream has not completed yet.
    pub pending: Vec<u8>,
    pub phase: SessionPhase,
    /// How many more times a failed watch request is sent again.
    pub retries_left: u8,
}

/// The failure with which a step ends the session.
pub open spec fn failure(cause: WatcherErrorKind, error: APIError) -> Option<SessionEnd> {
    Some(SessionEnd::Failed(WatcherError { cause, error }))
}

/// The frames that `chunk` completes, decoded.
pub open spec fn decoded_frames(pending: Seq<u8>, chunk: Seq<u8>) -> Seq<WatchFrame> {
    frames_after(pending, chunk).map_values(|frame: Seq<u8>| watch_frame_of(frame)->Some_0)
}

impl WatchSession {
    /// Whether the session is over.
    pub open spec fn over(&self) -> bool {
        self.phase == SessionPhase::Terminated || self.phase == SessionPhase::Failed
    }

    /// A step that changes nothing but the phase.
    pub open spec fn moved(&self, before: &WatchSession, phase: SessionPhase) -> bool {
        *self == (WatchSession { phase, ..*before })
    }

    /// A session that is about to connect for the first time.
    pub fn new(meta: CAdvisorDaemonSetMetadata, state: CAdvisorPods, seconds: u64) -> (session:
        Self)
        ensures
            session == (WatchSession {
                meta,
                state,
                seconds,
                pending: session.pending,
                phase: SessionPhase::Connecting,
                retries_left: RETRY_ALLOWANCE,
            }),
            session.pending@.len() == 0,
    {
        WatchSession {
            meta,
            state,
            seconds,
            pending: Vec::new(),
            phase: SessionPhase::Connecting,
            retries_left: RETRY_ALLOWANCE,
        }
    }

    /// What the caller is to do in the current phase.
    pub fn command(&self) -> (command: Command)
        ensures
            match self.phase {
                SessionPhase::Connecting => command is Connect && command->Connect_0@
                    == watch_path(self.meta, self.state.version@, self.seconds),
                SessionPhase::Streaming => command is Read,
                SessionPhase::Reconciling => command is List && command->List_0@ == list_path(
                    self.meta,
                ),
                SessionPhase::Terminated => command is Stop,
                SessionPhase::Failed => command is Stop,
            },
    {
        match self.phase {
            SessionPhase::Connecting => Command::Connect(
                watch_endpoint(&self.meta, &self.state.version, self.seconds),
            ),
            SessionPhase::Streaming => Command::Read,
            SessionPhase::Reconciling => Command::List(list_endpoint(&self.meta)),
            SessionPhase::Terminated => Command::Stop,
            SessionPhase::Failed => Command::Stop,
        }
    }

    /// Whether `self` and `step` are what follows `before` on `input`.
    ///
    /// The stop signal ends any running session at once and silently. A
    /// watch request that could not be sent is sent again while the
    /// allowance lasts; one that was refused is surfaced at once. A chunk
    /// is framed, decoded and applied frame by frame. The end of the stream
    /// leads to reconciliation, and a listing that was had and read leads
    /// back to connecting, from its cursor and with a fresh allowance. An
    /// input that the phase does not await changes nothing.
    pub open spec fn follows(&self, before: &WatchSession, input: SessionInput, step: Step) -> bool {
        if before.over() {
            *self == *before && step.silent() && step.end is None
        } else {
            match (before.phase, input) {
                (_, SessionInput::Killed) => {
                    &&& self.moved(before, SessionPhase::Terminated)
                    &&& step.silent()
                    &&& step.end == Some(SessionEnd::Killed)
                },
                (SessionPhase::Connecting, SessionInput::Connected) => {
                    &&& self.moved(before, SessionPhase::Streaming)
                    &&& step.silent()
                    &&& step.end is None
                },
                (SessionPhase::Connecting, SessionInput::ConnectFailed(error)) => {
                    &&& step.silent()
                    &&& if error is Http && before.retries_left > 0 {
                        &&& *self == (WatchSession {
                            retries_left: (before.retries_left - 1) as u8,
                            ..*before
                        })
                        &&& step.end is None
                    } else {
                        &&& self.moved(before, SessionPhase::Failed)
                        &&& step.end == failure(WatcherErrorKind::StreamRetrieveError, error)
                    }
                },
                (SessionPhase::Connecting, SessionInput::Refused(error)) => {
                    &&& self.moved(before, SessionPhase::Failed)
                    &&& step.silent()
                    &&& step.end == failure(WatcherErrorKind::StreamRetrieveError, error)
                },
                (SessionPhase::Streaming, SessionInput::Chunk(chunk)) => {
                    let frames = decoded_frames(before.pending@, chunk@);
                    &&& self.meta == before.meta
                    &&& self.seconds == before.seconds
                    &&& self.retries_left == before.retries_left
                    &&& self.state.version == before.state.version
                    &&& self.pending@ == pending_after(before.pending@, chunk@)
                    &&& if !all_decode(frames_after(before.pending@, chunk@)) {
                        &&& self.phase == SessionPhase::Failed
                        &&& self.state.pods@ == before.state.pods@
                        &&& step.silent()
                        &&& step.end matches Some(SessionEnd::Failed(e)) && e.cause
                            == WatcherErrorKind::StreamNextError && e.error is JsonParse
                    } else {
                        &&& self.state.pods@ == run_pods(before.state.pods@, frames)
                        &&& step.events@ == run_events(before.state.pods@, frames)
                        &&& step.fallbacks@ == run_fallbacks(before.state.pods@, frames)
                        &&& match run_halt(before.state.pods@, frames) {
                            None => self.phase == SessionPhase::Streaming && step.end is None,
                            Some(FrameOutcome::Failed(e)) => self.phase == SessionPhase::Failed
                                && step.end == Some(SessionEnd::Failed(e)),
                            Some(FrameOutcome::UnknownPod(pod)) => self.phase
                                == SessionPhase::Failed && step.end == Some(
                                SessionEnd::UnknownPod(pod),
                            ),
                            Some(_) => false,
                        }
                    }
                },
                (SessionPhase::Streaming, SessionInput::StreamEnded) => {
                    &&& self.moved(before, SessionPhase::Reconciling)
                    &&& step.silent()
                    &&& step.end is None
                },
                (SessionPhase::Streaming, SessionInput::StreamFailed(error)) => {
                    &&& self.moved(before, SessionPhase::Failed)
                    &&& step.silent()
                    &&& step.end == failure(WatcherErrorKind::StreamNextError, error)
                },
                (SessionPhase::Reconciling, SessionInput::Listed(Err(error))) => {
                    &&& self.moved(before, SessionPhase::Failed)
                    &&& step.silent()
                    &&& step.end == failure(WatcherErrorKind::ReconilationError, error)
                },
                (SessionPhase::Reconciling, SessionInput::Listed(Ok(body))) => {
                    match pod_list_of(body@) {
                        None => {
                            &&& self.moved(before, SessionPhase::Failed)
                            &&& step.silent()
                            &&& step.end matches Some(SessionEnd::Failed(e)) && e.cause
                                == WatcherErrorKind::ReconilationError && e.error is JsonParse
                        },
                        Some(list) => match listing_fault(list) {
                            Some(missing) => {
                                &&& self.moved(before, SessionPhase::Failed)
                                &&& step.silent()
                                &&& step.end == failure(
                                    WatcherErrorKind::ReconilationError,
                                    APIError::JsonQuery(missing),
                                )
                            },
                            None => {
                                &&& self.phase == SessionPhase::Connecting
                                &&& self.retries_left == RETRY_ALLOWANCE
                                &&& self.meta == before.meta
                                &&& self.seconds == before.seconds
                                &&& self.pending == before.pending
                                &&& state_matches(Ok::<CAdvisorPods, APIError>(self.state), list)
                                &&& step.events@ == diff_events(
                                    before.state.pods@,
                                    self.state.pods@,
                                )
                                &&& step.fallbacks@ == list_fallbacks(list.items@)
                                &&& step.end is None
                            },
                        },
                    }
                },
                _ => *self == *before && step.silent() && step.end is None,
            }
        }
    }

    /// Takes the outcome of the caller's last operation and moves on.
    ///
    /// The events of the step are to be published in order; after them, if
    /// the session ended on an error, the error. A session that has ended
    /// stays as it is. The mirrored set holds each uid once after the step
    /// if it did before.
    pub fn step(&mut self, input: SessionInput) -> (step: Step)
        ensures
            final(self).follows(old(self), input, step),
            old(self).state.wf() ==> final(self).state.wf(),
    {
        match self.phase {
            SessionPhase::Terminated => { return quiet(); },
            SessionPhase::Failed => { return quiet(); },
            _ => {},
        }
        match input {
            SessionInput::Killed => {
                self.phase = SessionPhase::Terminated;
                ended(SessionEnd::Killed)
            },
            SessionInput::Connected => {
                match self.phase {
                    SessionPhase::Connecting => {
                        self.phase = SessionPhase::Streaming;
                    },
                    _ => {},
                }
                quiet()
            },
            SessionInput::ConnectFailed(error) => {
                match self.phase {
                    SessionPhase::Connecting => {
                        let transport = match &error {
                            APIError::Http(_) => true,
                            _ => false,
                        };
                        if transport && self.retries_left > 0 {
                            self.retries_left = self.retries_left - 1;
                            quiet()
                        } else {
                            self.phase = SessionPhase::Failed;
                            ended(SessionEnd::Failed(WatcherError::stream(error)))
                        }
                    },
                    _ => quiet(),
                }
            },
            SessionInput::Refused(error) => {
                match self.phase {
                    SessionPhase::Connecting => {
                        self.phase = SessionPhase::Failed;
                        ended(SessionEnd::Failed(WatcherError::stream(error)))
                    },
                    _ => quiet(),
                }
            },
            SessionInput::Chunk(chunk) => {
                match self.phase {
                    SessionPhase::Streaming => self.on_chunk(chunk),
                    _ => quiet(),
                }
            },
            SessionInput::StreamEnded => {
                match self.phase {
                    SessionPhase::Streaming => {
                        self.phase = SessionPhase::Reconciling;
                    },
                    _ => {},
                }
                quiet()
            },
            SessionInput::StreamFailed(error) => {
                match self.phase {
                    SessionPhase::Streaming => {
                        self.phase = SessionPhase::Failed;
                        ended(SessionEnd::Failed(WatcherError::next(error)))
                    },
                    _ => quiet(),
                }
            },
            SessionInput::Listed(listing) => {
                match self.phase {
                    SessionPhase::Reconciling => self.on_listing(listing),
                    _ => quiet(),
                }
            },
        }
    }

    fn on_chunk(&mut self, chunk: Vec<u8>) -> (step: Step)
        requires
            old(self).phase == SessionPhase::Streaming,
        ensures
            final(self).follows(old(self), SessionInput::Chunk(chunk), step),
            old(self).state.wf() ==> final(self).state.wf(),
    {
        let frames = match get_events(&mut self.pending, chunk.as_slice()) {
            Ok(frames) => frames,
            Err(e) => {
                self.phase = SessionPhase::Failed;
                return ended(SessionEnd::Failed(e));
            },
        };
        assert(frames@ == decoded_frames(old(self).pending@, chunk@));
        let run = handle_frames(&mut self.state, frames);
        let end = match run.halt {
            None => None,
            Some(FrameOutcome::Failed(e)) => Some(SessionEnd::Failed(e)),
            Some(FrameOutcome::UnknownPod(pod)) => Some(SessionEnd::UnknownPod(pod)),
            Some(_) => {
                proof {
                    lemma_halt_is_no_event(old(self).state.pods@, frames@);
                }
                None
            },
        };
        if end.is_some() {
            self.phase = SessionPhase::Failed;
        }
        Step { events: run.events, fallbacks: run.fallbacks, end }
    }

    fn on_listing(&mut self, listing: Result<Vec<u8>, APIError>) -> (step: Step)
        requires
            old(self).phase == SessionPhase::Reconciling,
        ensures
            final(self).follows(old(self), SessionInput::Listed(listing), step),
            old(self).state.wf() ==> final(self).state.wf(),
    {
        let listed = match listing {
            Err(error) => Err(error),
            Ok(body) => get_daemon_set_pods(body.as_slice()),
        };
        let (new_state, fallbacks) = match listed {
            Err(error) => (Err(error), Vec::new()),
            Ok(listed) => (Ok(listed.state), listed.fallbacks),
        };
        match reconcile(&self.state, new_state) {
            Err(e) => {
                self.phase = SessionPhase::Failed;
                ended(SessionEnd::Failed(e))
            },
            Ok((new_state, events)) => {
                self.state = new_state;
                self.phase = SessionPhase::Connecting;
                self.retries_left = RETRY_ALLOWANCE;
                Step { events, fallbacks, end: None }
            },
        }
    }
}

fn quiet() -> (step: Step)
    ensures
        step.silent(),
        step.end is None,
{
    Step { events: Vec::new(), fallbacks: Vec::new(), end: None }
}

fn ended(end: SessionEnd) -> (step: Step)
    ensures
        step.silent(),
        step.end == Some(end),
{
    Step { events: Vec::new(), fallbacks: Vec::new(), end: Some(end) }
}

/// A run of frames ends early only on a frame that does not let the
/// session read on.
proof fn lemma_halt_is_no_event(pods: Seq<Pod>, frames: Seq<WatchFrame>)
    ensures
        run_halt(pods, frames) matches Some(outcome) ==> outcome is Failed || outcome is UnknownPod,
    decreases frames.len(),
{
    if frames.len() > 0 && crate::client::watch::goes_on(
        crate::client::watch::outcome_of(pods, frames[0]),
    ) {
        lemma_halt_is_no_event(
            crate::client::watch::pods_after(pods, frames[0]),
            frames.drop_first(),
        );
    }
}

/// One step keeps the uids of the mirrored set apart.
pub proof fn lemma_step_keeps_uids_distinct(
    before: WatchSession,
    input: SessionInput,
    after: WatchSession,
    step: Step,
)
    requires
        after.follows(&before, input, step),
        before.state.wf(),
    ensures
        after.state.wf(),
{
    if !before.over() {
        match (before.phase, input) {
            (SessionPhase::Streaming, SessionInput::Chunk(chunk)) => {
                lemma_run_keeps_uids_distinct(
                    before.state.pods@,
                    decoded_frames(before.pending@, chunk@),
                );
            },
            (SessionPhase::Reconciling, SessionInput::Listed(Ok(body))) => {
                if let Some(list) = pod_list_of(body@) {
                    lemma_listed_pods_distinct(list.items@);
                }
            },
            _ => {},
        }
    }
}

/// The sessions `sessions` follow one another on the inputs `inputs`.
pub open spec fn is_run(
    sessions: Seq<WatchSession>,
    inputs: Seq<SessionInput>,
    steps: Seq<Step>,
) -> bool {
    &&& sessions.len() == inputs.len() + 1
    &&& steps.len() == inputs.len()
    &&& forall|i: int|
        0 <= i < inputs.len() ==> (#[trigger] sessions[i + 1]).follows(
            &sessions[i],
            inputs[i],
            steps[i],
        )
}

/// Uid uniqueness: whatever frames and listings a session is fed, in
/// whatever order, its mirrored set holds no uid twice, as long as it
/// started so.
pub proof fn lemma_uids_stay_unique(
    sessions: Seq<WatchSession>,
    inputs: Seq<SessionInput>,
    steps: Seq<Step>,
    n: int,
)
    requires
        is_run(sessions, inputs, steps),
        sessions[0].state.wf(),
        0 <= n < sessions.len(),
    ensures
        sessions[n].state.wf(),
    decreases n,
{
    if n > 0 {
        lemma_uids_stay_unique(sessions, inputs, steps, n - 1);
        assert(sessions[n - 1 + 1].follows(&sessions[n - 1], inputs[n - 1], steps[n - 1]));
        lemma_step_keeps_uids_distinct(sessions[n - 1], inputs[n - 1], sessions[n], steps[n - 1]);
    }
}

} // verus!
