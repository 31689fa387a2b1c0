//! One querier per pod: what it scrapes, and when.
//!
//! A querier scrapes its pod's metrics back to back while it is running,
//! waits while it is paused, and leaves once it is killed. The caller does
//! the scraping, the sending and the waiting; [`next_action`] decides what
//! comes next.
use vstd::prelude::*;
use crate::client::error::APIError;
use crate::metrics::counter::{nanoseconds, nanoseconds_of};
use crate::metrics::exposition::{
    carries_label, exposition_of, family_of, find_family, has_label, parse, Exposition,
    MetricFamily, SampleLine,
};

verus! {

/// What a querier has last been told to be.
#[derive(Debug, Clone, Copy, PartialEq, Eq, Structural)]
pub enum State {
    Running,
    Paused,
    Killed,
}

/// The pod's aggregate CPU counter as one scrape showed it: the value as
/// the payload wrote it, in seconds of CPU, and the sample's timestamp in
/// milliseconds since the epoch.
#[derive(Debug, PartialEq, Eq)]
pub struct TopLevelMetric {
    pub value: String,
    pub timestamp: i64,
}

impl Clone for TopLevelMetric {
    fn clone(&self) -> (copy: Self)
        ensures
            copy == *self,
    {
        TopLevelMetric { value: self.value.clone(), timestamp: self.timestamp }
    }
}

/// One scrape result of one pod.
#[derive(Debug, PartialEq, Eq)]
pub struct NodeMetric {
    pub uid: String,
    pub metric: TopLevelMetric,
}

impl Clone for NodeMetric {
    fn clone(&self) -> (copy: Self)
        ensures
            copy == *self,
    {
        NodeMetric { uid: self.uid.clone(), metric: self.metric.clone() }
    }
}

/// The first sample of `samples` that carries the label `id="/"`, which
/// marks the pod's aggregate.
pub open spec fn top_level_sample(samples: Seq<SampleLine>) -> Option<SampleLine>
    decreases samples.len(),
{
    if samples.len() == 0 {
        None
    } else if has_label(samples[0].labels@, "id"@, "/"@) {
        Some(samples[0])
    } else {
        top_level_sample(samples.drop_first())
    }
}

/// The CPU counter of a payload: of the first metric named
/// `container_cpu_usage_seconds_total`, the first sample labelled
/// `id="/"`, which must carry a timestamp.
pub open spec fn top_level_of(exposition: Exposition) -> Result<TopLevelMetric, APIError> {
    match family_of(exposition.metrics@, "container_cpu_usage_seconds_total"@) {
        None => Err(APIError::CPUMetricNotFound),
        Some(family) => match top_level_sample(family.samples@) {
            None => Err(APIError::NodeTopLevelContainerMetricNotFound),
            Some(sample) => match sample.timestamp {
                None => Err(APIError::NodeTopLevelContainerMetricNoTimeStamp),
                Some(timestamp) => Ok(TopLevelMetric { value: sample.value, timestamp }),
            },
        },
    }
}

/// The metric that counts CPU seconds, if the payload has it.
pub fn get_cpu_metrics(data: &Exposition) -> (metric: Option<&MetricFamily>)
    ensures
        metric is Some <==> family_of(
            data.metrics@,
            "container_cpu_usage_seconds_total"@,
        ) is Some,
        metric is Some ==> *metric->Some_0 == family_of(
            data.metrics@,
            "container_cpu_usage_seconds_total"@,
        )->Some_0,
{
    find_family(&data.metrics, "container_cpu_usage_seconds_total")
}

fn find_top_level(samples: &Vec<SampleLine>) -> (sample: Option<&SampleLine>)
    ensures
        sample is Some <==> top_level_sample(samples@) is Some,
        sample is Some ==> *sample->Some_0 == top_level_sample(samples@)->Some_0,
{
    let mut i: usize = 0;
    assert(samples@.skip(0) == samples@);
    while i < samples.len()
        invariant
            i <= samples.len(),
            top_level_sample(samples@) == top_level_sample(samples@.skip(i as int)),
        decreases samples.len() - i,
    {
        let ghost rest = samples@.skip(i as int);
        assert(rest.len() > 0 && rest[0] == samples@[i as int]);
        if carries_label(&samples[i].labels, "id", "/") {
            return Some(&samples[i]);
        }
        assert(rest.drop_first() == samples@.skip(i + 1));
        i += 1;
    }
    assert(samples@.skip(i as int).len() == 0);
    None
}

impl TopLevelMetric {
    /// The counter in nanoseconds of CPU: the value's text read as a
    /// decimal number of seconds. Nothing where the text is no such number
    /// or the count does not fit.
    pub fn cpu_nanoseconds(&self) -> (nanos: Option<u64>)
        ensures
            nanos == nanoseconds_of(vstd::utf8::encode_utf8(self.value@)),
    {
        nanoseconds(self.value.as_str())
    }

    /// Picks the pod's aggregate CPU counter out of a parsed payload.
    pub fn try_from(scrape: &Exposition) -> (metric: Result<TopLevelMetric, APIError>)
        ensures
            metric == top_level_of(*scrape),
    {
        let family = match get_cpu_metrics(scrape) {
            Some(family) => family,
            None => { return Err(APIError::CPUMetricNotFound); },
        };
        let sample = match find_top_level(&family.samples) {
            Some(sample) => sample,
            None => { return Err(APIError::NodeTopLevelContainerMetricNotFound); },
        };
        match sample.timestamp {
            None => Err(APIError::NodeTopLevelContainerMetricNoTimeStamp),
            Some(timestamp) => Ok(TopLevelMetric { value: sample.value.clone(), timestamp }),
        }
    }
}

/// Whether `metric` is what the payload `text` of the pod `uid` gives: the
/// counter of its parse, or the parser's error.
pub open spec fn scraped(metric: Result<NodeMetric, APIError>, uid: String, text: Seq<char>) -> bool {
    match exposition_of(text) {
        None => metric is Err && metric->Err_0 is Prometheus,
        Some(exposition) => match top_level_of(exposition) {
            Err(e) => metric == Err::<NodeMetric, APIError>(e),
            Ok(top) => metric == Ok::<NodeMetric, APIError>(NodeMetric { uid, metric: top }),
        },
    }
}

/// Reads the body of one scrape of the pod `uid`.
pub fn query_node_c_advisor(uid: &String, text: &str) -> (metric: Result<NodeMetric, APIError>)
    ensures
        scraped(metric, *uid, text@),
{
    let exposition = match parse(text) {
        Ok(exposition) => exposition,
        Err(e) => { return Err(e); },
    };
    match TopLevelMetric::try_from(&exposition) {
        Ok(metric) => Ok(NodeMetric { uid: uid.clone(), metric }),
        Err(e) => Err(e),
    }
}

/// How long a querier waits after a scrape that failed, in seconds.
pub const RETRY_DELAY_SECS: u64 = 5;

/// What a querier's last operation came to.
#[derive(Debug, PartialEq, Eq)]
pub enum QuerierEvent {
    /// The querier has just been created.
    Started,
    /// The state it waited for has changed.
    StateChanged,
    /// A scrape gave this result.
    Scraped(NodeMetric),
    /// A scrape failed; the error has been logged.
    ScrapeFailed,
    /// The sample was handed to the consumer.
    Sent,
    /// The delay after a failed scrape is over.
    Delayed,
    /// The consumer, or the owner that sets the state, is gone.
    ChannelClosed,
}

/// What a querier is to do next.
#[derive(Debug, PartialEq, Eq)]
pub enum QuerierAction {
    /// Scrape the pod once.
    Scrape,
    /// Hand this sample to the consumer.
    Emit(NodeMetric),
    /// Wait this many seconds, then ask again.
    Delay(u64),
    /// Wait until the state changes.
    AwaitChange,
    /// Leave: the task is over.
    Exit,
}

/// The action that the state alone asks for, between two operations.
pub open spec fn idle_action(state: State) -> QuerierAction {
    match state {
        State::Running => QuerierAction::Scrape,
        State::Paused => QuerierAction::AwaitChange,
        State::Killed => QuerierAction::Exit,
    }
}

/// What follows `event` when the querier has last been told `state`.
///
/// An operation that is under way is finished: a scrape's sample is
/// emitted and a failed scrape is followed by its delay, whatever the
/// state has become meanwhile. Only between operations does the state
/// decide. A closed channel ends the task.
pub open spec fn action_after(state: State, event: QuerierEvent) -> QuerierAction {
    match event {
        QuerierEvent::Scraped(sample) => QuerierAction::Emit(sample),
        QuerierEvent::ScrapeFailed => QuerierAction::Delay(RETRY_DELAY_SECS),
        QuerierEvent::ChannelClosed => QuerierAction::Exit,
        _ => idle_action(state),
    }
}

/// What a scrape came to: a sample, if the payload gave the counter and
/// the counter reads as a count of seconds; a failed scrape in every other
/// case.
pub open spec fn scrape_event(scrape: Result<NodeMetric, APIError>) -> QuerierEvent {
    match scrape {
        Ok(metric) => if nanoseconds_of(vstd::utf8::encode_utf8(metric.metric.value@)) is Some {
            QuerierEvent::Scraped(metric)
        } else {
            QuerierEvent::ScrapeFailed
        },
        Err(_) => QuerierEvent::ScrapeFailed,
    }
}

/// Says what a scrape came to: see [`scrape_event`]. A counter that is no
/// number, negative or too large is a failed scrape, not a sample.
pub fn event_of_scrape(scrape: Result<NodeMetric, APIError>) -> (event: QuerierEvent)
    ensures
        event == scrape_event(scrape),
{
    match scrape {
        Ok(metric) => {
            if metric.metric.cpu_nanoseconds().is_some() {
                QuerierEvent::Scraped(metric)
            } else {
                QuerierEvent::ScrapeFailed
            }
        },
        Err(_) => QuerierEvent::ScrapeFailed,
    }
}

/// Decides a querier's next action: see [`action_after`].
pub fn next_action(state: State, event: QuerierEvent) -> (action: QuerierAction)
    ensures
        action == action_after(state, event),
{
    match event {
        QuerierEvent::Scraped(sample) => QuerierAction::Emit(sample),
        QuerierEvent::ScrapeFailed => QuerierAction::Delay(RETRY_DELAY_SECS),
        QuerierEvent::ChannelClosed => QuerierAction::Exit,
        _ => match state {
            State::Running => QuerierAction::Scrape,
            State::Paused => QuerierAction::AwaitChange,
            State::Killed => QuerierAction::Exit,
        },
    }
}

/// A paused querier scrapes nothing, and a killed one leaves at the next
/// chance: between operations no scrape is ordered unless the state is
/// running, and a kill always orders the exit.
pub proof fn lemma_no_scrape_unless_running(state: State, event: QuerierEvent)
    ensures
        action_after(state, event) is Scrape ==> state == State::Running,
        state == State::Killed && !(event is Scraped) && !(event is ScrapeFailed) ==> action_after(
            state,
            event,
        ) is Exit,
{
}

/// The control end of one querier: a single slot that holds the state it
/// was last told. Only the current state matters, not how it came about.
#[derive(Debug, PartialEq, Eq)]
pub struct QueryTask {
    pub state: State,
}

impl QueryTask {
    /// A querier for a pod: running if the pod is ready, paused if not.
    pub fn new(ready: bool) -> (task: Self)
        ensures
            task.state == (if ready {
                State::Running
            } else {
                State::Paused
            }),
    {
        QueryTask {
            state: if ready {
                State::Running
            } else {
                State::Paused
            },
        }
    }

    /// Tells the querier to pause.
    pub fn pause(&mut self)
        ensures
            final(self).state == State::Paused,
    {
        self.state = State::Paused;
    }

    /// Tells the querier to run.
    pub fn resume(&mut self)
        ensures
            final(self).state == State::Running,
    {
        self.state = State::Running;
    }

    /// Tells the querier to leave, and gives up the control over it: the
    /// state that it is left with.
    pub fn kill(self) -> (last: State)
        ensures
            last == State::Killed,
    {
        State::Killed
    }
}

} // verus!
