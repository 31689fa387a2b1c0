//! The controller: one querier per pod, one history per scraped pod, and
//! one total per round.
//!
//! The controller owns the tables. It is told of every event of the watch
//! and of every sample of the queriers, one at a time, and answers with
//! what its caller is to do to the queriers and with the totals of the
//! rounds that complete.
use vstd::prelude::*;
use crate::client::error::WatcherError;
use crate::client::pods::Pod;
use crate::client::watch::{DaemonSetEvent, EventKind};
use crate::metrics::node::NodeMetricCollector;
use crate::metrics::uids::{without, UidSet};

verus! {

/// The rate history of the pod `uid`.
#[derive(Debug, PartialEq, Eq)]
pub struct PodCollector {
    pub uid: String,
    pub history: NodeMetricCollector,
}

/// What a run leaves behind: the history of each pod that was still
/// scraped at the end, and the series of totals with their dates.
#[derive(Debug, PartialEq, Eq)]
pub struct ScrapeResult {
    pub collector_map: Vec<PodCollector>,
    /// The totals, in millionths of a core.
    pub cpu_percentages: Vec<u128>,
    /// The totals' dates, in half milliseconds.
    pub timestamps: Vec<i128>,
}

/// What the caller is to do to the queriers.
#[derive(Debug)]
pub enum Directive {
    /// Start a querier for this pod: running if the pod is ready, paused
    /// if not.
    Spawn(Pod),
    /// Pause the querier of this uid.
    Pause(String),
    /// Resume the querier of this uid.
    Resume(String),
    /// Kill the querier of this uid and wait for it to leave.
    Kill(String),
    /// The watch is lost, and with it the source of truth: shut down.
    Shutdown(WatcherError),
}

/// The tables of a run.
#[derive(Debug)]
pub struct Controller {
    /// The histories, one per pod that has been scraped and still has a
    /// querier.
    pub collectors: Vec<PodCollector>,
    /// The uids whose querier is running.
    pub running: UidSet,
    /// The uids whose querier is paused.
    pub paused: UidSet,
    /// The uids that gave a fresh point in the round under way.
    pub round_set: UidSet,
    /// The earliest date of the round under way.
    pub round_min: Option<i128>,
    /// The totals of the completed rounds.
    pub cpu_percentages: Vec<u128>,
    /// The dates of the completed rounds.
    pub timestamps: Vec<i128>,
}

/// Some collector of `collectors` is of `uid`.
pub open spec fn collects(collectors: Seq<PodCollector>, uid: Seq<char>) -> bool {
    exists|i: int| 0 <= i < collectors.len() && (#[trigger] collectors[i]).uid@ == uid
}

/// `i` is the first position of a collector of `uid`.
pub open spec fn collector_at(collectors: Seq<PodCollector>, uid: Seq<char>, i: int) -> bool {
    &&& 0 <= i < collectors.len()
    &&& collectors[i].uid@ == uid
    &&& forall|j: int| 0 <= j < i ==> (#[trigger] collectors[j]).uid@ != uid
}

/// The position of the first collector of `uid`, where there is one.
pub open spec fn collector_index(collectors: Seq<PodCollector>, uid: Seq<char>) -> int {
    choose|i: int| collector_at(collectors, uid, i)
}

/// The sum over all collectors of the rate that each gives for `time`.
pub open spec fn total_at(collectors: Seq<PodCollector>, time: int) -> int
    decreases collectors.len(),
{
    if collectors.len() == 0 {
        0
    } else {
        total_at(collectors.drop_last(), time) + collectors.last().history.rate_at(time)
    }
}

/// The earlier of the round's earliest date so far and a new date.
pub open spec fn earliest(so_far: Option<i128>, date: i128) -> i128 {
    match so_far {
        Some(min) if min <= date => min,
        _ => date,
    }
}

impl Controller {
    /// The uid has a querier, running or paused.
    pub open spec fn knows(&self, uid: Seq<char>) -> bool {
        self.running.has(uid) || self.paused.has(uid)
    }

    /// The tables fit together: no querier is both running and paused, a
    /// pod has at most one history and only while it has a querier, every
    /// history is well formed, a round under way has a date, and every
    /// total has one.
    pub open spec fn wf(&self) -> bool {
        &&& self.running.wf()
        &&& self.paused.wf()
        &&& self.round_set.wf()
        &&& forall|uid: Seq<char>| !(self.running.has(uid) && self.paused.has(uid))
        &&& forall|i: int, j: int|
            0 <= i < j < self.collectors@.len() ==> (#[trigger] self.collectors@[i]).uid@ != (
            #[trigger] self.collectors@[j]).uid@
        &&& forall|i: int|
            0 <= i < self.collectors@.len() ==> (#[trigger] self.collectors@[i]).history.wf()
                && self.knows(self.collectors@[i].uid@)
        &&& self.round_set@.len() > 0 ==> self.round_min is Some
        &&& self.cpu_percentages@.len() == self.timestamps@.len()
    }

    /// Empty tables.
    pub fn new() -> (controller: Self)
        ensures
            controller.wf(),
            controller.collectors@.len() == 0,
            controller.running@.len() == 0,
            controller.paused@.len() == 0,
            controller.round_set@.len() == 0,
            controller.round_min is None,
            controller.cpu_percentages@.len() == 0,
            controller.timestamps@.len() == 0,
    {
        Controller {
            collectors: Vec::new(),
            running: UidSet::new(),
            paused: UidSet::new(),
            round_set: UidSet::new(),
            round_min: None,
            cpu_percentages: Vec::new(),
            timestamps: Vec::new(),
        }
    }

    /// Whether the uid has a querier.
    pub fn is_known(&self, uid: &String) -> (known: bool)
        ensures
            known == self.knows(uid@),
    {
        self.running.contains(uid) || self.paused.contains(uid)
    }

    /// Where the history of `uid` stands.
    pub fn collector_position(&self, uid: &String) -> (found: Option<usize>)
        ensures
            found is Some <==> collects(self.collectors@, uid@),
            found is Some ==> collector_at(self.collectors@, uid@, found->Some_0 as int),
            found is Some ==> found->Some_0 == collector_index(self.collectors@, uid@),
    {
        let mut i: usize = 0;
        while i < self.collectors.len()
            invariant
                i <= self.collectors.len(),
                forall|j: int| 0 <= j < i ==> (#[trigger] self.collectors@[j]).uid@ != uid@,
            decreases self.collectors.len() - i,
        {
            if self.collectors[i].uid == *uid {
                assert(collector_at(self.collectors@, uid@, i as int));
                return Some(i);
            }
            i += 1;
        }
        None
    }

    /// The total of all histories at the date `time`.
    pub fn total(&self, time: i128) -> (sum: u128)
        requires
            forall|i: int|
                0 <= i < self.collectors@.len() ==> (#[trigger] self.collectors@[i]).history.wf(),
        ensures
            sum == total_at(self.collectors@, time as int),
    {
        let mut sum: u128 = 0;
        let mut i: usize = 0;
        assert(self.collectors@.take(0) == Seq::<PodCollector>::empty());
        while i < self.collectors.len()
            invariant
                i <= self.collectors.len(),
                forall|k: int|
                    0 <= k < self.collectors@.len() ==> (
                    #[trigger] self.collectors@[k]).history.wf(),
                sum == total_at(self.collectors@.take(i as int), time as int),
                sum <= i * u64::MAX,
            decreases self.collectors.len() - i,
        {
            let rate = self.collectors[i].history.interporlate(time);
            proof {
                let next = self.collectors@.take(i + 1);
                assert(next.drop_last() == self.collectors@.take(i as int));
                assert(next.last() == self.collectors@[i as int]);
                assert((i + 1) * u64::MAX == i * u64::MAX + u64::MAX) by (nonlinear_arith);
                assert(i * u64::MAX + u64::MAX <= u128::MAX) by (nonlinear_arith)
                    requires
                        0 <= i <= u64::MAX,
                ;
            }
            sum = sum + rate as u128;
            i += 1;
        }
        assert(self.collectors@.take(i as int) == self.collectors@);
        sum
    }

    /// Whether the tables can take this event: a created pod has no
    /// querier yet, a paused one has a running querier, a resumed one a
    /// paused querier, and a deleted one has a querier.
    pub open spec fn expects(&self, event: Result<DaemonSetEvent, WatcherError>) -> bool {
        match event {
            Err(_) => true,
            Ok(event) => match event.kind {
                EventKind::Created => !self.knows(event.pod.uid@),
                EventKind::Paused => self.running.has(event.pod.uid@),
                EventKind::Resumed => self.paused.has(event.pod.uid@),
                EventKind::Deleted => self.knows(event.pod.uid@),
            },
        }
    }

    /// Whether the tables can take this event: see [`Controller::expects`].
    pub fn can_handle(&self, event: &Result<DaemonSetEvent, WatcherError>) -> (ok: bool)
        ensures
            ok == self.expects(*event),
    {
        match event {
            Err(_) => true,
            Ok(event) => match event.kind {
                EventKind::Created => !self.is_known(&event.pod.uid),
                EventKind::Paused => self.running.contains(&event.pod.uid),
                EventKind::Resumed => self.paused.contains(&event.pod.uid),
                EventKind::Deleted => self.is_known(&event.pod.uid),
            },
        }
    }

    /// Whether `self` and `directive` are what follows `before` on `event`.
    ///
    /// A created pod gets a querier, running if it is ready and paused if
    /// not. A paused pod's querier moves from the running to the paused, a
    /// resumed pod's the other way. A deleted pod loses its querier and,
    /// with it, its history. An error of the watch ends the run. The round
    /// under way and the totals are left alone.
    pub open spec fn handled(
        &self,
        before: &Controller,
        event: Result<DaemonSetEvent, WatcherError>,
        directive: Directive,
    ) -> bool {
        &&& self.round_set == before.round_set
        &&& self.round_min == before.round_min
        &&& self.cpu_percentages == before.cpu_percentages
        &&& self.timestamps == before.timestamps
        &&& match event {
            Err(error) => {
                &&& directive == Directive::Shutdown(error)
                &&& self.collectors == before.collectors
                &&& self.running == before.running
                &&& self.paused == before.paused
            },
            Ok(event) => {
                let uid = event.pod.uid@;
                match event.kind {
                    EventKind::Created => {
                        &&& directive == Directive::Spawn(event.pod)
                        &&& self.collectors == before.collectors
                        &&& if event.pod.status {
                            self.running@ == before.running@.push(uid) && self.paused
                                == before.paused
                        } else {
                            self.paused@ == before.paused@.push(uid) && self.running
                                == before.running
                        }
                    },
                    EventKind::Paused => {
                        &&& directive == Directive::Pause(event.pod.uid)
                        &&& self.collectors == before.collectors
                        &&& self.running@ == without(before.running@, uid)
                        &&& self.paused@ == before.paused@.push(uid)
                    },
                    EventKind::Resumed => {
                        &&& directive == Directive::Resume(event.pod.uid)
                        &&& self.collectors == before.collectors
                        &&& self.paused@ == without(before.paused@, uid)
                        &&& self.running@ == before.running@.push(uid)
                    },
                    EventKind::Deleted => {
                        &&& directive == Directive::Kill(event.pod.uid)
                        &&& self.running@ == without(before.running@, uid)
                        &&& self.paused@ == without(before.paused@, uid)
                        &&& self.collectors@ == if collects(before.collectors@, uid) {
                            before.collectors@.remove(collector_index(before.collectors@, uid))
                        } else {
                            before.collectors@
                        }
                    },
                }
            },
        }
    }

    /// Takes one item of the watch and says what is to be done to the
    /// queriers.
    pub fn handle_event(&mut self, event: Result<DaemonSetEvent, WatcherError>) -> (directive:
        Directive)
        requires
            old(self).wf(),
            old(self).expects(event),
        ensures
            final(self).wf(),
            final(self).handled(old(self), event, directive),
    {
        let event = match event {
            Err(error) => { return Directive::Shutdown(error); },
            Ok(event) => event,
        };
        let DaemonSetEvent { pod, kind } = event;
        match kind {
            EventKind::Created => {
                if pod.status {
                    self.running.insert(pod.uid.clone());
                } else {
                    self.paused.insert(pod.uid.clone());
                }
                Directive::Spawn(pod)
            },
            EventKind::Paused => {
                self.running.remove(&pod.uid);
                self.paused.insert(pod.uid.clone());
                Directive::Pause(pod.uid)
            },
            EventKind::Resumed => {
                self.paused.remove(&pod.uid);
                self.running.insert(pod.uid.clone());
                Directive::Resume(pod.uid)
            },
            EventKind::Deleted => {
                self.running.remove(&pod.uid);
                self.paused.remove(&pod.uid);
                match self.collector_position(&pod.uid) {
                    Some(i) => {
                        let ghost before = self.collectors@;
                        self.collectors.remove(i);
                        proof {
                            let after = self.collectors@;
                            assert forall|a: int| 0 <= a < after.len() implies (
                            #[trigger] after[a]) == before[if a < i { a } else { a + 1 }] by {}
                            assert forall|a: int, b: int| 0 <= a < b < after.len() implies (
                            #[trigger] after[a]).uid@ != (#[trigger] after[b]).uid@ by {
                                assert(after[a] == before[if a < i { a } else { a + 1 }]);
                                assert(after[b] == before[if b < i { b } else { b + 1 }]);
                            }
                            assert forall|a: int| 0 <= a < after.len() implies (
                            #[trigger] after[a]).history.wf() && self.knows(after[a].uid@) by {
                                let a0 = if a < i { a } else { a + 1 };
                                assert(after[a] == before[a0]);
                                assert(before[a0].uid@ != before[i as int].uid@);
                            }
                        }
                    },
                    None => {},
                }
                Directive::Kill(pod.uid)
            },
        }
    }

    /// Whether the history of `uid` can take this sample: see
    /// [`NodeMetricCollector::admits`]. A pod without a history can take
    /// any.
    pub open spec fn admits(&self, uid: Seq<char>, time: i64, cpu: u64) -> bool {
        collects(self.collectors@, uid) ==> self.collectors@[collector_index(
            self.collectors@,
            uid,
        )].history.admits(time, cpu)
    }

    /// Whether the history of `uid` can take this sample: see
    /// [`Controller::admits`].
    pub fn accepts(&self, uid: &String, time: i64, cpu: u64) -> (ok: bool)
        ensures
            ok == self.admits(uid@, time, cpu),
    {
        match self.collector_position(uid) {
            Some(i) => self.collectors[i].history.accepts(time, cpu),
            None => true,
        }
    }

    /// The point that this sample of `uid` gives: that of its history, and
    /// none where the pod has no history yet.
    pub open spec fn point_of(&self, uid: Seq<char>, time: i64, cpu: u64) -> Option<(i128, u64)> {
        if collects(self.collectors@, uid) {
            self.collectors@[collector_index(self.collectors@, uid)].history.point_of(time, cpu)
        } else {
            None
        }
    }

    /// Whether the histories of `self` are those of `before` after the
    /// sample `(time, cpu)` of `uid`: the pod's history has taken the
    /// sample, or a new history was made whose baseline the sample is; the
    /// other histories are as they were.
    pub open spec fn recorded(&self, before: &Controller, uid: Seq<char>, time: i64, cpu: u64) -> bool {
        if collects(before.collectors@, uid) {
            let i = collector_index(before.collectors@, uid);
            &&& self.collectors@.len() == before.collectors@.len()
            &&& forall|j: int|
                0 <= j < self.collectors@.len() && j != i ==> #[trigger] self.collectors@[j]
                    == before.collectors@[j]
            &&& self.collectors@[i].uid == before.collectors@[i].uid
            &&& self.collectors@[i].history.took(
                &before.collectors@[i].history,
                time,
                cpu,
                before.point_of(uid, time, cpu),
            )
        } else {
            let n = before.collectors@.len() as int;
            &&& self.collectors@.len() == n + 1
            &&& self.collectors@.take(n) == before.collectors@
            &&& self.collectors@[n].uid@ == uid
            &&& self.collectors@[n].history.seeded
            &&& self.collectors@[n].history.prev_time == time
            &&& self.collectors@[n].history.prev_cpu == cpu
            &&& self.collectors@[n].history.timestamps@.len() == 0
            &&& self.collectors@[n].history.rates@.len() == 0
        }
    }

    /// The uids that have contributed to the round once `uid` has.
    pub open spec fn contributors(&self, uid: Seq<char>) -> Seq<Seq<char>> {
        if self.round_set.has(uid) {
            self.round_set@
        } else {
            self.round_set@.push(uid)
        }
    }

    /// Whether a fresh point of `uid`, dated `date`, completes the round:
    /// it does when as many pods have contributed as queriers are running.
    pub open spec fn completes(&self, uid: Seq<char>) -> bool {
        self.contributors(uid).len() >= self.running@.len()
    }

    /// Whether the round of `self` and `total` are what follows `before`
    /// on a fresh point of `uid`, dated `date`.
    ///
    /// The pod joins the round and the round's date becomes the earliest
    /// date seen in it. A round that completes gives the total of all
    /// histories at its date, which is recorded, and a new round begins.
    pub open spec fn contributed(
        &self,
        before: &Controller,
        uid: Seq<char>,
        date: i128,
        total: Option<(i128, u128)>,
    ) -> bool {
        let min = earliest(before.round_min, date);
        if before.completes(uid) {
            &&& total matches Some((date, sum)) && date == min && sum == total_at(
                self.collectors@,
                min as int,
            )
            &&& self.round_set@.len() == 0
            &&& self.round_min is None
            &&& self.cpu_percentages@ == before.cpu_percentages@.push(total->Some_0.1)
            &&& self.timestamps@ == before.timestamps@.push(min)
        } else {
            &&& total is None
            &&& self.round_set@ == before.contributors(uid)
            &&& self.round_min == Some(min)
            &&& self.cpu_percentages == before.cpu_percentages
            &&& self.timestamps == before.timestamps
        }
    }

    /// Whether `self` and `total` are what follows `before` on the sample
    /// `(time, cpu)` of `uid`.
    ///
    /// A sample of a pod without a querier is dropped. Any other sample is
    /// taken into the pod's history, which is made on its first sample. If
    /// that gives a point, the point is taken into the round.
    pub open spec fn sampled(
        &self,
        before: &Controller,
        uid: Seq<char>,
        time: i64,
        cpu: u64,
        total: Option<(i128, u128)>,
    ) -> bool {
        if !before.knows(uid) {
            *self == *before && total is None
        } else {
            &&& self.running == before.running
            &&& self.paused == before.paused
            &&& self.recorded(before, uid, time, cpu)
            &&& match before.point_of(uid, time, cpu) {
                None => {
                    &&& total is None
                    &&& self.round_set == before.round_set
                    &&& self.round_min == before.round_min
                    &&& self.cpu_percentages == before.cpu_percentages
                    &&& self.timestamps == before.timestamps
                },
                Some((date, _)) => self.contributed(before, uid, date, total),
            }
        }
    }

    fn record(&mut self, uid: &String, time: i64, cpu: u64) -> (point: Option<(i128, u64)>)
        requires
            old(self).wf(),
            old(self).knows(uid@),
            old(self).admits(uid@, time, cpu),
        ensures
            final(self).wf(),
            point == old(self).point_of(uid@, time, cpu),
            final(self).recorded(old(self), uid@, time, cpu),
            final(self).running == old(self).running,
            final(self).paused == old(self).paused,
            final(self).round_set == old(self).round_set,
            final(self).round_min == old(self).round_min,
            final(self).cpu_percentages == old(self).cpu_percentages,
            final(self).timestamps == old(self).timestamps,
    {
        match self.collector_position(uid) {
            Some(i) => {
                let ghost before = self.collectors@;
                let point = self.collectors[i].history.next(time, cpu);
                proof {
                    let after = self.collectors@;
                    assert forall|a: int, b: int| 0 <= a < b < after.len() implies (
                    #[trigger] after[a]).uid@ != (#[trigger] after[b]).uid@ by {
                        assert(after[a].uid == before[a].uid);
                        assert(after[b].uid == before[b].uid);
                    }
                    assert forall|a: int| 0 <= a < after.len() implies (
                    #[trigger] after[a]).history.wf() && self.knows(after[a].uid@) by {
                        assert(after[a].uid == before[a].uid);
                        if a != i {
                            assert(after[a] == before[a]);
                        }
                    }
                }
                point
            },
            None => {
                let ghost before = self.collectors@;
                let mut history = NodeMetricCollector::new();
                let point = history.next(time, cpu);
                self.collectors.push(PodCollector { uid: uid.clone(), history });
                proof {
                    let after = self.collectors@;
                    assert(after.take(before.len() as int) == before);
                    assert forall|a: int, b: int| 0 <= a < b < after.len() implies (
                    #[trigger] after[a]).uid@ != (#[trigger] after[b]).uid@ by {
                        assert(after[a] == before[a]);
                        if b < before.len() {
                            assert(after[b] == before[b]);
                        }
                    }
                    assert forall|a: int| 0 <= a < after.len() implies (
                    #[trigger] after[a]).history.wf() && self.knows(after[a].uid@) by {
                        if a < before.len() {
                            assert(after[a] == before[a]);
                        }
                    }
                }
                point
            },
        }
    }

    fn contribute(&mut self, uid: &String, date: i128) -> (total: Option<(i128, u128)>)
        requires
            old(self).wf(),
        ensures
            final(self).wf(),
            final(self).contributed(old(self), uid@, date, total),
            final(self).collectors == old(self).collectors,
            final(self).running == old(self).running,
            final(self).paused == old(self).paused,
    {
        self.round_set.insert(uid.clone());
        let min = match self.round_min {
            Some(min) if min <= date => min,
            _ => date,
        };
        self.round_min = Some(min);
        if self.round_set.len() >= self.running.len() {
            self.round_set.clear();
            self.round_min = None;
            let sum = self.total(min);
            self.timestamps.push(min);
            self.cpu_percentages.push(sum);
            Some((min, sum))
        } else {
            None
        }
    }

    /// Takes one sample of a querier: the counter `cpu` of the pod `uid`,
    /// in nanoseconds of CPU, at `time`, in milliseconds. Returns the
    /// round's date and total where the sample completes a round.
    pub fn handle_sample(&mut self, uid: &String, time: i64, cpu: u64) -> (total: Option<
        (i128, u128),
    >)
        requires
            old(self).wf(),
            old(self).admits(uid@, time, cpu),
        ensures
            final(self).wf(),
            final(self).sampled(old(self), uid@, time, cpu, total),
    {
        if !self.is_known(uid) {
            return None;
        }
        match self.record(uid, time, cpu) {
            None => None,
            Some((date, _)) => self.contribute(uid, date),
        }
    }

    /// Ends the run: the uids of the queriers to kill and to wait for, the
    /// running ones first, and what the run leaves behind.
    pub fn finish(self) -> (end: (Vec<String>, ScrapeResult))
        ensures
            crate::metrics::uids::texts(end.0@) == self.running@ + self.paused@,
            end.1.collector_map == self.collectors,
            end.1.cpu_percentages == self.cpu_percentages,
            end.1.timestamps == self.timestamps,
    {
        let Controller { collectors, running, paused, cpu_percentages, timestamps, .. } = self;
        let mut kill = running.uids;
        let mut rest = paused.uids;
        let ghost first = kill@;
        let ghost second = rest@;
        kill.append(&mut rest);
        assert(crate::metrics::uids::texts(first + second) =~= crate::metrics::uids::texts(first)
            + crate::metrics::uids::texts(second));
        (kill, ScrapeResult { collector_map: collectors, cpu_percentages, timestamps })
    }
}

} // verus!
