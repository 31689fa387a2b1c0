//! Totals over the nodes of one round, in nanocores.
use vstd::prelude::*;
use crate::client::error::JsonQuery;
use crate::client::json::{JsonPod, WatchFrame};
use crate::metrics::uids::{without, UidSet};

verus! {

/// CPU in use, in billionths of a core.
pub type NanoCores = u64;

/// What one node reported in a round.
#[derive(Debug, Clone, Copy, PartialEq, Eq, Structural)]
pub enum Metric {
    /// The node is not ready: it was not asked.
    Inactive,
    /// The CPU that the watched pods use on the node.
    Active(NanoCores),
}

/// What a report counts for in a total: nothing for a channel that has
/// closed and for an inactive node.
pub open spec fn counted(report: Option<Metric>) -> nat {
    match report {
        Some(Metric::Active(cores)) => cores as nat,
        _ => 0,
    }
}

/// The sum of what the reports count for.
pub open spec fn round_sum(reports: Seq<Option<Metric>>) -> nat
    decreases reports.len(),
{
    if reports.len() == 0 {
        0
    } else {
        round_sum(reports.drop_last()) + counted(reports.last())
    }
}

/// The total of one round: the sum of the active nodes' reports.
pub fn round_total(reports: &Vec<Option<Metric>>) -> (total: u128)
    ensures
        total == round_sum(reports@),
{
    let mut total: u128 = 0;
    let mut i: usize = 0;
    assert(reports@.take(0) == Seq::<Option<Metric>>::empty());
    while i < reports.len()
        invariant
            i <= reports.len(),
            total == round_sum(reports@.take(i as int)),
            total <= i * u64::MAX,
        decreases reports.len() - i,
    {
        proof {
            let next = reports@.take(i + 1);
            assert(next.drop_last() == reports@.take(i as int));
            assert(next.last() == reports@[i as int]);
            assert((i + 1) * u64::MAX == i * u64::MAX + u64::MAX) by (nonlinear_arith);
            assert(i * u64::MAX + u64::MAX <= u128::MAX) by (nonlinear_arith)
                requires
                    0 <= i <= u64::MAX,
            ;
        }
        match reports[i] {
            Some(Metric::Active(cores)) => {
                total = total + cores as u128;
            },
            _ => {},
        }
        i += 1;
    }
    assert(reports@.take(i as int) == reports@);
    total
}

/// Which channels stay in the next round: those that gave a report.
pub fn still_open(reports: &Vec<Option<Metric>>) -> (open: Vec<bool>)
    ensures
        open@.len() == reports@.len(),
        forall|i: int| 0 <= i < open@.len() ==> open@[i] == (#[trigger] reports@[i] is Some),
{
    let mut open: Vec<bool> = Vec::new();
    let mut i: usize = 0;
    while i < reports.len()
        invariant
            i <= reports.len(),
            open@.len() == i,
            forall|k: int| 0 <= k < i ==> open@[k] == (#[trigger] reports@[k] is Some),
        decreases reports.len() - i,
    {
        open.push(reports[i].is_some());
        i += 1;
    }
    open
}

/// The CPU that one pod uses on a node, as the node's summary states it.
#[derive(Debug, PartialEq, Eq)]
pub struct PodUsage {
    pub uid: String,
    pub usage_nano_cores: NanoCores,
}

/// The sum of the usage of the pods whose uid is in `watched`.
pub open spec fn watched_sum(pods: Seq<PodUsage>, watched: Seq<Seq<char>>) -> nat
    decreases pods.len(),
{
    if pods.len() == 0 {
        0
    } else if watched.contains(pods.last().uid@) {
        watched_sum(pods.drop_last(), watched) + pods.last().usage_nano_cores as nat
    } else {
        watched_sum(pods.drop_last(), watched)
    }
}

/// The CPU that the watched pods use on one node.
pub fn watched_usage(pods: &Vec<PodUsage>, watched: &UidSet) -> (total: u128)
    ensures
        total == watched_sum(pods@, watched@),
{
    let mut total: u128 = 0;
    let mut i: usize = 0;
    assert(pods@.take(0) == Seq::<PodUsage>::empty());
    while i < pods.len()
        invariant
            i <= pods.len(),
            total == watched_sum(pods@.take(i as int), watched@),
            total <= i * u64::MAX,
        decreases pods.len() - i,
    {
        proof {
            let next = pods@.take(i + 1);
            assert(next.drop_last() == pods@.take(i as int));
            assert(next.last() == pods@[i as int]);
            assert((i + 1) * u64::MAX == i * u64::MAX + u64::MAX) by (nonlinear_arith);
            assert(i * u64::MAX + u64::MAX <= u128::MAX) by (nonlinear_arith)
                requires
                    0 <= i <= u64::MAX,
            ;
        }
        if watched.contains(&pods[i].uid) {
            total = total + pods[i].usage_nano_cores as u128;
        }
        i += 1;
    }
    assert(pods@.take(i as int) == pods@);
    total
}

/// How many times in a row a node is asked before the query gives up, for
/// requests that cannot be sent and for requests that are refused alike.
pub const QUERY_TRIES: u8 = 10;

/// The attempts of one query of a node: the request now being tried, and
/// the refusal that would be the next.
#[derive(Debug, PartialEq, Eq)]
pub struct QueryAttempts {
    pub tries: u8,
    pub server_error: u8,
}

impl QueryAttempts {
    /// Both counts lie between 1 and the limit.
    pub open spec fn wf(&self) -> bool {
        1 <= self.tries <= QUERY_TRIES && 1 <= self.server_error <= QUERY_TRIES
    }

    /// The first attempt.
    pub fn new() -> (attempts: Self)
        ensures
            attempts == (QueryAttempts { tries: 1, server_error: 1 }),
            attempts.wf(),
    {
        QueryAttempts { tries: 1, server_error: 1 }
    }

    /// The request could not be sent. Says whether it is to be sent again:
    /// not after the last of the tries.
    pub fn send_failed(&mut self) -> (again: bool)
        requires
            old(self).wf(),
        ensures
            final(self).wf(),
            again == (old(self).tries < QUERY_TRIES),
            final(self).server_error == old(self).server_error,
            final(self).tries == if again {
                (old(self).tries + 1) as u8
            } else {
                old(self).tries
            },
    {
        if self.tries == QUERY_TRIES {
            return false;
        }
        self.tries = self.tries + 1;
        true
    }

    /// The request was sent and refused. Says whether it is to be sent
    /// again, with the tries to send it counted afresh: not after the last
    /// of the refusals.
    pub fn refused(&mut self) -> (again: bool)
        requires
            old(self).wf(),
        ensures
            final(self).wf(),
            again == (old(self).server_error < QUERY_TRIES),
            *final(self) == if again {
                QueryAttempts { tries: 1, server_error: (old(self).server_error + 1) as u8 }
            } else {
                *old(self)
            },
    {
        if self.server_error == QUERY_TRIES {
            return false;
        }
        self.server_error = self.server_error + 1;
        self.tries = 1;
        true
    }
}

/// The uid of a pod of the watch on pods, which must have a name and a
/// uid; the name is asked for first.
pub open spec fn watched_uid(pod: JsonPod) -> Result<String, JsonQuery> {
    if pod.name is None {
        Err(JsonQuery::NoName)
    } else {
        match pod.uid {
            None => Err(JsonQuery::NoUid),
            Some(uid) => Ok(uid),
        }
    }
}

/// The watched uids after a frame of the watch on pods: an added pod's uid
/// joins them, a deleted pod's uid leaves, and nothing else changes them.
pub open spec fn uids_after(uids: Seq<Seq<char>>, frame: WatchFrame) -> Seq<Seq<char>> {
    match frame {
        WatchFrame::Added(pod) => match watched_uid(pod) {
            Ok(uid) => if uids.contains(uid@) {
                uids
            } else {
                uids.push(uid@)
            },
            Err(_) => uids,
        },
        WatchFrame::Deleted(pod) => match watched_uid(pod) {
            Ok(uid) => without(uids, uid@),
            Err(_) => uids,
        },
        _ => uids,
    }
}

/// The field for whose absence a frame of the watch on pods cannot be
/// used, if it cannot.
pub open spec fn frame_fault(frame: WatchFrame) -> Option<JsonQuery> {
    match frame {
        WatchFrame::Added(pod) => match watched_uid(pod) {
            Ok(_) => None,
            Err(missing) => Some(missing),
        },
        WatchFrame::Deleted(pod) => match watched_uid(pod) {
            Ok(_) => None,
            Err(missing) => Some(missing),
        },
        _ => None,
    }
}

fn uid_of(pod: JsonPod) -> (uid: Result<String, JsonQuery>)
    ensures
        uid == watched_uid(pod),
{
    if pod.name.is_none() {
        return Err(JsonQuery::NoName);
    }
    match pod.uid {
        None => Err(JsonQuery::NoUid),
        Some(uid) => Ok(uid),
    }
}

/// Takes one frame of the watch on pods into the watched uids.
pub fn watch_pods(pod_uids: &mut UidSet, frame: WatchFrame) -> (taken: Result<(), JsonQuery>)
    ensures
        final(pod_uids)@ == uids_after(old(pod_uids)@, frame),
        match frame_fault(frame) {
            None => taken is Ok,
            Some(missing) => taken == Err::<(), JsonQuery>(missing),
        },
        old(pod_uids).wf() ==> final(pod_uids).wf(),
{
    match frame {
        WatchFrame::Added(pod) => {
            let uid = match uid_of(pod) {
                Ok(uid) => uid,
                Err(missing) => { return Err(missing); },
            };
            pod_uids.insert(uid);
        },
        WatchFrame::Deleted(pod) => {
            let uid = match uid_of(pod) {
                Ok(uid) => uid,
                Err(missing) => { return Err(missing); },
            };
            pod_uids.remove(&uid);
        },
        _ => {},
    }
    Ok(())
}

} // verus!
