//! The replica sets of the targets, mirrored by pod template hash.
use vstd::prelude::*;
use crate::client::error::ClientError;
use crate::client::targets::{names_hold, Target};

verus! {

/// How many pods a replica set has.
pub type PodsCount = u32;

/// The hash that names a replica set's pod template.
pub type TemplateHash = String;

/// One mirrored replica set.
#[derive(Debug, PartialEq, Eq)]
pub struct HashCount {
    pub hash: TemplateHash,
    pub count: PodsCount,
}

/// The mirrored replica sets, each hash once, and the cursor.
#[derive(Debug, PartialEq, Eq)]
pub struct ReplicaSets {
    pub version: String,
    pub hashes: Vec<HashCount>,
}

/// A change of a replica set: its hash and its number of pods.
#[derive(Debug, PartialEq, Eq)]
pub enum ReplicaSetEvent {
    Modified(TemplateHash, PodsCount),
    Created(TemplateHash, PodsCount),
    Deleted(TemplateHash, PodsCount),
    /// A frame that says nothing of a replica set.
    __,
}

/// One label of a replica set.
#[derive(Debug, PartialEq, Eq)]
pub struct SetLabel {
    pub key: String,
    pub value: String,
}

/// A replica set as the API sent it, as far as it is read: the labels and
/// the owners' uids of its `metadata`, and the `replicas` of its `status`.
#[derive(Debug, PartialEq, Eq)]
pub struct JsonReplicaSet {
    pub labels: Option<Vec<SetLabel>>,
    pub owners: Option<Vec<String>>,
    pub replicas: Option<i32>,
}

/// One frame of a watch on replica sets.
#[derive(Debug, PartialEq, Eq)]
pub enum ReplicaSetFrame {
    Added(JsonReplicaSet),
    Modified(JsonReplicaSet),
    Deleted(JsonReplicaSet),
    Other,
}

/// The value of the label `pod-template-hash`, where there is one.
pub open spec fn hash_label(labels: Seq<SetLabel>) -> Option<String>
    decreases labels.len(),
{
    if labels.len() == 0 {
        None
    } else if labels[0].key@ == "pod-template-hash"@ {
        Some(labels[0].value)
    } else {
        hash_label(labels.drop_first())
    }
}

/// A count of replicas as an unsigned number: a negative count wraps
/// around, as a conversion between the two integer types does.
pub open spec fn as_count(replicas: i32) -> PodsCount {
    if replicas >= 0 {
        replicas as u32
    } else {
        (replicas + 0x1_0000_0000) as u32
    }
}

/// The hash and the pod count of a replica set, or the reason for which it
/// cannot be read. The labels are asked for first.
pub open spec fn parsed_set(set: JsonReplicaSet) -> Result<(TemplateHash, PodsCount), &'static str> {
    match set.labels {
        None => Err("no labels in replica set's metadata"),
        Some(labels) => match hash_label(labels@) {
            None => Err("no hash in replica set's metadata labels "),
            Some(hash) => match set.replicas {
                None => Err("no status in replica set"),
                Some(replicas) => Ok((hash, as_count(replicas))),
            },
        },
    }
}

fn find_hash(labels: &Vec<SetLabel>) -> (hash: Option<String>)
    ensures
        hash == hash_label(labels@),
{
    let wanted = "pod-template-hash".to_owned();
    let mut i: usize = 0;
    assert(labels@.skip(0) == labels@);
    while i < labels.len()
        invariant
            i <= labels.len(),
            wanted@ == "pod-template-hash"@,
            hash_label(labels@) == hash_label(labels@.skip(i as int)),
        decreases labels.len() - i,
    {
        let ghost rest = labels@.skip(i as int);
        assert(rest.len() > 0 && rest[0] == labels@[i as int]);
        if labels[i].key == wanted {
            return Some(labels[i].value.clone());
        }
        assert(rest.drop_first() == labels@.skip(i + 1));
        i += 1;
    }
    assert(labels@.skip(i as int).len() == 0);
    None
}

fn count_of(replicas: i32) -> (count: PodsCount)
    ensures
        count == as_count(replicas),
{
    if replicas >= 0 {
        replicas as u32
    } else {
        (replicas as i64 + 0x1_0000_0000) as u32
    }
}

/// Reads the hash and the pod count of a replica set.
pub fn parse_replica_set(set: JsonReplicaSet) -> (parsed: Result<
    (TemplateHash, PodsCount),
    ClientError,
>)
    ensures
        match parsed_set(set) {
            Ok(read) => parsed matches Ok(p) && p == read,
            Err(reason) => parsed matches Err(ClientError::Json(r)) && r == reason,
        },
{
    let labels = match &set.labels {
        None => { return Err(ClientError::Json("no labels in replica set's metadata")); },
        Some(labels) => labels,
    };
    let hash = match find_hash(labels) {
        None => {
            return Err(ClientError::Json("no hash in replica set's metadata labels "));
        },
        Some(hash) => hash,
    };
    match set.replicas {
        None => Err(ClientError::Json("no status in replica set")),
        Some(replicas) => Ok((hash, count_of(replicas))),
    }
}

/// The event that a frame stands for, or the reason for which its replica
/// set cannot be read.
pub open spec fn set_event(frame: ReplicaSetFrame) -> Result<ReplicaSetEvent, &'static str> {
    match frame {
        ReplicaSetFrame::Added(set) => match parsed_set(set) {
            Ok((hash, count)) => Ok(ReplicaSetEvent::Created(hash, count)),
            Err(reason) => Err(reason),
        },
        ReplicaSetFrame::Modified(set) => match parsed_set(set) {
            Ok((hash, count)) => Ok(ReplicaSetEvent::Modified(hash, count)),
            Err(reason) => Err(reason),
        },
        ReplicaSetFrame::Deleted(set) => match parsed_set(set) {
            Ok((hash, count)) => Ok(ReplicaSetEvent::Deleted(hash, count)),
            Err(reason) => Err(reason),
        },
        ReplicaSetFrame::Other => Ok(ReplicaSetEvent::__),
    }
}

impl ReplicaSetEvent {
    /// Turns a frame of the watch into the event that it stands for.
    pub fn try_from(value: ReplicaSetFrame) -> (event: Result<ReplicaSetEvent, ClientError>)
        ensures
            match set_event(value) {
                Ok(expected) => event matches Ok(e) && e == expected,
                Err(reason) => event matches Err(ClientError::Json(r)) && r == reason,
            },
    {
        match value {
            ReplicaSetFrame::Added(set) => match parse_replica_set(set) {
                Ok((hash, count)) => Ok(ReplicaSetEvent::Created(hash, count)),
                Err(e) => Err(e),
            },
            ReplicaSetFrame::Modified(set) => match parse_replica_set(set) {
                Ok((hash, count)) => Ok(ReplicaSetEvent::Modified(hash, count)),
                Err(e) => Err(e),
            },
            ReplicaSetFrame::Deleted(set) => match parse_replica_set(set) {
                Ok((hash, count)) => Ok(ReplicaSetEvent::Deleted(hash, count)),
                Err(e) => Err(e),
            },
            ReplicaSetFrame::Other => Ok(ReplicaSetEvent::__),
        }
    }
}

/// Some target's deployment is among the owners.
pub open spec fn owned_by(owners: Seq<String>, targets: Seq<Target>) -> bool {
    exists|i: int|
        0 <= i < targets.len() && names_hold(owners, (#[trigger] targets[i]).deployment_uid@)
}

/// Whether a deployment of `targets` owns the replica set. Without targets
/// nothing is owned; with targets, the set's owners must be readable.
#[verifier::loop_isolation(false)]
pub fn is_owned(set: &JsonReplicaSet, targets: &Vec<Target>) -> (owned: Result<bool, ClientError>)
    ensures
        targets@.len() == 0 ==> (owned matches Ok(b) && !b),
        targets@.len() > 0 ==> match set.owners {
            None => owned matches Err(ClientError::Json(r)) && r
                == "no owner references in replica set's metadata",
            Some(owners) => owned matches Ok(b) && b == owned_by(owners@, targets@),
        },
{
    let mut i: usize = 0;
    while i < targets.len()
        invariant
            i <= targets.len(),
            i > 0 ==> set.owners is Some,
            set.owners is Some ==> forall|k: int|
                0 <= k < i ==> !names_hold(
                    set.owners->Some_0@,
                    (#[trigger] targets@[k]).deployment_uid@,
                ),
        decreases targets.len() - i,
    {
        let owners = match &set.owners {
            None => {
                return Err(ClientError::Json("no owner references in replica set's metadata"));
            },
            Some(owners) => owners,
        };
        let uid = &targets[i].deployment_uid;
        let mut j: usize = 0;
        while j < owners.len()
            invariant
                j <= owners.len(),
                forall|k: int| 0 <= k < j ==> (#[trigger] owners@[k])@ != uid@,
            decreases owners.len() - j,
        {
            if owners[j] == *uid {
                assert(names_hold(owners@, targets@[i as int].deployment_uid@));
                return Ok(true);
            }
            j += 1;
        }
        i += 1;
    }
    Ok(false)
}

/// Some mirrored replica set has the hash `hash`.
pub open spec fn has_hash(hashes: Seq<HashCount>, hash: Seq<char>) -> bool {
    exists|i: int| 0 <= i < hashes.len() && (#[trigger] hashes[i]).hash@ == hash
}

/// `i` is the first position of the hash `hash`.
pub open spec fn hash_at(hashes: Seq<HashCount>, hash: Seq<char>, i: int) -> bool {
    &&& 0 <= i < hashes.len()
    &&& hashes[i].hash@ == hash
    &&& forall|j: int| 0 <= j < i ==> (#[trigger] hashes[j]).hash@ != hash
}

/// The first position of the hash `hash`, where there is one.
pub open spec fn hash_index(hashes: Seq<HashCount>, hash: Seq<char>) -> int {
    choose|i: int| hash_at(hashes, hash, i)
}

/// No hash occurs twice.
pub open spec fn distinct_hashes(hashes: Seq<HashCount>) -> bool {
    forall|i: int, j: int|
        0 <= i < j < hashes.len() ==> (#[trigger] hashes[i]).hash@ != (#[trigger] hashes[j]).hash@
}

impl ReplicaSets {
    /// No hash occurs twice.
    pub open spec fn wf(&self) -> bool {
        distinct_hashes(self.hashes@)
    }

    /// The first position of the replica set with the hash `hash`.
    pub fn position(&self, hash: &String) -> (found: Option<usize>)
        ensures
            found is Some <==> has_hash(self.hashes@, hash@),
            found is Some ==> hash_at(self.hashes@, hash@, found->Some_0 as int),
            found is Some ==> found->Some_0 == hash_index(self.hashes@, hash@),
    {
        let mut i: usize = 0;
        while i < self.hashes.len()
            invariant
                i <= self.hashes.len(),
                forall|j: int| 0 <= j < i ==> (#[trigger] self.hashes@[j]).hash@ != hash@,
            decreases self.hashes.len() - i,
        {
            if self.hashes[i].hash == *hash {
                assert(hash_at(self.hashes@, hash@, i as int));
                return Some(i);
            }
            i += 1;
        }
        None
    }

    /// Whether [`handle_event`] can take this event: a modified or deleted
    /// replica set must be mirrored, a created one must not.
    pub open spec fn expects(&self, event: ReplicaSetEvent) -> bool {
        match event {
            ReplicaSetEvent::Modified(hash, _) => has_hash(self.hashes@, hash@),
            ReplicaSetEvent::Deleted(hash, _) => has_hash(self.hashes@, hash@),
            ReplicaSetEvent::Created(hash, _) => !has_hash(self.hashes@, hash@),
            ReplicaSetEvent::__ => true,
        }
    }

    /// Whether [`handle_event`] can take this event.
    pub fn can_handle(&self, event: &ReplicaSetEvent) -> (ok: bool)
        ensures
            ok == self.expects(*event),
    {
        match event {
            ReplicaSetEvent::Modified(hash, _) => self.position(hash).is_some(),
            ReplicaSetEvent::Deleted(hash, _) => self.position(hash).is_some(),
            ReplicaSetEvent::Created(hash, _) => self.position(hash).is_none(),
            ReplicaSetEvent::__ => true,
        }
    }

    /// Whether `self` is what follows `before` on `event`: a created set
    /// is put last, a deleted one leaves, a modified one has its count
    /// taken over.
    pub open spec fn handled(&self, before: &ReplicaSets, event: ReplicaSetEvent) -> bool {
        &&& self.version == before.version
        &&& match event {
            ReplicaSetEvent::Created(hash, count) => self.hashes@ == before.hashes@.push(
                HashCount { hash, count },
            ),
            ReplicaSetEvent::Deleted(hash, _) => self.hashes@ == before.hashes@.remove(
                hash_index(before.hashes@, hash@),
            ),
            ReplicaSetEvent::Modified(hash, count) => {
                let i = hash_index(before.hashes@, hash@);
                self.hashes@ == before.hashes@.update(
                    i,
                    HashCount { hash: before.hashes@[i].hash, count },
                )
            },
            ReplicaSetEvent::__ => self.hashes == before.hashes,
        }
    }
}

/// Applies an event of the watch to the mirrored replica sets.
pub fn handle_event(event: &ReplicaSetEvent, replica_sets: &mut ReplicaSets)
    requires
        old(replica_sets).wf(),
        old(replica_sets).expects(*event),
    ensures
        final(replica_sets).wf(),
        final(replica_sets).handled(old(replica_sets), *event),
{
    let ghost before = replica_sets.hashes@;
    match event {
        ReplicaSetEvent::Deleted(hash, _) => {
            match replica_sets.position(hash) {
                Some(i) => {
                    replica_sets.hashes.remove(i);
                    proof {
                        let after = replica_sets.hashes@;
                        assert forall|a: int, b: int| 0 <= a < b < after.len() implies (
                        #[trigger] after[a]).hash@ != (#[trigger] after[b]).hash@ by {
                            assert(after[a] == before[if a < i { a } else { a + 1 }]);
                            assert(after[b] == before[if b < i { b } else { b + 1 }]);
                        }
                    }
                },
                None => {},
            }
        },
        ReplicaSetEvent::Modified(hash, count) => {
            match replica_sets.position(hash) {
                Some(i) => {
                    let kept = replica_sets.hashes[i].hash.clone();
                    replica_sets.hashes.set(i, HashCount { hash: kept, count: *count });
                    proof {
                        let after = replica_sets.hashes@;
                        assert forall|a: int, b: int| 0 <= a < b < after.len() implies (
                        #[trigger] after[a]).hash@ != (#[trigger] after[b]).hash@ by {
                            assert(after[a].hash == before[a].hash);
                            assert(after[b].hash == before[b].hash);
                        }
                    }
                },
                None => {},
            }
        },
        ReplicaSetEvent::Created(hash, count) => {
            replica_sets.hashes.push(HashCount { hash: hash.clone(), count: *count });
            proof {
                let after = replica_sets.hashes@;
                assert forall|a: int, b: int| 0 <= a < b < after.len() implies (
                #[trigger] after[a]).hash@ != (#[trigger] after[b]).hash@ by {
                    assert(after[a] == before[a]);
                    if b < before.len() {
                        assert(after[b] == before[b]);
                    }
                }
            }
        },
        ReplicaSetEvent::__ => {},
    }
}

/// The event that a freshly listed replica set calls for, given the
/// mirrored ones: it is new, or its count changed, or nothing changed.
pub open spec fn set_change(old: Seq<HashCount>, listed: HashCount) -> Option<ReplicaSetEvent> {
    if !has_hash(old, listed.hash@) {
        Some(ReplicaSetEvent::Created(listed.hash, listed.count))
    } else if old[hash_index(old, listed.hash@)].count == listed.count {
        None
    } else {
        Some(ReplicaSetEvent::Modified(listed.hash, listed.count))
    }
}

/// The events of the listed replica sets, in the listing's order.
pub open spec fn set_changes(old: Seq<HashCount>, new: Seq<HashCount>) -> Seq<ReplicaSetEvent>
    decreases new.len(),
{
    if new.len() == 0 {
        Seq::empty()
    } else {
        match set_change(old, new.last()) {
            Some(event) => set_changes(old, new.drop_last()).push(event),
            None => set_changes(old, new.drop_last()),
        }
    }
}

/// The deletions of the mirrored replica sets that the listing lacks, in
/// the mirrored order.
pub open spec fn set_losses(old: Seq<HashCount>, new: Seq<HashCount>) -> Seq<ReplicaSetEvent>
    decreases old.len(),
{
    if old.len() == 0 {
        Seq::empty()
    } else if has_hash(new, old.last().hash@) {
        set_losses(old.drop_last(), new)
    } else {
        set_losses(old.drop_last(), new).push(
            ReplicaSetEvent::Deleted(old.last().hash, old.last().count),
        )
    }
}

/// Holds a fresh listing against the mirrored replica sets: the events
/// that lead from the one to the other, those of the listed sets first,
/// then the deletions. The listing then takes the place of the mirror.
pub fn reacquire_and_diff(old_sets: &mut ReplicaSets, new_sets: ReplicaSets) -> (events: Vec<
    ReplicaSetEvent,
>)
    ensures
        events@ == set_changes(old(old_sets).hashes@, new_sets.hashes@) + set_losses(
            old(old_sets).hashes@,
            new_sets.hashes@,
        ),
        *final(old_sets) == new_sets,
{
    let mut events: Vec<ReplicaSetEvent> = Vec::new();
    let mut i: usize = 0;
    assert(new_sets.hashes@.take(0) == Seq::<HashCount>::empty());
    while i < new_sets.hashes.len()
        invariant
            i <= new_sets.hashes.len(),
            *old_sets == *old(old_sets),
            events@ == set_changes(old_sets.hashes@, new_sets.hashes@.take(i as int)),
        decreases new_sets.hashes.len() - i,
    {
        let listed = &new_sets.hashes[i];
        proof {
            let next = new_sets.hashes@.take(i + 1);
            assert(next.drop_last() == new_sets.hashes@.take(i as int));
            assert(next.last() == *listed);
        }
        match old_sets.position(&listed.hash) {
            None => {
                events.push(ReplicaSetEvent::Created(listed.hash.clone(), listed.count));
            },
            Some(k) => {
                if old_sets.hashes[k].count != listed.count {
                    events.push(ReplicaSetEvent::Modified(listed.hash.clone(), listed.count));
                }
            },
        }
        i += 1;
    }
    assert(new_sets.hashes@.take(i as int) == new_sets.hashes@);
    let ghost listed_events = events@;
    let mut j: usize = 0;
    assert(old_sets.hashes@.take(0) == Seq::<HashCount>::empty());
    while j < old_sets.hashes.len()
        invariant
            j <= old_sets.hashes.len(),
            *old_sets == *old(old_sets),
            events@ == listed_events + set_losses(
                old_sets.hashes@.take(j as int),
                new_sets.hashes@,
            ),
        decreases old_sets.hashes.len() - j,
    {
        let mirrored = &old_sets.hashes[j];
        proof {
            let next = old_sets.hashes@.take(j + 1);
            assert(next.drop_last() == old_sets.hashes@.take(j as int));
            assert(next.last() == *mirrored);
        }
        if new_sets.position(&mirrored.hash).is_none() {
            let ghost before = set_losses(old_sets.hashes@.take(j as int), new_sets.hashes@);
            let event = ReplicaSetEvent::Deleted(mirrored.hash.clone(), mirrored.count);
            assert((listed_events + before).push(event) == listed_events + before.push(event));
            events.push(event);
        }
        j += 1;
    }
    assert(old_sets.hashes@.take(j as int) == old_sets.hashes@);
    *old_sets = new_sets;
    events
}

/// A full listing of replica sets.
#[derive(Debug, PartialEq, Eq)]
pub struct ReplicaSetList {
    pub resource_version: Option<String>,
    pub items: Vec<JsonReplicaSet>,
}

/// What a listing of replica sets gave.
#[derive(Debug, PartialEq, Eq)]
pub enum SetsListing {
    /// The replica sets of the targets, and the cursor.
    Mirrored(ReplicaSets),
    /// Two replica sets of the targets have this hash. A listing never
    /// does this; a caller may treat it as a broken assumption.
    Repeated(TemplateHash),
}

/// What a listed replica set adds to the mirror.
pub enum Reading {
    /// Nothing: no target owns it.
    Skipped,
    /// Its hash and count.
    Counted(HashCount),
    /// It lacks a field that had to be read; the text says which.
    Unreadable(&'static str),
}

/// What a listed replica set adds to the mirror: it must be owned by a
/// target, and then its labels, its hash and its status are asked for, in
/// that order.
pub open spec fn reading_of(set: JsonReplicaSet, targets: Seq<Target>) -> Reading {
    if targets.len() == 0 {
        Reading::Skipped
    } else {
        match set.owners {
            None => Reading::Unreadable("no owner references in replica set's metadata"),
            Some(owners) => if !owned_by(owners@, targets) {
                Reading::Skipped
            } else {
                match set.labels {
                    None => Reading::Unreadable("no labels in replica set"),
                    Some(labels) => match hash_label(labels@) {
                        None => Reading::Unreadable("no hash in replica set's labels"),
                        Some(hash) => match set.replicas {
                            None => Reading::Unreadable("no status in replica set"),
                            Some(replicas) => Reading::Counted(
                                HashCount { hash, count: as_count(replicas) },
                            ),
                        },
                    },
                }
            },
        }
    }
}

/// What stops a listing of replica sets from being mirrored.
pub enum SetsFault {
    /// A replica set, or the listing, lacks a field that had to be read.
    Unreadable(&'static str),
    /// Two replica sets of the targets have this hash.
    Repeated(TemplateHash),
}

/// The replica sets of the targets among the listed ones, in order, or
/// what stops the listing at its first set that cannot be mirrored.
pub open spec fn listed_sets(items: Seq<JsonReplicaSet>, targets: Seq<Target>) -> Result<
    Seq<HashCount>,
    SetsFault,
>
    decreases items.len(),
{
    if items.len() == 0 {
        Ok(Seq::empty())
    } else {
        match listed_sets(items.drop_last(), targets) {
            Err(fault) => Err(fault),
            Ok(sets) => match reading_of(items.last(), targets) {
                Reading::Skipped => Ok(sets),
                Reading::Unreadable(reason) => Err(SetsFault::Unreadable(reason)),
                Reading::Counted(set) => if has_hash(sets, set.hash@) {
                    Err(SetsFault::Repeated(set.hash))
                } else {
                    Ok(sets.push(set))
                },
            },
        }
    }
}

/// Whether `listing` is what the list `list` gives for the targets: its
/// sets are read first, then its cursor.
pub open spec fn sets_match(
    listing: Result<SetsListing, ClientError>,
    list: ReplicaSetList,
    targets: Seq<Target>,
) -> bool {
    match listed_sets(list.items@, targets) {
        Err(SetsFault::Unreadable(reason)) => listing matches Err(ClientError::Json(r)) && r
            == reason,
        Err(SetsFault::Repeated(hash)) => listing == Ok::<SetsListing, ClientError>(
            SetsListing::Repeated(hash),
        ),
        Ok(sets) => match list.resource_version {
            None => listing matches Err(ClientError::Json(r)) && r == "no version in replicasets",
            Some(version) => listing matches Ok(SetsListing::Mirrored(mirror)) && mirror.version
                == version && mirror.hashes@ == sets,
        },
    }
}

proof fn lemma_listed_sets_fails(items: Seq<JsonReplicaSet>, targets: Seq<Target>, n: int)
    requires
        0 <= n <= items.len(),
        listed_sets(items.take(n), targets) is Err,
    ensures
        listed_sets(items, targets) == listed_sets(items.take(n), targets),
    decreases items.len() - n,
{
    if n == items.len() {
        assert(items.take(n) == items);
    } else {
        assert(items.take(n + 1).drop_last() == items.take(n));
        lemma_listed_sets_fails(items, targets, n + 1);
    }
}

fn read_set(set: &JsonReplicaSet, targets: &Vec<Target>) -> (reading: Result<
    Option<HashCount>,
    ClientError,
>)
    ensures
        match reading_of(*set, targets@) {
            Reading::Skipped => reading == Ok::<Option<HashCount>, ClientError>(None),
            Reading::Counted(counted) => reading == Ok::<Option<HashCount>, ClientError>(
                Some(counted),
            ),
            Reading::Unreadable(reason) => reading matches Err(ClientError::Json(r)) && r
                == reason,
        },
{
    match is_owned(set, targets) {
        Err(e) => { return Err(e); },
        Ok(false) => { return Ok(None); },
        Ok(true) => {},
    }
    let labels = match &set.labels {
        None => { return Err(ClientError::Json("no labels in replica set")); },
        Some(labels) => labels,
    };
    let hash = match find_hash(labels) {
        None => { return Err(ClientError::Json("no hash in replica set's labels")); },
        Some(hash) => hash,
    };
    match set.replicas {
        None => Err(ClientError::Json("no status in replica set")),
        Some(replicas) => Ok(Some(HashCount { hash, count: count_of(replicas) })),
    }
}

/// Turns a decoded listing of replica sets into the mirror of those that
/// the targets own.
#[verifier::loop_isolation(false)]
pub fn get_replica_sets(list: ReplicaSetList, targets: &Vec<Target>) -> (listing: Result<
    SetsListing,
    ClientError,
>)
    ensures
        sets_match(listing, list, targets@),
        listing matches Ok(SetsListing::Mirrored(mirror)) ==> mirror.wf(),
{
    let mut mirror = ReplicaSets { version: String::new(), hashes: Vec::new() };
    let mut i: usize = 0;
    assert(list.items@.take(0) == Seq::<JsonReplicaSet>::empty());
    while i < list.items.len()
        invariant
            i <= list.items.len(),
            mirror.wf(),
            listed_sets(list.items@.take(i as int), targets@) == Ok::<Seq<HashCount>, SetsFault>(
                mirror.hashes@,
            ),
        decreases list.items.len() - i,
    {
        proof {
            let next = list.items@.take(i + 1);
            assert(next.drop_last() == list.items@.take(i as int));
            assert(next.last() == list.items@[i as int]);
        }
        match read_set(&list.items[i], targets) {
            Err(e) => {
                proof {
                    lemma_listed_sets_fails(list.items@, targets@, i + 1);
                }
                return Err(e);
            },
            Ok(None) => {},
            Ok(Some(counted)) => {
                if mirror.position(&counted.hash).is_some() {
                    proof {
                        lemma_listed_sets_fails(list.items@, targets@, i + 1);
                    }
                    return Ok(SetsListing::Repeated(counted.hash));
                }
                let ghost before = mirror.hashes@;
                mirror.hashes.push(counted);
                proof {
                    let after = mirror.hashes@;
                    assert forall|a: int, b: int| 0 <= a < b < after.len() implies (
                    #[trigger] after[a]).hash@ != (#[trigger] after[b]).hash@ by {
                        assert(after[a] == before[a]);
                        if b < before.len() {
                            assert(after[b] == before[b]);
                        }
                    }
                }
            },
        }
        i += 1;
    }
    assert(list.items@.take(i as int) == list.items@);
    match list.resource_version {
        None => Err(ClientError::Json("no version in replicasets")),
        Some(version) => {
            mirror.version = version;
            Ok(SetsListing::Mirrored(mirror))
        },
    }
}

} // verus!
