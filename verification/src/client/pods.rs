//! Pods under watch and the set that mirrors them, keyed by uid.
use vstd::prelude::*;
use vstd::string::StringExecFns;

verus! {

/// A pod under watch. `uid` is its identity; `status` is its readiness.
#[derive(Debug, PartialEq, Eq)]
pub struct Pod {
    pub uid: String,
    pub namespace: String,
    pub name: String,
    pub status: bool,
}

/// A readiness in words.
pub open spec fn bool_text(b: bool) -> Seq<char> {
    if b {
        "true"@
    } else {
        "false"@
    }
}

/// A pod in one line: `Pod (name: {name}, uid: {uid}, status: {status})`.
pub open spec fn pod_text(pod: Pod) -> Seq<char> {
    "Pod (name: "@ + pod.name@ + ", uid: "@ + pod.uid@ + ", status: "@ + bool_text(pod.status)
        + ")"@
}

/// The lines of the pods, each behind a tab and closed by a newline.
pub open spec fn pod_lines(pods: Seq<Pod>) -> Seq<char>
    decreases pods.len(),
{
    if pods.len() == 0 {
        Seq::empty()
    } else {
        pod_lines(pods.drop_last()) + "\t"@ + pod_text(pods.last()) + "\n"@
    }
}

impl Pod {
    /// A pod of these fields.
    pub fn new(uid: String, namespace: String, name: String, status: bool) -> (pod: Self)
        ensures
            pod == (Pod { uid, namespace, name, status }),
    {
        Self { uid, namespace, name, status }
    }

    /// The pod in one line, for a reader.
    pub fn to_string(&self) -> (text: String)
        ensures
            text@ == pod_text(*self),
    {
        let mut text = "Pod (name: ".to_owned();
        text.append(self.name.as_str());
        text.append(", uid: ");
        text.append(self.uid.as_str());
        text.append(", status: ");
        text.append(if self.status { "true" } else { "false" });
        text.append(")");
        text
    }
}

impl Clone for Pod {
    fn clone(&self) -> (pod: Self)
        ensures
            pod == *self,
    {
        Pod {
            uid: self.uid.clone(),
            namespace: self.namespace.clone(),
            name: self.name.clone(),
            status: self.status,
        }
    }
}

/// Some pod of `pods` carries `uid`.
pub open spec fn has_uid(pods: Seq<Pod>, uid: Seq<char>) -> bool {
    exists|i: int| 0 <= i < pods.len() && (#[trigger] pods[i]).uid@ == uid
}

/// `i` is the first position of `pods` that carries `uid`.
pub open spec fn uid_at(pods: Seq<Pod>, uid: Seq<char>, i: int) -> bool {
    &&& 0 <= i < pods.len()
    &&& pods[i].uid@ == uid
    &&& forall|j: int| 0 <= j < i ==> (#[trigger] pods[j]).uid@ != uid
}

/// The first position of `pods` that carries `uid`, where there is one.
pub open spec fn index_of(pods: Seq<Pod>, uid: Seq<char>) -> int {
    choose|i: int| uid_at(pods, uid, i)
}

/// The first pod of `pods` that carries `uid`, where there is one.
pub open spec fn pod_of(pods: Seq<Pod>, uid: Seq<char>) -> Pod {
    pods[index_of(pods, uid)]
}

/// No uid occurs twice in `pods`.
pub open spec fn distinct_uids(pods: Seq<Pod>) -> bool {
    forall|i: int, j: int|
        0 <= i < j < pods.len() ==> (#[trigger] pods[i]).uid@ != (#[trigger] pods[j]).uid@
}

/// `pods` without its first pod that carries `uid`; `pods` itself where none does.
pub open spec fn without_uid(pods: Seq<Pod>, uid: Seq<char>) -> Seq<Pod> {
    if has_uid(pods, uid) {
        pods.remove(index_of(pods, uid))
    } else {
        pods
    }
}

/// A uid that `pods` carries has a first position, and only one.
pub proof fn lemma_index_of(pods: Seq<Pod>, uid: Seq<char>)
    requires
        has_uid(pods, uid),
    ensures
        uid_at(pods, uid, index_of(pods, uid)),
        forall|i: int| uid_at(pods, uid, i) ==> i == index_of(pods, uid),
{
    let k = choose|i: int| 0 <= i < pods.len() && (#[trigger] pods[i]).uid@ == uid;
    lemma_first_from(pods, uid, k);
}

proof fn lemma_first_from(pods: Seq<Pod>, uid: Seq<char>, k: int)
    requires
        0 <= k < pods.len(),
        pods[k].uid@ == uid,
    ensures
        exists|i: int| uid_at(pods, uid, i),
    decreases k,
{
    if exists|j: int| 0 <= j < k && (#[trigger] pods[j]).uid@ == uid {
        let j = choose|j: int| 0 <= j < k && (#[trigger] pods[j]).uid@ == uid;
        lemma_first_from(pods, uid, j);
    } else {
        assert(uid_at(pods, uid, k));
    }
}

/// Removing one pod keeps the others' uids apart.
pub proof fn lemma_remove_distinct(pods: Seq<Pod>, i: int)
    requires
        distinct_uids(pods),
        0 <= i < pods.len(),
    ensures
        distinct_uids(pods.remove(i)),
        !has_uid(pods.remove(i), pods[i].uid@),
{
    let rest = pods.remove(i);
    assert forall|a: int, b: int| 0 <= a < b < rest.len() implies (#[trigger] rest[a]).uid@ != (
    #[trigger] rest[b]).uid@ by {
        let a0 = if a < i { a } else { a + 1 };
        let b0 = if b < i { b } else { b + 1 };
        assert(rest[a] == pods[a0]);
        assert(rest[b] == pods[b0]);
    }
    assert forall|a: int| 0 <= a < rest.len() implies (#[trigger] rest[a]).uid@ != pods[i].uid@ by {
        let a0 = if a < i { a } else { a + 1 };
        assert(rest[a] == pods[a0]);
    }
}

/// What a pod put last does to the uids of a sequence.
pub proof fn lemma_push_uids(pods: Seq<Pod>, last: Pod, uid: Seq<char>)
    ensures
        has_uid(pods.push(last), uid) <==> has_uid(pods, uid) || last.uid@ == uid,
        has_uid(pods, uid) ==> pod_of(pods.push(last), uid) == pod_of(pods, uid),
        !has_uid(pods, uid) && last.uid@ == uid ==> pod_of(pods.push(last), uid) == last,
{
    let all = pods.push(last);
    if has_uid(pods, uid) {
        lemma_index_of(pods, uid);
        let i = index_of(pods, uid);
        assert(all[i] == pods[i]);
        assert(uid_at(all, uid, i)) by {
            assert forall|j: int| 0 <= j < i implies (#[trigger] all[j]).uid@ != uid by {
                assert(all[j] == pods[j]);
            }
        }
        assert(has_uid(all, uid));
        lemma_index_of(all, uid);
    } else if last.uid@ == uid {
        let n = pods.len() as int;
        assert(all[n] == last);
        assert(uid_at(all, uid, n)) by {
            assert forall|j: int| 0 <= j < n implies (#[trigger] all[j]).uid@ != uid by {
                assert(all[j] == pods[j]);
            }
        }
        assert(has_uid(all, uid));
        lemma_index_of(all, uid);
    } else {
        if has_uid(all, uid) {
            let i = choose|i: int| 0 <= i < all.len() && (#[trigger] all[i]).uid@ == uid;
            if i < pods.len() {
                assert(all[i] == pods[i]);
            }
        }
    }
}

/// What taking a pod out does to the uids of a sequence that holds each
/// uid once.
pub proof fn lemma_remove_uids(pods: Seq<Pod>, i: int, uid: Seq<char>)
    requires
        distinct_uids(pods),
        0 <= i < pods.len(),
    ensures
        has_uid(pods.remove(i), uid) <==> has_uid(pods, uid) && uid != pods[i].uid@,
        has_uid(pods.remove(i), uid) ==> pod_of(pods.remove(i), uid) == pod_of(pods, uid),
{
    let rest = pods.remove(i);
    lemma_remove_distinct(pods, i);
    if has_uid(rest, uid) {
        lemma_index_of(rest, uid);
        let k = index_of(rest, uid);
        let k0 = if k < i { k } else { k + 1 };
        assert(rest[k] == pods[k0]);
        assert(has_uid(pods, uid));
        lemma_index_of(pods, uid);
        let m = index_of(pods, uid);
        if m < k0 {
            assert(pods[m].uid@ != pods[k0].uid@);
        }
        if k0 < m {
            assert(pods[k0].uid@ != pods[m].uid@);
        }
    }
    if has_uid(pods, uid) && uid != pods[i].uid@ {
        lemma_index_of(pods, uid);
        let m = index_of(pods, uid);
        let m1 = if m < i { m } else { m - 1 };
        assert(rest[m1] == pods[m]);
    }
}

/// What a change of one pod's readiness does to the uids of a sequence
/// that holds each uid once.
pub proof fn lemma_update_uids(pods: Seq<Pod>, i: int, status: bool, uid: Seq<char>)
    requires
        distinct_uids(pods),
        0 <= i < pods.len(),
    ensures
        has_uid(pods.update(i, Pod { status, ..pods[i] }), uid) <==> has_uid(pods, uid),
        has_uid(pods, uid) && uid != pods[i].uid@ ==> pod_of(
            pods.update(i, Pod { status, ..pods[i] }),
            uid,
        ) == pod_of(pods, uid),
        uid == pods[i].uid@ ==> pod_of(pods.update(i, Pod { status, ..pods[i] }), uid) == (Pod {
            status,
            ..pods[i]
        }),
{
    let after = pods.update(i, Pod { status, ..pods[i] });
    assert forall|k: int| 0 <= k < pods.len() implies (#[trigger] after[k]).uid == pods[k].uid by {}
    if has_uid(after, uid) {
        let k = choose|k: int| 0 <= k < after.len() && (#[trigger] after[k]).uid@ == uid;
        assert(pods[k].uid@ == uid);
    }
    if has_uid(pods, uid) {
        lemma_index_of(pods, uid);
        let m = index_of(pods, uid);
        assert(after[m].uid@ == uid);
        assert(has_uid(after, uid));
        lemma_index_of(after, uid);
        let k = index_of(after, uid);
        if k < m {
            assert(pods[k].uid@ != pods[m].uid@);
        }
        if m < k {
            assert(pods[m].uid@ != pods[k].uid@);
        }
    }
}

/// The mirrored state of one watch: the pods, each uid once, and the cursor
/// from which the watch resumes.
#[derive(Debug, PartialEq, Eq)]
pub struct CAdvisorPods {
    pub pods: Vec<Pod>,
    pub version: String,
}

impl Clone for CAdvisorPods {
    fn clone(&self) -> (copy: Self)
        ensures
            copy.pods@ == self.pods@,
            copy.version == self.version,
    {
        let mut pods: Vec<Pod> = Vec::new();
        let mut i: usize = 0;
        while i < self.pods.len()
            invariant
                i <= self.pods.len(),
                pods@ == self.pods@.take(i as int),
            decreases self.pods.len() - i,
        {
            pods.push(self.pods[i].clone());
            assert(self.pods@.take(i + 1) == self.pods@.take(i as int).push(self.pods@[i as int]));
            i += 1;
        }
        assert(self.pods@.take(i as int) == self.pods@);
        CAdvisorPods { pods, version: self.version.clone() }
    }
}

impl CAdvisorPods {
    /// The set for a reader: a head line with the cursor, one line per
    /// pod, and a closing line.
    pub fn to_string(&self) -> (text: String)
        ensures
            text@ == "CAdvisorPods | version: "@ + self.version@ + ": [\n"@ + pod_lines(self.pods@)
                + "]\n"@,
    {
        let mut text = "CAdvisorPods | version: ".to_owned();
        text.append(self.version.as_str());
        text.append(": [\n");
        let ghost head = text@;
        let mut i: usize = 0;
        assert(self.pods@.take(0) == Seq::<Pod>::empty());
        assert(head + Seq::<char>::empty() == head);
        while i < self.pods.len()
            invariant
                i <= self.pods.len(),
                text@ == head + pod_lines(self.pods@.take(i as int)),
            decreases self.pods.len() - i,
        {
            let ghost before = pod_lines(self.pods@.take(i as int));
            proof {
                let next = self.pods@.take(i + 1);
                assert(next.drop_last() == self.pods@.take(i as int));
                assert(next.last() == self.pods@[i as int]);
            }
            let line = self.pods[i].to_string();
            text.append("\t");
            text.append(line.as_str());
            text.append("\n");
            assert(text@ == head + (before + "\t"@ + line@ + "\n"@));
            i += 1;
        }
        assert(self.pods@.take(i as int) == self.pods@);
        text.append("]\n");
        text
    }

    /// No uid occurs twice.
    pub open spec fn wf(&self) -> bool {
        distinct_uids(self.pods@)
    }

    /// The first position that carries `uid`.
    pub fn position(&self, uid: &String) -> (found: Option<usize>)
        ensures
            found is Some <==> has_uid(self.pods@, uid@),
            found is Some ==> found->Some_0 == index_of(self.pods@, uid@),
            found is Some ==> uid_at(self.pods@, uid@, found->Some_0 as int),
    {
        let mut i: usize = 0;
        while i < self.pods.len()
            invariant
                i <= self.pods.len(),
                forall|j: int| 0 <= j < i ==> (#[trigger] self.pods@[j]).uid@ != uid@,
            decreases self.pods.len() - i,
        {
            if self.pods[i].uid == *uid {
                proof {
                    assert(uid_at(self.pods@, uid@, i as int));
                    lemma_index_of(self.pods@, uid@);
                }
                return Some(i);
            }
            i += 1;
        }
        None
    }

    /// The mirrored pod with the uid of `pod`.
    pub fn get(&self, pod: &Pod) -> (found: Option<&Pod>)
        ensures
            found is Some <==> has_uid(self.pods@, pod.uid@),
            found is Some ==> *found->Some_0 == pod_of(self.pods@, pod.uid@),
    {
        self.get_by_uid(&pod.uid)
    }

    /// The mirrored pod with this uid.
    pub fn get_by_uid(&self, uid: &String) -> (found: Option<&Pod>)
        ensures
            found is Some <==> has_uid(self.pods@, uid@),
            found is Some ==> *found->Some_0 == pod_of(self.pods@, uid@),
    {
        match self.position(uid) {
            Some(i) => Some(&self.pods[i]),
            None => None,
        }
    }

    /// The mirrored pod with this uid, to be changed in place. A caller that
    /// changes its uid answers for [`CAdvisorPods::wf`] itself.
    pub fn get_mut_by_uid(&mut self, uid: &String) -> (found: Option<&mut Pod>)
        ensures
            found is Some <==> has_uid(old(self).pods@, uid@),
            found is Some ==> *found->Some_0 == pod_of(old(self).pods@, uid@),
            found is Some ==> final(self).pods@ == old(self).pods@.update(
                index_of(old(self).pods@, uid@),
                *final(found->Some_0),
            ),
            found is None ==> final(self).pods@ == old(self).pods@,
            final(self).version == old(self).version,
    {
        match self.position(uid) {
            Some(i) => Some(&mut self.pods[i]),
            None => None,
        }
    }

    /// The mirrored pod with the uid of `pod`, to be changed in place.
    pub fn get_mut(&mut self, pod: &Pod) -> (found: Option<&mut Pod>)
        ensures
            found is Some <==> has_uid(old(self).pods@, pod.uid@),
            found is Some ==> *found->Some_0 == pod_of(old(self).pods@, pod.uid@),
            found is Some ==> final(self).pods@ == old(self).pods@.update(
                index_of(old(self).pods@, pod.uid@),
                *final(found->Some_0),
            ),
            found is None ==> final(self).pods@ == old(self).pods@,
            final(self).version == old(self).version,
    {
        self.get_mut_by_uid(&pod.uid)
    }

    /// The uids of the mirrored pods, in their order.
    pub fn uids(&self) -> (uids: Vec<String>)
        ensures
            uids.len() == self.pods.len(),
            forall|i: int| 0 <= i < uids.len() ==> (#[trigger] uids[i]) == self.pods[i].uid,
    {
        let mut uids: Vec<String> = Vec::new();
        let mut i: usize = 0;
        while i < self.pods.len()
            invariant
                i <= self.pods.len(),
                uids.len() == i,
                forall|j: int| 0 <= j < i ==> (#[trigger] uids[j]) == self.pods[j].uid,
            decreases self.pods.len() - i,
        {
            uids.push(self.pods[i].uid.clone());
            i += 1;
        }
        uids
    }

    /// Takes the pod with the uid of `pod` out of the set and returns it.
    pub fn remove(&mut self, pod: &Pod) -> (removed: Option<Pod>)
        ensures
            final(self).version == old(self).version,
            final(self).pods@ == without_uid(old(self).pods@, pod.uid@),
            removed is Some <==> has_uid(old(self).pods@, pod.uid@),
            removed is Some ==> removed->Some_0 == pod_of(old(self).pods@, pod.uid@),
            old(self).wf() ==> final(self).wf() && !has_uid(final(self).pods@, pod.uid@),
    {
        match self.position(&pod.uid) {
            Some(i) => {
                proof {
                    if old(self).wf() {
                        lemma_remove_distinct(old(self).pods@, i as int);
                    }
                }
                Some(self.pods.remove(i))
            },
            None => None,
        }
    }

    /// Puts `pod` into the set in place of the pod with its uid, which is
    /// returned; the new pod stands last.
    pub fn insert(&mut self, pod: Pod) -> (replaced: Option<Pod>)
        ensures
            final(self).version == old(self).version,
            final(self).pods@ == without_uid(old(self).pods@, pod.uid@).push(pod),
            replaced is Some <==> has_uid(old(self).pods@, pod.uid@),
            replaced is Some ==> replaced->Some_0 == pod_of(old(self).pods@, pod.uid@),
            old(self).wf() ==> final(self).wf(),
    {
        let replaced = self.remove(&pod);
        proof {
            if old(self).wf() {
                let rest = self.pods@;
                let all = rest.push(pod);
                assert forall|a: int, b: int| 0 <= a < b < all.len() implies (#[trigger] all[a]).uid@
                    != (#[trigger] all[b]).uid@ by {
                    if b == rest.len() {
                        assert(all[a] == rest[a]);
                    } else {
                        assert(all[a] == rest[a]);
                        assert(all[b] == rest[b]);
                    }
                }
            }
        }
        self.pods.push(pod);
        replaced
    }
}

/// The label selector and namespace that pick the pods to watch.
#[derive(Debug, PartialEq, Eq)]
pub struct CAdvisorDaemonSetMetadata {
    pub key: String,
    pub value: String,
    pub namespace: String,
}

impl CAdvisorDaemonSetMetadata {
    /// The selector `key=value` in the namespace `namespace`.
    pub fn new(key: &str, value: &str, namespace: &str) -> (meta: Self)
        ensures
            meta.key@ == key@,
            meta.value@ == value@,
            meta.namespace@ == namespace@,
    {
        Self { key: key.to_owned(), value: value.to_owned(), namespace: namespace.to_owned() }
    }
}

} // verus!
