//! Pods by namespace and by name.
use vstd::prelude::*;
use crate::client::error::ClientError;
use crate::client::json::JsonPod;
use crate::client::targets::names_hold;
use crate::metrics::uids::UidSet;

verus! {

/// The names of the pods of one namespace.
pub type PodSet = UidSet;

/// One namespace and the names of its pods.
#[derive(Debug, PartialEq, Eq)]
pub struct NamespacePods {
    pub namespace: String,
    pub pods: PodSet,
}

/// The pods of the cluster, by namespace.
#[derive(Debug, PartialEq, Eq)]
pub struct NamespaceMap(pub Vec<NamespacePods>);

/// One replica set's cursor, by its hash.
#[derive(Debug, PartialEq, Eq)]
pub struct HashVersion {
    pub hash: String,
    pub version: String,
}

/// The pods of the watched replica sets, with the cursor of each set's
/// listing.
#[derive(Debug, PartialEq, Eq)]
pub struct Pods {
    pub versions: Vec<HashVersion>,
    pub map: NamespaceMap,
}

/// A map as texts: each namespace with the names of its pods.
pub type Namespaces = Seq<(Seq<char>, Seq<Seq<char>>)>;

/// `i` is the first position of the namespace `namespace`.
pub open spec fn namespace_at(map: Namespaces, namespace: Seq<char>, i: int) -> bool {
    &&& 0 <= i < map.len()
    &&& map[i].0 == namespace
    &&& forall|j: int| 0 <= j < i ==> (#[trigger] map[j]).0 != namespace
}

/// Some entry is of the namespace `namespace`.
pub open spec fn has_namespace(map: Namespaces, namespace: Seq<char>) -> bool {
    exists|i: int| 0 <= i < map.len() && (#[trigger] map[i]).0 == namespace
}

/// The first position of the namespace `namespace`, where there is one.
pub open spec fn namespace_index(map: Namespaces, namespace: Seq<char>) -> int {
    choose|i: int| namespace_at(map, namespace, i)
}

/// The pod `name` is held in the namespace `namespace`.
pub open spec fn holds(map: Namespaces, namespace: Seq<char>, name: Seq<char>) -> bool {
    has_namespace(map, namespace) && map[namespace_index(map, namespace)].1.contains(name)
}

/// The map with the pod `name` in the namespace `namespace`: a new pod is
/// put last in its namespace, and a new namespace last in the map.
pub open spec fn put(map: Namespaces, namespace: Seq<char>, name: Seq<char>) -> Namespaces {
    if !has_namespace(map, namespace) {
        map.push((namespace, seq![name]))
    } else if holds(map, namespace, name) {
        map
    } else {
        let i = namespace_index(map, namespace);
        map.update(i, (namespace, map[i].1.push(name)))
    }
}

impl View for NamespaceMap {
    type V = Namespaces;

    open spec fn view(&self) -> Namespaces {
        self.0@.map_values(|entry: NamespacePods| (entry.namespace@, entry.pods@))
    }
}

impl NamespaceMap {
    /// An empty map.
    pub fn new() -> (map: Self)
        ensures
            map@.len() == 0,
    {
        Self(Vec::new())
    }

    /// The first position of the namespace `namespace`.
    pub fn position(&self, namespace: &String) -> (found: Option<usize>)
        ensures
            found is Some <==> has_namespace(self@, namespace@),
            found is Some ==> namespace_at(self@, namespace@, found->Some_0 as int),
            found is Some ==> found->Some_0 == namespace_index(self@, namespace@),
    {
        let mut i: usize = 0;
        while i < self.0.len()
            invariant
                i <= self.0.len(),
                forall|j: int| 0 <= j < i ==> (#[trigger] self@[j]).0 != namespace@,
            decreases self.0.len() - i,
        {
            if self.0[i].namespace == *namespace {
                assert(namespace_at(self@, namespace@, i as int));
                return Some(i);
            }
            i += 1;
        }
        None
    }

    /// Whether the pod `name` is held in the namespace `namespace`.
    pub fn contains(&self, namespace: &String, name: &String) -> (held: bool)
        ensures
            held == holds(self@, namespace@, name@),
    {
        match self.position(namespace) {
            Some(i) => {
                assert(self@[i as int].1 == self.0@[i as int].pods@);
                self.0[i].pods.contains(name)
            },
            None => false,
        }
    }

    /// Puts the pod `name` into the namespace `namespace`, which is made
    /// if it is not there; says whether the pod was new.
    pub fn insert(&mut self, namespace: String, name: String) -> (was_new: bool)
        ensures
            was_new == !holds(old(self)@, namespace@, name@),
            final(self)@ == put(old(self)@, namespace@, name@),
    {
        let ghost before = self@;
        match self.position(&namespace) {
            Some(i) => {
                assert(before[i as int].1 == self.0@[i as int].pods@);
                let was_new = self.0[i].pods.insert(name);
                proof {
                    assert(self.0@[i as int].namespace == old(self).0@[i as int].namespace);
                    if was_new {
                        assert(self@ =~= before.update(
                            i as int,
                            (namespace@, before[i as int].1.push(name@)),
                        ));
                    } else {
                        assert(self@ =~= before);
                    }
                }
                was_new
            },
            None => {
                let mut pods = UidSet::new();
                pods.insert(name);
                self.0.push(NamespacePods { namespace, pods });
                proof {
                    assert(pods@ =~= seq![name@]);
                    assert(self@ =~= before.push((namespace@, seq![name@])));
                }
                true
            },
        }
    }
}

/// How far a listing of pods was taken into a map.
#[derive(Debug, PartialEq, Eq)]
pub enum Inserted {
    /// All of it.
    All,
    /// Up to this pod, which the map already held: its namespace and name.
    /// A listing never repeats a pod; a caller may treat this as a broken
    /// assumption.
    Repeated(String, String),
}

/// What stops a listing of pods from being taken into a map.
pub enum Stop {
    /// Nothing.
    Nothing,
    /// A pod without a field that had to be read; the text says which.
    Unreadable(&'static str),
    /// A pod that the map already held: its namespace and name.
    Repeated(String, String),
}

/// The map after `pods` were taken into it, one after the other, up to
/// the first that stops it.
pub open spec fn map_after(map: Namespaces, pods: Seq<JsonPod>) -> Namespaces
    decreases pods.len(),
{
    if pods.len() == 0 {
        map
    } else {
        match (pods[0].namespace, pods[0].name) {
            (Some(namespace), Some(name)) if !holds(map, namespace@, name@) => map_after(
                put(map, namespace@, name@),
                pods.drop_first(),
            ),
            _ => map,
        }
    }
}

/// What stops `pods` from being taken into the map: a pod must have a
/// namespace and a name, which are asked for in that order, and must be
/// new to the map.
pub open spec fn stop_of(map: Namespaces, pods: Seq<JsonPod>) -> Stop
    decreases pods.len(),
{
    if pods.len() == 0 {
        Stop::Nothing
    } else {
        match (pods[0].namespace, pods[0].name) {
            (None, _) => Stop::Unreadable("no namespace in pod's metadata"),
            (Some(_), None) => Stop::Unreadable("no name in pod's metadata"),
            (Some(namespace), Some(name)) => if holds(map, namespace@, name@) {
                Stop::Repeated(namespace, name)
            } else {
                stop_of(put(map, namespace@, name@), pods.drop_first())
            },
        }
    }
}

/// Takes a listing of pods into the map, pod by pod.
pub fn insert_pods(namespace_map: &mut NamespaceMap, pods: Vec<JsonPod>) -> (outcome: Result<
    Inserted,
    ClientError,
>)
    ensures
        final(namespace_map)@ == map_after(old(namespace_map)@, pods@),
        match stop_of(old(namespace_map)@, pods@) {
            Stop::Nothing => outcome == Ok::<Inserted, ClientError>(Inserted::All),
            Stop::Unreadable(reason) => outcome matches Err(ClientError::Json(r)) && r == reason,
            Stop::Repeated(namespace, name) => outcome == Ok::<Inserted, ClientError>(
                Inserted::Repeated(namespace, name),
            ),
        },
{
    assert(pods@.skip(0) == pods@);
    for pod in it: pods
        invariant
            it.seq() == pods@,
            map_after(old(namespace_map)@, pods@) == map_after(
                namespace_map@,
                pods@.skip(it.index() as int),
            ),
            stop_of(old(namespace_map)@, pods@) == stop_of(
                namespace_map@,
                pods@.skip(it.index() as int),
            ),
    {
        let ghost rest = pods@.skip(it.index() as int);
        assert(rest.len() > 0 && rest[0] == pod);
        assert(rest.drop_first() == pods@.skip(it.index() + 1));
        let JsonPod { name, namespace, .. } = pod;
        let namespace = match namespace {
            None => { return Err(ClientError::Json("no namespace in pod's metadata")); },
            Some(namespace) => namespace,
        };
        let pod_name = match name {
            None => { return Err(ClientError::Json("no name in pod's metadata")); },
            Some(name) => name,
        };
        if namespace_map.contains(&namespace, &pod_name) {
            return Ok(Inserted::Repeated(namespace, pod_name));
        }
        namespace_map.insert(namespace, pod_name);
    }
    assert(pods@.skip(pods@.len() as int).len() == 0);
    Ok(Inserted::All)
}

/// Some namespace of the listing has no name.
pub open spec fn unnamed(namespaces: Seq<Option<String>>) -> bool
    decreases namespaces.len(),
{
    if namespaces.len() == 0 {
        false
    } else {
        unnamed(namespaces.drop_last()) || namespaces.last() is None
    }
}

/// The names of the namespaces that have one, in order.
pub open spec fn names_of(namespaces: Seq<Option<String>>) -> Seq<String>
    decreases namespaces.len(),
{
    if namespaces.len() == 0 {
        Seq::empty()
    } else {
        match namespaces.last() {
            Some(name) => names_of(namespaces.drop_last()).push(name),
            None => names_of(namespaces.drop_last()),
        }
    }
}

proof fn lemma_unnamed_stays(namespaces: Seq<Option<String>>, n: int)
    requires
        0 <= n <= namespaces.len(),
        unnamed(namespaces.take(n)),
    ensures
        unnamed(namespaces),
    decreases namespaces.len() - n,
{
    if n == namespaces.len() {
        assert(namespaces.take(n) == namespaces);
    } else {
        assert(namespaces.take(n + 1).drop_last() == namespaces.take(n));
        lemma_unnamed_stays(namespaces, n + 1);
    }
}

/// Which of the namespaces `to_check` the cluster holds. Every namespace
/// of the cluster must have a name.
pub fn validate_namespaces(namespaces: &Vec<Option<String>>, to_check: &Vec<String>) -> (held:
    Result<Vec<bool>, ClientError>)
    ensures
        match unnamed(namespaces@) {
            true => held matches Err(ClientError::Json(r)) && r == "no name in namespace metadata",
            false => held matches Ok(found) && found@.len() == to_check@.len() && forall|i: int|
                0 <= i < found@.len() ==> found@[i] == names_hold(
                    names_of(namespaces@),
                    (#[trigger] to_check@[i])@,
                ),
        },
{
    let mut names: Vec<String> = Vec::new();
    let mut i: usize = 0;
    assert(namespaces@.take(0) == Seq::<Option<String>>::empty());
    while i < namespaces.len()
        invariant
            i <= namespaces.len(),
            !unnamed(namespaces@.take(i as int)),
            names@ == names_of(namespaces@.take(i as int)),
        decreases namespaces.len() - i,
    {
        proof {
            let next = namespaces@.take(i + 1);
            assert(next.drop_last() == namespaces@.take(i as int));
            assert(next.last() == namespaces@[i as int]);
        }
        match &namespaces[i] {
            None => {
                proof {
                    lemma_unnamed_stays(namespaces@, i + 1);
                }
                return Err(ClientError::Json("no name in namespace metadata"));
            },
            Some(name) => {
                names.push(name.clone());
            },
        }
        i += 1;
    }
    assert(namespaces@.take(i as int) == namespaces@);
    let mut found: Vec<bool> = Vec::new();
    let mut j: usize = 0;
    while j < to_check.len()
        invariant
            j <= to_check.len(),
            found@.len() == j,
            names@ == names_of(namespaces@),
            forall|k: int|
                0 <= k < j ==> found@[k] == names_hold(names@, (#[trigger] to_check@[k])@),
        decreases to_check.len() - j,
    {
        let mut held = false;
        let mut k: usize = 0;
        while k < names.len() && !held
            invariant
                k <= names.len(),
                j < to_check.len(),
                held ==> names_hold(names@, to_check@[j as int]@),
                !held ==> forall|m: int|
                    0 <= m < k ==> (#[trigger] names@[m])@ != to_check@[j as int]@,
            decreases names.len() - k,
        {
            if names[k] == to_check[j] {
                held = true;
            }
            k += 1;
        }
        found.push(held);
        j += 1;
    }
    Ok(found)
}

} // verus!
