//! Targets: the deployments, and the containers in them, that a user names,
//! held against the deployments that the cluster reports.
use vstd::prelude::*;
use vstd::string::StringExecFns;
use crate::client::error::ClientError;

verus! {

/// A target as the user names it. No containers means all of them.
#[derive(Debug, PartialEq, Eq)]
pub struct TargetInput {
    pub namespace: String,
    pub deployment_name: String,
    pub containers: Vec<String>,
}

impl TargetInput {
    /// A target of this namespace and name, with these containers.
    pub fn new(namespace: &str, deployment_name: &str, containers: Vec<String>) -> (input: Self)
        ensures
            input.namespace@ == namespace@,
            input.deployment_name@ == deployment_name@,
            input.containers == containers,
    {
        Self {
            namespace: namespace.to_owned(),
            deployment_name: deployment_name.to_owned(),
            containers,
        }
    }
}

/// A target that the cluster holds: the deployment's uid is known.
#[derive(Debug, PartialEq, Eq)]
pub struct Target {
    pub namespace: String,
    pub deployment_name: String,
    pub deployment_uid: String,
    pub containers: Option<Vec<String>>,
}

/// What the cluster does not hold of a target.
#[derive(Debug, PartialEq, Eq)]
pub enum Kind {
    /// No deployment is in the target's namespace.
    Namespace,
    /// The namespace has deployments, but none of the target's name.
    Deployment,
    /// The deployment lacks the containers at these positions of the
    /// target's list.
    Containers(Vec<usize>),
}

/// A target that failed validation, and why.
#[derive(Debug, PartialEq, Eq)]
pub struct TargetError {
    pub kind: Kind,
    pub target: TargetInput,
}

/// The containers at the positions `indices`, each in quotes behind a
/// blank, with commas between them.
pub open spec fn quoted(containers: Seq<String>, indices: Seq<usize>) -> Seq<char>
    decreases indices.len(),
{
    if indices.len() == 0 {
        Seq::empty()
    } else if indices.len() == 1 {
        " \""@ + containers[indices[0] as int]@ + "\""@
    } else {
        quoted(containers, indices.drop_last()) + ", \""@ + containers[indices.last() as int]@
            + "\""@
    }
}

/// What is wrong with a target, in words.
pub open spec fn kind_text(kind: Kind, containers: Seq<String>) -> Seq<char> {
    match kind {
        Kind::Deployment => "the deployment was not found in the namespace"@,
        Kind::Namespace => "the namespace was not found"@,
        Kind::Containers(indices) => "the following containers were not found: ["@ + quoted(
            containers,
            indices@,
        ) + " ]"@,
    }
}

impl TargetError {
    /// The positions of a container error lie within the target's list.
    pub open spec fn wf(&self) -> bool {
        self.kind matches Kind::Containers(indices) ==> forall|i: int|
            0 <= i < indices@.len() ==> (#[trigger] indices@[i]) < self.target.containers@.len()
    }

    /// The error in one sentence, for a reader.
    pub fn to_string(&self) -> (text: String)
        requires
            self.wf(),
        ensures
            text@ == "for the target \"/namespace/"@ + self.target.namespace@ + "/deployments/"@
                + self.target.deployment_name@ + "\", "@ + kind_text(
                self.kind,
                self.target.containers@,
            ),
    {
        let mut text = "for the target \"/namespace/".to_owned();
        text.append(self.target.namespace.as_str());
        text.append("/deployments/");
        text.append(self.target.deployment_name.as_str());
        text.append("\", ");
        match &self.kind {
            Kind::Deployment => {
                text.append("the deployment was not found in the namespace");
            },
            Kind::Namespace => {
                text.append("the namespace was not found");
            },
            Kind::Containers(indices) => {
                text.append("the following containers were not found: [");
                let ghost head = text@;
                let mut i: usize = 0;
                assert(indices@.take(0) == Seq::<usize>::empty());
                assert(head + Seq::<char>::empty() == head);
                assert(self.kind == Kind::Containers(*indices));
                while i < indices.len()
                    invariant
                        i <= indices.len(),
                        forall|k: int|
                            0 <= k < indices@.len() ==> (#[trigger] indices@[k])
                                < self.target.containers@.len(),
                        text@ == head + quoted(self.target.containers@, indices@.take(i as int)),
                    decreases indices.len() - i,
                {
                    let ghost before = quoted(self.target.containers@, indices@.take(i as int));
                    proof {
                        let next = indices@.take(i + 1);
                        assert(next.drop_last() == indices@.take(i as int));
                        assert(next.last() == indices@[i as int]);
                        assert(next[0] == indices@[0]);
                    }
                    let container = &self.target.containers[indices[i]];
                    if i == 0 {
                        text.append(" \"");
                        assert(before == Seq::<char>::empty());
                    } else {
                        text.append(", \"");
                    }
                    text.append(container.as_str());
                    text.append("\"");
                    assert(text@ == head + quoted(self.target.containers@, indices@.take(i + 1)));
                    i += 1;
                }
                assert(indices@.take(i as int) == indices@);
                text.append(" ]");
            },
        }
        text
    }
}

/// A deployment as the API sent it, as far as it is read: the namespace,
/// name and uid of its `metadata`, and the names of the containers of
/// `spec.template.spec`. The outer `None` of `containers` stands for a
/// missing `spec`, the inner one for a missing `spec.template.spec`.
#[derive(Debug, PartialEq, Eq)]
pub struct Deployment {
    pub namespace: Option<String>,
    pub name: Option<String>,
    pub uid: Option<String>,
    pub containers: Option<Option<Vec<String>>>,
}

/// Some text of `names` is `name`.
pub open spec fn names_hold(names: Seq<String>, name: Seq<char>) -> bool {
    exists|i: int| 0 <= i < names.len() && (#[trigger] names[i])@ == name
}

/// The positions of `wanted` whose text is not among `names`, in order.
pub open spec fn missing(wanted: Seq<String>, names: Seq<String>) -> Seq<usize>
    decreases wanted.len(),
{
    if wanted.len() == 0 {
        Seq::empty()
    } else if names_hold(names, wanted.last()@) {
        missing(wanted.drop_last(), names)
    } else {
        missing(wanted.drop_last(), names).push((wanted.len() - 1) as usize)
    }
}

/// The positions that [`missing`] names lie within `wanted`.
pub proof fn lemma_missing_in_range(wanted: Seq<String>, names: Seq<String>)
    ensures
        forall|i: int|
            0 <= i < missing(wanted, names).len() ==> (#[trigger] missing(wanted, names)[i])
                < wanted.len(),
    decreases wanted.len(),
{
    if wanted.len() > 0 {
        let init = wanted.drop_last();
        lemma_missing_in_range(init, names);
        let all = missing(wanted, names);
        let before = missing(init, names);
        assert forall|i: int| 0 <= i < all.len() implies (#[trigger] all[i]) < wanted.len() by {
            if i < before.len() {
                assert(all[i] == before[i]);
            }
        }
    }
}

fn holds(names: &Vec<String>, name: &String) -> (found: bool)
    ensures
        found == names_hold(names@, name@),
{
    let mut i: usize = 0;
    while i < names.len()
        invariant
            i <= names.len(),
            forall|j: int| 0 <= j < i ==> (#[trigger] names@[j])@ != name@,
        decreases names.len() - i,
    {
        if names[i] == *name {
            return true;
        }
        i += 1;
    }
    false
}

/// What [`check_containers`] owes for a deployment with these containers.
pub open spec fn containers_checked(
    wanted: Seq<String>,
    containers: Option<Option<Vec<String>>>,
) -> Result<Seq<usize>, &'static str> {
    match containers {
        None => Err("no spec in deployment"),
        Some(None) => Err("no spec in deployment.spec.template"),
        Some(Some(names)) => Ok(missing(wanted, names@)),
    }
}

/// The positions of the wanted containers that the deployment lacks.
pub fn check_containers(input_containers: &Vec<String>, deployment: &Deployment) -> (indices:
    Result<Vec<usize>, ClientError>)
    ensures
        match containers_checked(input_containers@, deployment.containers) {
            Err(reason) => indices matches Err(ClientError::Json(r)) && r == reason,
            Ok(lacking) => indices is Ok && indices->Ok_0@ == lacking,
        },
{
    let queried = match &deployment.containers {
        None => { return Err(ClientError::Json("no spec in deployment")); },
        Some(None) => { return Err(ClientError::Json("no spec in deployment.spec.template")); },
        Some(Some(names)) => names,
    };
    let mut indices: Vec<usize> = Vec::new();
    let mut i: usize = 0;
    assert(input_containers@.take(0) == Seq::<String>::empty());
    while i < input_containers.len()
        invariant
            i <= input_containers.len(),
            indices@ == missing(input_containers@.take(i as int), queried@),
        decreases input_containers.len() - i,
    {
        proof {
            let next = input_containers@.take(i + 1);
            assert(next.drop_last() == input_containers@.take(i as int));
            assert(next.last() == input_containers@[i as int]);
        }
        if !holds(queried, &input_containers[i]) {
            indices.push(i);
        }
        i += 1;
    }
    assert(input_containers@.take(i as int) == input_containers@);
    Ok(indices)
}

/// Whether the deployment has the name `to_check`.
pub fn check_deploymment_name(deployment: &Deployment, to_check: &String) -> (same: Result<
    bool,
    ClientError,
>)
    ensures
        match deployment.name {
            None => same matches Err(ClientError::Json(r)) && r
                == "no name in deployment metadata",
            Some(name) => same matches Ok(b) && b == (name@ == to_check@),
        },
{
    match &deployment.name {
        None => Err(ClientError::Json("no name in deployment metadata")),
        Some(name) => Ok(*name == *to_check),
    }
}

/// Whether the deployment is in the namespace `to_check`.
pub fn check_namespace(deployment: &Deployment, to_check: &String) -> (same: Result<
    bool,
    ClientError,
>)
    ensures
        match deployment.namespace {
            None => same matches Err(ClientError::Json(r)) && r
                == "no namespace in deployment metadata",
            Some(namespace) => same matches Ok(b) && b == (namespace@ == to_check@),
        },
{
    match &deployment.namespace {
        None => Err(ClientError::Json("no namespace in deployment metadata")),
        Some(namespace) => Ok(*namespace == *to_check),
    }
}

/// What the deployments say of a target.
pub enum Finding {
    /// No deployment is in the target's namespace.
    NoNamespace,
    /// The namespace has deployments, but none of the target's name.
    NoDeployment,
    /// The deployment lacks the containers at these positions.
    NoContainers(Seq<usize>),
    /// The deployment is there, with this uid, and has what is wanted.
    Found(String),
    /// A deployment lacks a field that had to be read; the text says which.
    Unreadable(&'static str),
}

/// What the deployment `found`, which has the target's namespace and name,
/// says of the target: its containers are checked if the target names
/// any, and then its uid is read.
pub open spec fn finding_in(target: TargetInput, found: Deployment) -> Finding {
    if target.containers@.len() > 0 && containers_checked(
        target.containers@,
        found.containers,
    ) is Err {
        Finding::Unreadable(containers_checked(target.containers@, found.containers)->Err_0)
    } else if target.containers@.len() > 0 && containers_checked(
        target.containers@,
        found.containers,
    )->Ok_0.len() > 0 {
        Finding::NoContainers(containers_checked(target.containers@, found.containers)->Ok_0)
    } else {
        match found.uid {
            None => Finding::Unreadable("no uid in deployment metadata"),
            Some(uid) => Finding::Found(uid),
        }
    }
}

/// What `deployments` say of a target, read in order up to the first
/// deployment with the target's namespace and name. `seen` says whether
/// the namespace has been seen before.
pub open spec fn finding_of(target: TargetInput, deployments: Seq<Deployment>, seen: bool) -> Finding
    decreases deployments.len(),
{
    if deployments.len() == 0 {
        if seen {
            Finding::NoDeployment
        } else {
            Finding::NoNamespace
        }
    } else {
        let first = deployments[0];
        match first.namespace {
            None => Finding::Unreadable("no namespace in deployment metadata"),
            Some(namespace) => if namespace@ != target.namespace@ {
                finding_of(target, deployments.drop_first(), seen)
            } else {
                match first.name {
                    None => Finding::Unreadable("no name in deployment metadata"),
                    Some(name) => if name@ != target.deployment_name@ {
                        finding_of(target, deployments.drop_first(), true)
                    } else {
                        finding_in(target, first)
                    },
                }
            },
        }
    }
}

/// Whether `verdict` says of `target` what `finding` says.
pub open spec fn says(
    verdict: Result<Result<Target, TargetError>, ClientError>,
    target: TargetInput,
    finding: Finding,
) -> bool {
    match finding {
        Finding::Unreadable(reason) => verdict matches Err(ClientError::Json(r)) && r == reason,
        Finding::NoNamespace => verdict matches Ok(Err(e)) && e.target == target
            && e.kind is Namespace,
        Finding::NoDeployment => verdict matches Ok(Err(e)) && e.target == target
            && e.kind is Deployment,
        Finding::NoContainers(lacking) => verdict matches Ok(Err(e)) && e.target == target && (
        e.kind matches Kind::Containers(indices) && indices@ == lacking),
        Finding::Found(uid) => verdict matches Ok(Ok(valid)) && valid.namespace
            == target.namespace && valid.deployment_name == target.deployment_name
            && valid.deployment_uid == uid && (if target.containers@.len() == 0 {
            valid.containers is None
        } else {
            valid.containers == Some(target.containers)
        }),
    }
}

fn validate_in(target: TargetInput, found: &Deployment) -> (verdict: Result<
    Result<Target, TargetError>,
    ClientError,
>)
    ensures
        says(verdict, target, finding_in(target, *found)),
        verdict matches Ok(Err(error)) ==> error.wf(),
{
    proof {
        if found.containers is Some && found.containers->Some_0 is Some {
            lemma_missing_in_range(target.containers@, found.containers->Some_0->Some_0@);
        }
    }
    if target.containers.len() > 0 {
        let error_indicies = match check_containers(&target.containers, found) {
            Ok(indices) => indices,
            Err(e) => { return Err(e); },
        };
        if error_indicies.len() > 0 {
            return Ok(Err(TargetError { target, kind: Kind::Containers(error_indicies) }));
        }
    }
    let deployment_uid = match &found.uid {
        None => { return Err(ClientError::Json("no uid in deployment metadata")); },
        Some(uid) => uid.clone(),
    };
    let TargetInput { namespace, deployment_name, containers } = target;
    let containers = if containers.len() == 0 {
        None
    } else {
        Some(containers)
    };
    Ok(Ok(Target { deployment_uid, deployment_name, namespace, containers }))
}

/// Holds one target against the deployments of the cluster.
///
/// The first deployment with the target's namespace and name decides: the
/// target is valid if the deployment has all the containers that the
/// target names. Without such a deployment the target fails on its
/// namespace, if no deployment is in it, and else on its name. A
/// deployment that cannot be read, met on the way, fails the whole check.
pub fn validate_input_target(target: TargetInput, deployments: &Vec<Deployment>) -> (verdict:
    Result<Result<Target, TargetError>, ClientError>)
    ensures
        says(verdict, target, finding_of(target, deployments@, false)),
        verdict matches Ok(Err(error)) ==> error.wf(),
{
    let mut found_namespace = false;
    let mut i: usize = 0;
    assert(deployments@.skip(0) == deployments@);
    while i < deployments.len()
        invariant
            i <= deployments.len(),
            finding_of(target, deployments@, false) == finding_of(
                target,
                deployments@.skip(i as int),
                found_namespace,
            ),
        decreases deployments.len() - i,
    {
        let deployment = &deployments[i];
        proof {
            let rest = deployments@.skip(i as int);
            assert(rest.len() > 0 && rest[0] == *deployment);
            assert(rest.drop_first() == deployments@.skip(i + 1));
        }
        let in_namespace = match check_namespace(deployment, &target.namespace) {
            Ok(same) => same,
            Err(e) => { return Err(e); },
        };
        if in_namespace {
            found_namespace = true;
            let named = match check_deploymment_name(deployment, &target.deployment_name) {
                Ok(same) => same,
                Err(e) => { return Err(e); },
            };
            if named {
                return validate_in(target, deployment);
            }
        }
        i += 1;
    }
    assert(deployments@.skip(i as int).len() == 0);
    let kind = if found_namespace {
        Kind::Deployment
    } else {
        Kind::Namespace
    };
    Ok(Err(TargetError { kind, target }))
}

/// What `serde_json::from_str` makes of `text` read as a list of
/// deployments: the deployments, or `None` where it reports an error.
pub uninterp spec fn deployments_of(text: Seq<char>) -> Option<Vec<Deployment>>;

/// `serde_json::from_str` at `List<Deployment>`, and the move out of each
/// deployment of the fields that [`Deployment`] holds: the namespace, name
/// and uid of `metadata`, and the names of the containers of
/// `spec.template.spec`. The result is a function of the text alone, so it
/// is named: [`deployments_of`]. The decoder's error is handed on as it is.
#[verifier::external_body]
pub(crate) fn decode_deployments(text: &str) -> (decoded: Result<Vec<Deployment>, serde_json::Error>)
    ensures
        decoded is Ok <==> deployments_of(text@) is Some,
        decoded is Ok ==> decoded->Ok_0 == deployments_of(text@)->Some_0,
{
    let list: k8s_openapi::List<k8s_openapi::api::apps::v1::Deployment> = serde_json::from_str(text)?;
    let fields = |d: k8s_openapi::api::apps::v1::Deployment| Deployment {
        namespace: d.metadata.namespace,
        name: d.metadata.name,
        uid: d.metadata.uid,
        containers: d.spec.map(|s| s.template.spec.map(|p| p.containers.into_iter().map(|c| c.name).collect())),
    };
    Ok(list.items.into_iter().map(fields).collect())
}

/// The reason for which the first target that meets a deployment that
/// cannot be read fails the whole check, if one does.
pub open spec fn first_unreadable(
    inputs: Seq<TargetInput>,
    deployments: Seq<Deployment>,
) -> Option<&'static str>
    decreases inputs.len(),
{
    if inputs.len() == 0 {
        None
    } else {
        match first_unreadable(inputs.drop_last(), deployments) {
            Some(reason) => Some(reason),
            None => match finding_of(inputs.last(), deployments, false) {
                Finding::Unreadable(reason) => Some(reason),
                _ => None,
            },
        }
    }
}

/// The targets that the cluster does not hold, in order.
pub open spec fn failing(inputs: Seq<TargetInput>, deployments: Seq<Deployment>) -> Seq<
    TargetInput,
>
    decreases inputs.len(),
{
    if inputs.len() == 0 {
        Seq::empty()
    } else if finding_of(inputs.last(), deployments, false) is Found {
        failing(inputs.drop_last(), deployments)
    } else {
        failing(inputs.drop_last(), deployments).push(inputs.last())
    }
}

/// Each of `errors` says why the target at its position of `failed` fails.
pub open spec fn explain(
    errors: Seq<TargetError>,
    failed: Seq<TargetInput>,
    deployments: Seq<Deployment>,
) -> bool {
    &&& errors.len() == failed.len()
    &&& forall|k: int|
        0 <= k < errors.len() ==> says(
            Ok::<Result<Target, TargetError>, ClientError>(
                Err::<Target, TargetError>(#[trigger] errors[k]),
            ),
            failed[k],
            finding_of(failed[k], deployments, false),
        )
}

/// Each of `targets` is the valid form of the target at its position of
/// `inputs`.
pub open spec fn confirm(
    targets: Seq<Target>,
    inputs: Seq<TargetInput>,
    deployments: Seq<Deployment>,
) -> bool {
    &&& targets.len() == inputs.len()
    &&& forall|k: int|
        0 <= k < targets.len() ==> says(
            Ok::<Result<Target, TargetError>, ClientError>(
                Ok::<Target, TargetError>(#[trigger] targets[k]),
            ),
            inputs[k],
            finding_of(inputs[k], deployments, false),
        )
}

/// Whether `verdict` is what the deployments say of all the targets: the
/// valid targets if all are valid, the errors of those that are not if
/// some are not, and the first reading error if there is one.
pub open spec fn verdict_of(
    verdict: Result<Result<Vec<Target>, Vec<TargetError>>, ClientError>,
    inputs: Seq<TargetInput>,
    deployments: Seq<Deployment>,
) -> bool {
    match first_unreadable(inputs, deployments) {
        Some(reason) => verdict matches Err(ClientError::Json(r)) && r == reason,
        None => if failing(inputs, deployments).len() == 0 {
            verdict matches Ok(Ok(targets)) && confirm(targets@, inputs, deployments)
        } else {
            verdict matches Ok(Err(errors)) && explain(
                errors@,
                failing(inputs, deployments),
                deployments,
            )
        },
    }
}

proof fn lemma_unreadable_stays(inputs: Seq<TargetInput>, deployments: Seq<Deployment>, n: int)
    requires
        0 <= n <= inputs.len(),
        first_unreadable(inputs.take(n), deployments) is Some,
    ensures
        first_unreadable(inputs, deployments) == first_unreadable(inputs.take(n), deployments),
    decreases inputs.len() - n,
{
    if n == inputs.len() {
        assert(inputs.take(n) == inputs);
    } else {
        assert(inputs.take(n + 1).drop_last() == inputs.take(n));
        lemma_unreadable_stays(inputs, deployments, n + 1);
    }
}

/// Holds all the targets against the deployments of the cluster.
#[verifier::loop_isolation(false)]
pub fn validate_all(input_targets: Vec<TargetInput>, deployments: &Vec<Deployment>) -> (verdict:
    Result<Result<Vec<Target>, Vec<TargetError>>, ClientError>)
    ensures
        verdict_of(verdict, input_targets@, deployments@),
        verdict matches Ok(Err(errors)) ==> forall|k: int|
            0 <= k < errors@.len() ==> (#[trigger] errors@[k]).wf(),
{
    let mut errors: Vec<TargetError> = Vec::new();
    let mut targets: Vec<Target> = Vec::new();
    assert(input_targets@.take(0) == Seq::<TargetInput>::empty());
    for input in it: input_targets
        invariant
            it.seq() == input_targets@,
            first_unreadable(input_targets@.take(it.index() as int), deployments@) is None,
            explain(
                errors@,
                failing(input_targets@.take(it.index() as int), deployments@),
                deployments@,
            ),
            errors@.len() == 0 ==> confirm(
                targets@,
                input_targets@.take(it.index() as int),
                deployments@,
            ),
            forall|k: int| 0 <= k < errors@.len() ==> (#[trigger] errors@[k]).wf(),
    {
        let ghost done = input_targets@.take(it.index() as int);
        let ghost next = input_targets@.take(it.index() + 1);
        proof {
            assert(next.drop_last() == done);
            assert(next.last() == input);
        }
        match validate_input_target(input, deployments) {
            Err(e) => {
                proof {
                    lemma_unreadable_stays(input_targets@, deployments@, it.index() + 1);
                }
                return Err(e);
            },
            Ok(Ok(valid)) => {
                proof {
                    let before = targets@;
                    let after = before.push(valid);
                    if errors@.len() == 0 {
                        assert forall|k: int| 0 <= k < after.len() implies says(
                            Ok::<Result<Target, TargetError>, ClientError>(
                                Ok::<Target, TargetError>(#[trigger] after[k]),
                            ),
                            next[k],
                            finding_of(next[k], deployments@, false),
                        ) by {
                            if k < before.len() {
                                assert(after[k] == before[k]);
                                assert(next[k] == done[k]);
                            }
                        }
                    }
                }
                targets.push(valid);
            },
            Ok(Err(error)) => {
                proof {
                    let before = errors@;
                    let after = before.push(error);
                    let failed = failing(next, deployments@);
                    assert(failed == failing(done, deployments@).push(input));
                    assert forall|k: int| 0 <= k < after.len() implies says(
                        Ok::<Result<Target, TargetError>, ClientError>(
                            Err::<Target, TargetError>(#[trigger] after[k]),
                        ),
                        failed[k],
                        finding_of(failed[k], deployments@, false),
                    ) by {
                        if k < before.len() {
                            assert(after[k] == before[k]);
                        }
                    }
                }
                errors.push(error);
            },
        }
    }
    assert(input_targets@.take(input_targets@.len() as int) == input_targets@);
    if errors.len() == 0 {
        Ok(Ok(targets))
    } else {
        Ok(Err(errors))
    }
}

/// Reads the body of the response that lists all deployments and holds
/// the targets against it.
pub fn validate_targets(body: &str, input_targets: Vec<TargetInput>) -> (verdict: Result<
    Result<Vec<Target>, Vec<TargetError>>,
    ClientError,
>)
    ensures
        match deployments_of(body@) {
            None => verdict is Err && verdict->Err_0 is Serde,
            Some(deployments) => verdict_of(verdict, input_targets@, deployments@),
        },
{
    match decode_deployments(body) {
        Err(e) => Err(ClientError::Serde(e)),
        Ok(deployments) => validate_all(input_targets, &deployments),
    }
}

} // verus!
