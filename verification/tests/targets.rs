use kubewatch::client::error::ClientError;
use kubewatch::client::targets::{
    check_containers, check_deploymment_name, check_namespace, validate_all,
    validate_input_target, validate_targets, Deployment, Kind, Target, TargetError, TargetInput,
};

fn texts(items: &[&str]) -> Vec<String> {
    items.iter().map(|s| s.to_string()).collect()
}

fn deployment(namespace: &str, name: &str, uid: &str, containers: &[&str]) -> Deployment {
    Deployment {
        namespace: Some(namespace.to_string()),
        name: Some(name.to_string()),
        uid: Some(uid.to_string()),
        containers: Some(Some(texts(containers))),
    }
}

fn input(namespace: &str, name: &str, containers: &[&str]) -> TargetInput {
    TargetInput::new(namespace, name, texts(containers))
}

fn cluster() -> Vec<Deployment> {
    vec![
        deployment("default", "web", "uid-web", &["nginx", "sidecar"]),
        deployment("default", "api", "uid-api", &["server"]),
        deployment("jobs", "batch", "uid-batch", &["worker"]),
    ]
}

fn reason(result: Result<impl std::fmt::Debug, ClientError>) -> &'static str {
    match result {
        Err(ClientError::Json(text)) => text,
        other => panic!("expected a missing field, got {other:?}"),
    }
}

#[test]
fn a_target_input_keeps_what_it_was_given() {
    let target = input("default", "web", &["nginx"]);
    assert_eq!(target.namespace, "default");
    assert_eq!(target.deployment_name, "web");
    assert_eq!(target.containers, texts(&["nginx"]));
}

#[test]
fn containers_that_the_deployment_lacks_are_named_by_position() {
    let d = deployment("default", "web", "u", &["nginx", "sidecar"]);
    assert_eq!(check_containers(&texts(&["nginx", "sidecar"]), &d).unwrap(), Vec::<usize>::new());
    assert_eq!(check_containers(&texts(&["a", "nginx", "b", "sidecar", "c"]), &d).unwrap(), vec![0, 2, 4]);
    assert_eq!(check_containers(&texts(&[]), &d).unwrap(), Vec::<usize>::new());
    assert_eq!(check_containers(&texts(&["x", "x"]), &d).unwrap(), vec![0, 1]);
}

#[test]
fn a_deployment_without_spec_cannot_be_checked_for_containers() {
    let mut d = deployment("default", "web", "u", &[]);
    d.containers = None;
    assert_eq!(reason(check_containers(&texts(&["a"]), &d)), "no spec in deployment");
    d.containers = Some(None);
    assert_eq!(reason(check_containers(&texts(&["a"]), &d)), "no spec in deployment.spec.template");
}

#[test]
fn name_and_namespace_are_compared() {
    let d = deployment("default", "web", "u", &[]);
    assert_eq!(check_deploymment_name(&d, &"web".to_string()).unwrap(), true);
    assert_eq!(check_deploymment_name(&d, &"api".to_string()).unwrap(), false);
    assert_eq!(check_namespace(&d, &"default".to_string()).unwrap(), true);
    assert_eq!(check_namespace(&d, &"jobs".to_string()).unwrap(), false);
    let nameless = Deployment { name: None, ..deployment("default", "web", "u", &[]) };
    assert_eq!(reason(check_deploymment_name(&nameless, &"web".to_string())), "no name in deployment metadata");
    let homeless = Deployment { namespace: None, ..deployment("default", "web", "u", &[]) };
    assert_eq!(reason(check_namespace(&homeless, &"default".to_string())), "no namespace in deployment metadata");
}

#[test]
fn a_target_without_containers_means_all_of_them() {
    assert_eq!(
        validate_input_target(input("default", "api", &[]), &cluster()).unwrap(),
        Ok(Target {
            namespace: "default".to_string(),
            deployment_name: "api".to_string(),
            deployment_uid: "uid-api".to_string(),
            containers: None,
        })
    );
}

#[test]
fn a_target_with_containers_that_are_there_is_valid() {
    assert_eq!(
        validate_input_target(input("default", "web", &["sidecar"]), &cluster()).unwrap(),
        Ok(Target {
            namespace: "default".to_string(),
            deployment_name: "web".to_string(),
            deployment_uid: "uid-web".to_string(),
            containers: Some(texts(&["sidecar"])),
        })
    );
}

#[test]
fn a_target_fails_on_its_namespace_its_name_or_its_containers() {
    assert_eq!(
        validate_input_target(input("nowhere", "web", &[]), &cluster()).unwrap(),
        Err(TargetError { kind: Kind::Namespace, target: input("nowhere", "web", &[]) })
    );
    assert_eq!(
        validate_input_target(input("jobs", "web", &[]), &cluster()).unwrap(),
        Err(TargetError { kind: Kind::Deployment, target: input("jobs", "web", &[]) })
    );
    assert_eq!(
        validate_input_target(input("default", "web", &["nginx", "db"]), &cluster()).unwrap(),
        Err(TargetError { kind: Kind::Containers(vec![1]), target: input("default", "web", &["nginx", "db"]) })
    );
    assert_eq!(
        validate_input_target(input("default", "web", &[]), &Vec::new()).unwrap(),
        Err(TargetError { kind: Kind::Namespace, target: input("default", "web", &[]) })
    );
}

#[test]
fn the_first_deployment_of_the_name_decides() {
    let cluster = vec![
        deployment("default", "web", "first", &["a"]),
        deployment("default", "web", "second", &["b"]),
    ];
    assert_eq!(
        validate_input_target(input("default", "web", &["b"]), &cluster).unwrap(),
        Err(TargetError { kind: Kind::Containers(vec![0]), target: input("default", "web", &["b"]) })
    );
    assert_eq!(validate_input_target(input("default", "web", &[]), &cluster).unwrap().unwrap().deployment_uid, "first");
}

#[test]
fn a_deployment_that_cannot_be_read_fails_the_check() {
    let homeless = Deployment { namespace: None, ..deployment("x", "web", "u", &[]) };
    let nameless = Deployment { name: None, ..deployment("default", "x", "u", &[]) };
    let anonymous = Deployment { uid: None, ..deployment("default", "web", "u", &["nginx"]) };
    let bare = Deployment { containers: None, ..deployment("default", "web", "u", &[]) };
    assert_eq!(
        reason(validate_input_target(input("default", "web", &[]), &vec![homeless])),
        "no namespace in deployment metadata"
    );
    assert_eq!(
        reason(validate_input_target(input("default", "web", &[]), &vec![nameless])),
        "no name in deployment metadata"
    );
    assert_eq!(
        reason(validate_input_target(input("default", "web", &["nginx"]), &vec![anonymous])),
        "no uid in deployment metadata"
    );
    assert_eq!(
        reason(validate_input_target(input("default", "web", &["nginx"]), &vec![bare])),
        "no spec in deployment"
    );
    // a namespace of another name is passed over before its name is read
    let other = Deployment { name: None, ..deployment("jobs", "x", "u", &[]) };
    assert!(validate_input_target(input("default", "web", &[]), &vec![other]).is_ok());
    // a deployment without spec is fine for a target that names no containers
    let bare = Deployment { containers: None, ..deployment("default", "web", "u", &[]) };
    assert!(validate_input_target(input("default", "web", &[]), &vec![bare]).unwrap().is_ok());
}

#[test]
fn all_valid_targets_are_handed_back_in_order() {
    let verdict = validate_all(vec![input("jobs", "batch", &[]), input("default", "api", &["server"])], &cluster());
    let targets = verdict.unwrap().unwrap();
    assert_eq!(targets.len(), 2);
    assert_eq!(targets[0].deployment_uid, "uid-batch");
    assert_eq!(targets[1].deployment_uid, "uid-api");
    assert_eq!(validate_all(vec![], &cluster()).unwrap(), Ok(vec![]));
}

#[test]
fn the_errors_of_all_invalid_targets_are_handed_back_in_order() {
    let inputs = vec![
        input("default", "web", &[]),
        input("nowhere", "web", &[]),
        input("default", "api", &["server", "x"]),
        input("jobs", "nothing", &[]),
    ];
    let errors = validate_all(inputs, &cluster()).unwrap().unwrap_err();
    assert_eq!(
        errors,
        vec![
            TargetError { kind: Kind::Namespace, target: input("nowhere", "web", &[]) },
            TargetError { kind: Kind::Containers(vec![1]), target: input("default", "api", &["server", "x"]) },
            TargetError { kind: Kind::Deployment, target: input("jobs", "nothing", &[]) },
        ]
    );
}

#[test]
fn a_reading_error_ends_the_check_of_all_targets() {
    let mut broken = cluster();
    broken[1].name = None;
    let inputs = vec![input("default", "web", &[]), input("default", "api", &[]), input("jobs", "batch", &[])];
    assert_eq!(reason(validate_all(inputs, &broken)), "no name in deployment metadata");
}

const DEPLOYMENTS: &str = r#"{"kind":"DeploymentList","apiVersion":"apps/v1","metadata":{"resourceVersion":"5"},"items":[
 {"metadata":{"name":"web","namespace":"default","uid":"uid-web"},
  "spec":{"selector":{},"template":{"spec":{"containers":[{"name":"nginx"},{"name":"sidecar"}]}}}},
 {"metadata":{"name":"bare","namespace":"default","uid":"uid-bare"}}
]}"#;

#[test]
fn the_list_of_deployments_is_decoded_and_checked() {
    let verdict = validate_targets(DEPLOYMENTS, vec![input("default", "web", &["sidecar"])]);
    assert_eq!(
        verdict.unwrap().unwrap(),
        vec![Target {
            namespace: "default".to_string(),
            deployment_name: "web".to_string(),
            deployment_uid: "uid-web".to_string(),
            containers: Some(texts(&["sidecar"])),
        }]
    );
    let verdict = validate_targets(DEPLOYMENTS, vec![input("default", "web", &["db"])]);
    assert_eq!(
        verdict.unwrap().unwrap_err(),
        vec![TargetError { kind: Kind::Containers(vec![0]), target: input("default", "web", &["db"]) }]
    );
    assert_eq!(
        reason(validate_targets(DEPLOYMENTS, vec![input("default", "bare", &["x"])])),
        "no spec in deployment"
    );
}

#[test]
fn a_list_of_deployments_that_is_no_json_is_a_decoding_error() {
    assert!(matches!(validate_targets("nope", vec![]), Err(ClientError::Serde(_))));
}
