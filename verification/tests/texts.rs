use kubewatch::client::endpoint::proxy_endpoint;
use kubewatch::client::pods::{CAdvisorPods, Pod};
use kubewatch::client::targets::{Kind, TargetError, TargetInput};
use kubewatch::client::watch::{DaemonSetEvent, EventKind};
use kubewatch::metrics::container::{ContainerMetric, KubeMetaData};
use kubewatch::metrics::querier::TopLevelMetric;

fn pod(uid: &str, ready: bool) -> Pod {
    Pod::new(uid.to_string(), "kube-system".to_string(), format!("cadvisor-{uid}"), ready)
}

#[test]
fn a_pod_is_written_in_one_line() {
    assert_eq!(pod("a", true).to_string(), "Pod (name: cadvisor-a, uid: a, status: true)");
    assert_eq!(pod("b", false).to_string(), "Pod (name: cadvisor-b, uid: b, status: false)");
}

#[test]
fn a_set_of_pods_is_written_line_by_line() {
    let state = CAdvisorPods { pods: vec![pod("a", true), pod("b", false)], version: "12".to_string() };
    assert_eq!(
        state.to_string(),
        "CAdvisorPods | version: 12: [\n\tPod (name: cadvisor-a, uid: a, status: true)\n\tPod (name: cadvisor-b, uid: b, status: false)\n]\n"
    );
    let empty = CAdvisorPods { pods: vec![], version: "".to_string() };
    assert_eq!(empty.to_string(), "CAdvisorPods | version: : [\n]\n");
}

#[test]
fn an_event_is_written_in_one_line() {
    let text = |ready, kind| DaemonSetEvent { pod: pod("a", ready), kind }.to_string();
    assert_eq!(text(true, EventKind::Created), "Pod cadvisor-a: created - running\n");
    assert_eq!(text(false, EventKind::Created), "Pod cadvisor-a: created - paused\n");
    assert_eq!(text(true, EventKind::Deleted), "Pod cadvisor-a: deleted\n");
    assert_eq!(text(false, EventKind::Paused), "Pod cadvisor-a: paused\n");
    assert_eq!(text(true, EventKind::Resumed), "Pod cadvisor-a: resumed\n");
}

#[test]
fn a_target_error_is_written_in_one_sentence() {
    let target = || TargetInput::new("default", "web", vec!["a".to_string(), "b".to_string(), "c".to_string()]);
    let text = |kind| TargetError { kind, target: target() }.to_string();
    assert_eq!(
        text(Kind::Namespace),
        "for the target \"/namespace/default/deployments/web\", the namespace was not found"
    );
    assert_eq!(
        text(Kind::Deployment),
        "for the target \"/namespace/default/deployments/web\", the deployment was not found in the namespace"
    );
    assert_eq!(
        text(Kind::Containers(vec![0, 2])),
        "for the target \"/namespace/default/deployments/web\", the following containers were not found: [ \"a\", \"c\" ]"
    );
    assert_eq!(
        text(Kind::Containers(vec![1])),
        "for the target \"/namespace/default/deployments/web\", the following containers were not found: [ \"b\" ]"
    );
    assert_eq!(
        text(Kind::Containers(vec![])),
        "for the target \"/namespace/default/deployments/web\", the following containers were not found: [ ]"
    );
}

#[test]
fn a_container_is_named_by_its_pod_or_its_id() {
    let mut metric = ContainerMetric { id: "/kubepods/x".to_string(), kube_meta: None, value: "1".to_string(), timestamp: 1 };
    assert_eq!(metric.to_string(), "id: `/kubepods/x`");
    metric.kube_meta = Some(KubeMetaData {
        pod_name: "web-1".to_string(),
        namespace: "default".to_string(),
        pod_uid: "u".to_string(),
    });
    assert_eq!(metric.to_string(), "default/web-1");
}

#[test]
fn the_proxy_path_names_namespace_pod_and_path() {
    assert_eq!(
        proxy_endpoint(&pod("a", true), "metrics"),
        "/api/v1/namespaces/kube-system/pods/cadvisor-a/proxy/metrics"
    );
}

#[test]
fn a_scraped_counter_is_read_as_nanoseconds() {
    let metric = |value: &str| TopLevelMetric { value: value.to_string(), timestamp: 5 };
    assert_eq!(metric("1234.567891234").cpu_nanoseconds(), Some(1_234_567_891_234));
    assert_eq!(metric("1.5e+03").cpu_nanoseconds(), Some(1_500_000_000_000));
    assert_eq!(metric("NaN").cpu_nanoseconds(), None);
    assert_eq!(metric("-3").cpu_nanoseconds(), None);
}
