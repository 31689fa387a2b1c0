//! One container's CPU counter, as a sample line states it.
use vstd::prelude::*;
use vstd::string::StringExecFns;
use crate::metrics::exposition::{label_of, label_value, MetricFamily, SampleLine};

verus! {

/// The pod that a container belongs to.
#[derive(Debug, PartialEq, Eq)]
pub struct KubeMetaData {
    pub pod_name: String,
    pub namespace: String,
    pub pod_uid: String,
}

/// One container's counter: its cgroup id, its pod where the line names
/// one, the value as the payload wrote it, and the timestamp in
/// milliseconds.
#[derive(Debug, PartialEq, Eq)]
pub struct ContainerMetric {
    pub id: String,
    pub kube_meta: Option<KubeMetaData>,
    pub value: String,
    pub timestamp: i64,
}

/// The pod that the labels name: all three of its labels must be there.
pub open spec fn kube_meta_of(labels: Seq<crate::metrics::exposition::Label>) -> Option<
    KubeMetaData,
> {
    match (
        label_of(labels, "container_label_io_kubernetes_pod_uid"@),
        label_of(labels, "container_label_io_kubernetes_pod_namespace"@),
        label_of(labels, "container_label_io_kubernetes_pod_name"@),
    ) {
        (Some(pod_uid), Some(namespace), Some(pod_name)) => Some(
            KubeMetaData { pod_name, namespace, pod_uid },
        ),
        _ => None,
    }
}

/// The container that a sample line speaks of: the line must carry a
/// timestamp and the label `id`.
pub open spec fn container_of(sample: SampleLine) -> Option<ContainerMetric> {
    match sample.timestamp {
        None => None,
        Some(timestamp) => match label_of(sample.labels@, "id"@) {
            None => None,
            Some(id) => Some(
                ContainerMetric {
                    id,
                    kube_meta: kube_meta_of(sample.labels@),
                    value: sample.value,
                    timestamp,
                },
            ),
        },
    }
}

impl ContainerMetric {
    /// The container's name for a reader: `{namespace}/{pod}` where its
    /// pod is known, and its id otherwise.
    pub fn to_string(&self) -> (text: String)
        ensures
            text@ == match self.kube_meta {
                None => "id: `"@ + self.id@ + "`"@,
                Some(meta) => meta.namespace@ + "/"@ + meta.pod_name@,
            },
    {
        match &self.kube_meta {
            None => {
                let mut text = "id: `".to_owned();
                text.append(self.id.as_str());
                text.append("`");
                text
            },
            Some(meta) => {
                let mut text = meta.namespace.clone();
                text.append("/");
                text.append(meta.pod_name.as_str());
                text
            },
        }
    }

    /// Reads a sample line as a container's counter.
    pub fn try_from(sample: &SampleLine) -> (metric: Option<ContainerMetric>)
        ensures
            metric == container_of(*sample),
    {
        let timestamp = match sample.timestamp {
            None => { return None; },
            Some(timestamp) => timestamp,
        };
        let pod_name = label_value(&sample.labels, "container_label_io_kubernetes_pod_name");
        let namespace = label_value(&sample.labels, "container_label_io_kubernetes_pod_namespace");
        let pod_uid = label_value(&sample.labels, "container_label_io_kubernetes_pod_uid");
        let kube_meta = match (pod_uid, namespace, pod_name) {
            (Some(pod_uid), Some(namespace), Some(pod_name)) => Some(
                KubeMetaData {
                    pod_name: pod_name.clone(),
                    namespace: namespace.clone(),
                    pod_uid: pod_uid.clone(),
                },
            ),
            _ => None,
        };
        let id = match label_value(&sample.labels, "id") {
            None => { return None; },
            Some(id) => id.clone(),
        };
        Some(ContainerMetric { id, kube_meta, value: sample.value.clone(), timestamp })
    }
}

/// The first line of `samples` that reads as a container with the id `/`.
pub open spec fn root_container(samples: Seq<SampleLine>) -> Option<ContainerMetric>
    decreases samples.len(),
{
    if samples.len() == 0 {
        None
    } else {
        match container_of(samples[0]) {
            Some(container) if container.id@ == "/"@ => Some(container),
            _ => root_container(samples.drop_first()),
        }
    }
}

/// The node's root container among the samples of a metric: the first
/// line that reads as a container and has the id `/`.
pub fn find_root_container(metric: &MetricFamily) -> (found: Option<ContainerMetric>)
    ensures
        found == root_container(metric.samples@),
{
    let root = "/".to_owned();
    let mut i: usize = 0;
    assert(metric.samples@.skip(0) == metric.samples@);
    while i < metric.samples.len()
        invariant
            i <= metric.samples.len(),
            root@ == "/"@,
            root_container(metric.samples@) == root_container(metric.samples@.skip(i as int)),
        decreases metric.samples.len() - i,
    {
        let ghost rest = metric.samples@.skip(i as int);
        assert(rest.len() > 0 && rest[0] == metric.samples@[i as int]);
        match ContainerMetric::try_from(&metric.samples[i]) {
            Some(container) => {
                if container.id == root {
                    return Some(container);
                }
            },
            None => {},
        }
        assert(rest.drop_first() == metric.samples@.skip(i + 1));
        i += 1;
    }
    assert(metric.samples@.skip(i as int).len() == 0);
    None
}

} // verus!
