//! What the metrics endpoints serve. The demo data source answers node and
//! pod queries with fixed usage values until real derivation is wired in;
//! the discovery document lists the two served kinds; and a parsed scrape
//! can be asked for a node's usage numbers.

use vstd::prelude::*;

use crate::discovery::{
    api_resource_list, api_resource_list_spec, ApiResourceList, node_metrics_identity,
    node_metrics_identity_spec, pod_metrics_identity, pod_metrics_identity_spec,
};
use crate::expo::{
    Scrape, SampleValue, spec_sample_matches, str_eq, value_as_integer, value_to_integer,
    find_sample,
};
use crate::meta::{
    Container, ContainerModel, named_meta, namespaced_meta, NodeMetrics, NodeMetricsModel,
    ObjectMetaModel, PodMetrics, PodMetricsModel, Time, Usage, UsageModel,
};
use crate::quantity::Quantity;

verus! {

/// The usage snapshot holding the given quantity strings.
pub open spec fn usage_model(cpu: Seq<char>, memory: Seq<char>) -> UsageModel {
    UsageModel { cpu, memory }
}

fn usage_of(cpu: &str, memory: &str) -> (u: Usage)
    ensures
        u@ == usage_model(cpu@, memory@),
{
    Usage {
        cpu: Quantity(String::from_str(cpu)),
        memory: Quantity(String::from_str(memory)),
    }
}

/// The demo node entry: named, created now, stamped now, a 30-second
/// window, and the given usage.
pub open spec fn demo_node_model(
    name: Seq<char>,
    now: Time,
    cpu: Seq<char>,
    memory: Seq<char>,
) -> NodeMetricsModel {
    NodeMetricsModel {
        metadata: ObjectMetaModel { creation_timestamp: Some(now), ..named_meta(name) },
        timestamp: now,
        window_seconds: 30,
        usage: usage_model(cpu, memory),
    }
}

fn demo_node_entry(name: &str, now: Time, cpu: &str, memory: &str) -> (r: NodeMetrics)
    ensures
        r@ == demo_node_model(name@, now, cpu@, memory@),
{
    NodeMetrics {
        metadata: crate::meta::ObjectMeta::new(name).created(Some(now)),
        timestamp: now,
        window_seconds: 30,
        usage: usage_of(cpu, memory),
    }
}

/// The demo nodes: two fixed entries.
pub fn nodes(now: Time) -> (r: Vec<NodeMetrics>)
    ensures
        r@.len() == 2,
        r@[0]@ == demo_node_model("demo-node-1"@, now, "150m"@, "512Mi"@),
        r@[1]@ == demo_node_model("demo-node-2"@, now, "200m"@, "1Gi"@),
{
    let mut v: Vec<NodeMetrics> = Vec::new();
    v.push(demo_node_entry("demo-node-1", now, "150m", "512Mi"));
    v.push(demo_node_entry("demo-node-2", now, "200m", "1Gi"));
    v
}

/// The demo metrics of one named node.
pub open spec fn demo_node_spec(name: Seq<char>, now: Time) -> NodeMetricsModel {
    demo_node_model(name, now, "100m"@, "200Mi"@)
}

/// Demo node metrics for `node`, or `None` for the one node name the demo
/// data set treats as absent.
pub fn node(name: &str, now: Time) -> (r: Option<NodeMetrics>)
    ensures
        match r {
            Some(m) => name@ != "node-5"@ && m@ == demo_node_spec(name@, now),
            None => name@ == "node-5"@,
        },
{
    if str_eq(name, "node-5") {
        None
    } else {
        Some(demo_node_entry(name, now, "100m", "200Mi"))
    }
}

/// One demo container with the given name and usage.
pub open spec fn demo_container_model(
    name: Seq<char>,
    cpu: Seq<char>,
    memory: Seq<char>,
) -> ContainerModel {
    ContainerModel { name, usage: usage_model(cpu, memory) }
}

fn demo_container(name: &str, cpu: &str, memory: &str) -> (r: Container)
    ensures
        r@ == demo_container_model(name@, cpu@, memory@),
{
    Container { name: String::from_str(name), usage: usage_of(cpu, memory) }
}

/// The demo pod entry: named and namespaced, created now, stamped now, a
/// 30-second window, and the given containers.
pub open spec fn demo_pod_model(
    name: Seq<char>,
    namespace: Seq<char>,
    now: Time,
    containers: Seq<ContainerModel>,
) -> PodMetricsModel {
    PodMetricsModel {
        metadata: ObjectMetaModel {
            creation_timestamp: Some(now),
            ..namespaced_meta(name, namespace)
        },
        timestamp: now,
        window_seconds: 30,
        containers,
    }
}

fn demo_pod_entry(name: &str, namespace: &str, now: Time, containers: Vec<Container>) -> (r:
    PodMetrics)
    ensures
        r@ == demo_pod_model(
            name@,
            namespace@,
            now,
            containers@.map_values(|c: Container| c@),
        ),
{
    PodMetrics {
        metadata: crate::meta::ObjectMeta::with_namespace(name, namespace).created(Some(now)),
        timestamp: now,
        window_seconds: 30,
        containers,
    }
}

/// The containers of the single demo pod.
pub open spec fn demo_web_containers() -> Seq<ContainerModel> {
    seq![demo_container_model("web-server"@, "75m"@, "128Mi"@)]
}

/// Demo pod metrics for `name` in `namespace`, or `None` for the one pod
/// name the demo data set treats as absent.
pub fn pod(name: &str, namespace: &str, now: Time) -> (r: Option<PodMetrics>)
    ensures
        match r {
            Some(m) => name@ != "xyz"@ && m@ == demo_pod_model(
                name@,
                namespace@,
                now,
                demo_web_containers(),
            ),
            None => name@ == "xyz"@,
        },
{
    if str_eq(name, "xyz") {
        return None;
    }
    let mut containers: Vec<Container> = Vec::new();
    containers.push(demo_container("web-server", "75m", "128Mi"));
    proof {
        assert(containers@.map_values(|c: Container| c@) =~= demo_web_containers());
    }
    Some(demo_pod_entry(name, namespace, now, containers))
}

/// The containers of the first demo pod.
pub open spec fn demo_app_containers() -> Seq<ContainerModel> {
    seq![
        demo_container_model("app-container"@, "25m"@, "64Mi"@),
        demo_container_model("sidecar-container"@, "10m"@, "32Mi"@),
    ]
}

/// The demo pods of one namespace: two fixed entries. A query without a
/// namespace is answered for the `default` namespace.
pub fn pods(namespace: Option<String>, now: Time) -> (r: Vec<PodMetrics>)
    ensures
        ({
            let ns = match namespace {
                Some(s) => s@,
                None => "default"@,
            };
            &&& r@.len() == 2
            &&& r@[0]@ == demo_pod_model("demo-pod-1"@, ns, now, demo_app_containers())
            &&& r@[1]@ == demo_pod_model("demo-pod-2"@, ns, now, demo_web_containers())
        }),
{
    let ns: String = match namespace {
        Some(s) => s,
        None => String::from_str("default"),
    };
    let mut c1: Vec<Container> = Vec::new();
    c1.push(demo_container("app-container", "25m", "64Mi"));
    c1.push(demo_container("sidecar-container", "10m", "32Mi"));
    proof {
        assert(c1@.map_values(|c: Container| c@) =~= demo_app_containers());
    }
    let mut c2: Vec<Container> = Vec::new();
    c2.push(demo_container("web-server", "75m", "128Mi"));
    proof {
        assert(c2@.map_values(|c: Container| c@) =~= demo_web_containers());
    }
    let mut v: Vec<PodMetrics> = Vec::new();
    v.push(demo_pod_entry("demo-pod-1", ns.as_str(), now, c1));
    v.push(demo_pod_entry("demo-pod-2", ns.as_str(), now, c2));
    v
}

/// The discovery document of the metrics endpoint: the node and pod
/// metrics kinds under `metrics.k8s.io/v1beta1`, in that order.
pub fn metrics_api_resource_list() -> (r: ApiResourceList)
    ensures
        r@ == api_resource_list_spec(
            "metrics.k8s.io/v1beta1"@,
            seq![node_metrics_identity_spec(), pod_metrics_identity_spec()],
        ),
{
    let mut ids = Vec::new();
    ids.push(node_metrics_identity());
    ids.push(pod_metrics_identity());
    proof {
        assert(ids@.map_values(|i: crate::discovery::ResourceIdentity| i@) =~= seq![
            node_metrics_identity_spec(),
            pod_metrics_identity_spec(),
        ]);
    }
    api_resource_list(String::from_str("metrics.k8s.io/v1beta1"), &ids)
}

/// The whole number the first sample of `metric` labelled `key="value"`
/// denotes, if such a sample exists and its value is a whole number.
pub fn sample_integer_value(sc: &Scrape, metric: &str, key: &str, value: &str) -> (r: Option<
    i64,
>)
    ensures
        match r {
            Some(b) => exists|i: int|
                {
                    &&& 0 <= i < sc@.samples.len()
                    &&& #[trigger] spec_sample_matches(sc@.samples[i], metric@, key@, value@)
                    &&& (forall|j: int|
                        0 <= j < i ==> !spec_sample_matches(
                            #[trigger] sc@.samples[j],
                            metric@,
                            key@,
                            value@,
                        ))
                    &&& value_as_integer(sc@.samples[i].value) == Some(b)
                },
            None => (forall|j: int|
                0 <= j < sc@.samples.len() ==> !spec_sample_matches(
                    #[trigger] sc@.samples[j],
                    metric@,
                    key@,
                    value@,
                )) || exists|i: int|
                {
                    &&& 0 <= i < sc@.samples.len()
                    &&& #[trigger] spec_sample_matches(sc@.samples[i], metric@, key@, value@)
                    &&& value_as_integer(sc@.samples[i].value) is None
                },
        },
{
    match find_sample(sc, metric, key, value) {
        Some(i) => {
            let ghost gi = i as int;
            let v: SampleValue = sc.samples[i].value;
            proof {
                assert(sc@.samples[gi].value == v);
            }
            let r = value_to_integer(&v);
            proof {
                if r is None {
                    assert(spec_sample_matches(sc@.samples[gi], metric@, key@, value@));
                }
            }
            r
        },
        None => None,
    }
}

/// The bytes of a node's memory working set, as the scrape reports them:
/// the first `node_memory_working_set_bytes` sample labelled with the node,
/// when there is one and its value is a whole number.
pub fn node_memory_bytes(sc: &Scrape, node: &str) -> (r: Option<i64>)
    ensures
        match r {
            Some(b) => exists|i: int|
                {
                    &&& 0 <= i < sc@.samples.len()
                    &&& #[trigger] spec_sample_matches(
                        sc@.samples[i],
                        "node_memory_working_set_bytes"@,
                        "node"@,
                        node@,
                    )
                    &&& value_as_integer(sc@.samples[i].value) == Some(b)
                },
            None => (forall|j: int|
                0 <= j < sc@.samples.len() ==> !spec_sample_matches(
                    #[trigger] sc@.samples[j],
                    "node_memory_working_set_bytes"@,
                    "node"@,
                    node@,
                )) || exists|i: int|
                {
                    &&& 0 <= i < sc@.samples.len()
                    &&& #[trigger] spec_sample_matches(
                        sc@.samples[i],
                        "node_memory_working_set_bytes"@,
                        "node"@,
                        node@,
                    )
                    &&& value_as_integer(sc@.samples[i].value) is None
                },
        },
{
    sample_integer_value(sc, "node_memory_working_set_bytes", "node", node)
}

} // verus!
