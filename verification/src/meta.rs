//! The served data model: object metadata, usage snapshots, and the
//! per-node and per-pod metrics objects, all over plain values. A point in
//! time is a count of milliseconds since the Unix epoch; a window is a count
//! of seconds.

use vstd::prelude::*;

use crate::discovery::{
    api_resource, api_resource_spec, node_metrics_identity, pod_metrics_identity, ApiResource,
    node_metrics_identity_spec, pod_metrics_identity_spec,
};
use crate::quantity::{spec_parse_cpu, spec_parse_memory, parse_cpu, parse_memory, Quantity,
    QuantityParseError};

verus! {

/// A point in time: milliseconds since the Unix epoch.
#[derive(Clone, Copy, Debug, PartialEq, Eq, Structural)]
pub struct Time {
    pub epoch_millis: i64,
}

impl Time {
    pub fn from_epoch_millis(epoch_millis: i64) -> (t: Self)
        ensures
            t.epoch_millis == epoch_millis,
    {
        Time { epoch_millis }
    }
}

/// An object's metadata: its name and, for namespaced kinds, its namespace.
#[derive(Debug)]
pub struct ObjectMeta {
    pub name: Option<String>,
    pub namespace: Option<String>,
    pub creation_timestamp: Option<Time>,
    pub uid: Option<String>,
    pub resource_version: Option<String>,
}

pub ghost struct ObjectMetaModel {
    pub name: Option<Seq<char>>,
    pub namespace: Option<Seq<char>>,
    pub creation_timestamp: Option<Time>,
    pub uid: Option<Seq<char>>,
    pub resource_version: Option<Seq<char>>,
}

pub open spec fn opt_view(o: Option<String>) -> Option<Seq<char>> {
    match o {
        Some(s) => Some(s@),
        None => None,
    }
}

impl View for ObjectMeta {
    type V = ObjectMetaModel;

    open spec fn view(&self) -> ObjectMetaModel {
        ObjectMetaModel {
            name: opt_view(self.name),
            namespace: opt_view(self.namespace),
            creation_timestamp: self.creation_timestamp,
            uid: opt_view(self.uid),
            resource_version: opt_view(self.resource_version),
        }
    }
}

pub open spec fn named_meta(name: Seq<char>) -> ObjectMetaModel {
    ObjectMetaModel {
        name: Some(name),
        namespace: None,
        creation_timestamp: None,
        uid: None,
        resource_version: None,
    }
}

pub open spec fn namespaced_meta(name: Seq<char>, namespace: Seq<char>) -> ObjectMetaModel {
    ObjectMetaModel { namespace: Some(namespace), ..named_meta(name) }
}

impl ObjectMeta {
    /// Metadata holding `name` alone.
    pub fn new(name: &str) -> (m: Self)
        ensures
            m@ == named_meta(name@),
    {
        ObjectMeta {
            name: Some(String::from_str(name)),
            namespace: None,
            creation_timestamp: None,
            uid: None,
            resource_version: None,
        }
    }

    /// Metadata holding `name` and `namespace`.
    pub fn with_namespace(name: &str, namespace: &str) -> (m: Self)
        ensures
            m@ == namespaced_meta(name@, namespace@),
    {
        ObjectMeta { namespace: Some(String::from_str(namespace)), ..ObjectMeta::new(name) }
    }

    /// The same metadata with its creation timestamp set, or cleared.
    pub fn created(self, ts: Option<Time>) -> (m: Self)
        ensures
            m@ == (ObjectMetaModel { creation_timestamp: ts, ..self@ }),
    {
        ObjectMeta { creation_timestamp: ts, ..self }
    }
}

/// A resource-usage snapshot: a CPU quantity and a memory quantity.
#[derive(Debug)]
pub struct Usage {
    pub cpu: Quantity,
    pub memory: Quantity,
}

pub ghost struct UsageModel {
    pub cpu: Seq<char>,
    pub memory: Seq<char>,
}

impl View for Usage {
    type V = UsageModel;

    open spec fn view(&self) -> UsageModel {
        UsageModel { cpu: self.cpu@, memory: self.memory@ }
    }
}

impl Usage {
    /// The CPU quantity decoded to millicores.
    pub fn cpu(&self) -> (r: Result<i64, QuantityParseError>)
        ensures
            ({
                let sr = spec_parse_cpu(self@.cpu);
                match r {
                    Ok(v) => sr == Ok::<int, QuantityParseError>(v as int),
                    Err(e) => sr == Err::<int, QuantityParseError>(e),
                }
            }),
    {
        parse_cpu(&self.cpu)
    }

    /// The memory quantity decoded to bytes.
    pub fn memory(&self) -> (r: Result<i64, QuantityParseError>)
        ensures
            ({
                let sr = spec_parse_memory(self@.memory);
                match r {
                    Ok(v) => sr == Ok::<int, QuantityParseError>(v as int),
                    Err(e) => sr == Err::<int, QuantityParseError>(e),
                }
            }),
    {
        parse_memory(&self.memory)
    }
}

/// Usage attributed to one container of a pod.
#[derive(Debug)]
pub struct Container {
    pub name: String,
    pub usage: Usage,
}

pub ghost struct ContainerModel {
    pub name: Seq<char>,
    pub usage: UsageModel,
}

impl View for Container {
    type V = ContainerModel;

    open spec fn view(&self) -> ContainerModel {
        ContainerModel { name: self.name@, usage: self.usage@ }
    }
}

impl Container {
    /// The container's CPU quantity decoded to millicores.
    pub fn cpu(&self) -> (r: Result<i64, QuantityParseError>)
        ensures
            ({
                let sr = spec_parse_cpu(self@.usage.cpu);
                match r {
                    Ok(v) => sr == Ok::<int, QuantityParseError>(v as int),
                    Err(e) => sr == Err::<int, QuantityParseError>(e),
                }
            }),
    {
        self.usage.cpu()
    }

    /// The container's memory quantity decoded to bytes.
    pub fn memory(&self) -> (r: Result<i64, QuantityParseError>)
        ensures
            ({
                let sr = spec_parse_memory(self@.usage.memory);
                match r {
                    Ok(v) => sr == Ok::<int, QuantityParseError>(v as int),
                    Err(e) => sr == Err::<int, QuantityParseError>(e),
                }
            }),
    {
        self.usage.memory()
    }
}

/// One node's usage over the trailing window.
#[derive(Debug)]
pub struct NodeMetrics {
    pub metadata: ObjectMeta,
    pub timestamp: Time,
    pub window_seconds: u64,
    pub usage: Usage,
}

pub ghost struct NodeMetricsModel {
    pub metadata: ObjectMetaModel,
    pub timestamp: Time,
    pub window_seconds: u64,
    pub usage: UsageModel,
}

impl View for NodeMetrics {
    type V = NodeMetricsModel;

    open spec fn view(&self) -> NodeMetricsModel {
        NodeMetricsModel {
            metadata: self.metadata@,
            timestamp: self.timestamp,
            window_seconds: self.window_seconds,
            usage: self.usage@,
        }
    }
}

impl NodeMetrics {
    /// The discovery descriptor of the node metrics kind.
    pub fn api_resource() -> (r: ApiResource)
        ensures
            r@ == api_resource_spec(node_metrics_identity_spec()),
    {
        api_resource(&node_metrics_identity())
    }
}

/// One pod's per-container usage over the trailing window.
#[derive(Debug)]
pub struct PodMetrics {
    pub metadata: ObjectMeta,
    pub timestamp: Time,
    pub window_seconds: u64,
    pub containers: Vec<Container>,
}

pub ghost struct PodMetricsModel {
    pub metadata: ObjectMetaModel,
    pub timestamp: Time,
    pub window_seconds: u64,
    pub containers: Seq<ContainerModel>,
}

impl View for PodMetrics {
    type V = PodMetricsModel;

    open spec fn view(&self) -> PodMetricsModel {
        PodMetricsModel {
            metadata: self.metadata@,
            timestamp: self.timestamp,
            window_seconds: self.window_seconds,
            containers: self.containers@.map_values(|c: Container| c@),
        }
    }
}

impl PodMetrics {
    /// Pod metrics for `name` in `namespace`, empty of containers, at the
    /// epoch, with a zero window.
    pub fn new(name: &str, namespace: &str) -> (r: Self)
        ensures
            r@.metadata == namespaced_meta(name@, namespace@),
            r@.timestamp == (Time { epoch_millis: 0 }),
            r@.window_seconds == 0,
            r@.containers.len() == 0,
    {
        PodMetrics {
            metadata: ObjectMeta::with_namespace(name, namespace),
            timestamp: Time { epoch_millis: 0 },
            window_seconds: 0,
            containers: Vec::new(),
        }
    }

    /// The discovery descriptor of the pod metrics kind.
    pub fn api_resource() -> (r: ApiResource)
        ensures
            r@ == api_resource_spec(pod_metrics_identity_spec()),
    {
        api_resource(&pod_metrics_identity())
    }
}

} // verus!
