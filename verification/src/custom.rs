//! Custom-metric value objects: a metric named for some described object,
//! carried with the object's reference, a timestamp, a window and a
//! quantity. The described kind is a plain-data resource identity, so one
//! set of constructors serves every kind.

use vstd::prelude::*;

use crate::discovery::{api_version, api_version_spec, IdentityModel, ResourceIdentity};
use crate::meta::{namespaced_meta, ObjectMeta, ObjectMetaModel, opt_view, Time};
use crate::quantity::Quantity;

verus! {

/// One `key: value` requirement of a label selector.
#[derive(Debug)]
pub struct MatchLabel {
    pub key: String,
    pub value: String,
}

impl View for MatchLabel {
    type V = (Seq<char>, Seq<char>);

    open spec fn view(&self) -> (Seq<char>, Seq<char>) {
        (self.key@, self.value@)
    }
}

/// A label selector: the labels a match must carry.
#[derive(Debug)]
pub struct LabelSelector {
    pub match_labels: Vec<MatchLabel>,
}

impl View for LabelSelector {
    type V = Seq<(Seq<char>, Seq<char>)>;

    open spec fn view(&self) -> Seq<(Seq<char>, Seq<char>)> {
        self.match_labels@.map_values(|m: MatchLabel| m@)
    }
}

/// A metric named by its name and, optionally, a selector.
#[derive(Debug)]
pub struct MetricIdentifier {
    pub name: String,
    pub selector: Option<LabelSelector>,
}

impl MetricIdentifier {
    /// A metric identified by `name` alone, with no selector.
    pub fn new(name: &str) -> (r: Self)
        ensures
            r.name@ == name@,
            r.selector is None,
    {
        MetricIdentifier { name: String::from_str(name), selector: None }
    }
}

/// A reference to the object a metric value describes.
#[derive(Debug)]
pub struct ObjectReference {
    pub name: Option<String>,
    pub namespace: Option<String>,
    pub api_version: Option<String>,
    pub kind: Option<String>,
    pub uid: Option<String>,
    pub resource_version: Option<String>,
}

pub ghost struct ObjectReferenceModel {
    pub name: Option<Seq<char>>,
    pub namespace: Option<Seq<char>>,
    pub api_version: Option<Seq<char>>,
    pub kind: Option<Seq<char>>,
    pub uid: Option<Seq<char>>,
    pub resource_version: Option<Seq<char>>,
}

impl View for ObjectReference {
    type V = ObjectReferenceModel;

    open spec fn view(&self) -> ObjectReferenceModel {
        ObjectReferenceModel {
            name: opt_view(self.name),
            namespace: opt_view(self.namespace),
            api_version: opt_view(self.api_version),
            kind: opt_view(self.kind),
            uid: opt_view(self.uid),
            resource_version: opt_view(self.resource_version),
        }
    }
}

/// The reference an object's metadata and kind identity give: its name,
/// namespace, uid and resource version as the metadata holds them, with the
/// identity's kind and api version.
pub open spec fn object_ref_spec(id: IdentityModel, meta: ObjectMetaModel) -> ObjectReferenceModel {
    ObjectReferenceModel {
        name: meta.name,
        namespace: meta.namespace,
        api_version: Some(api_version_spec(id)),
        kind: Some(id.kind),
        uid: meta.uid,
        resource_version: meta.resource_version,
    }
}

fn clone_opt(o: &Option<String>) -> (r: Option<String>)
    ensures
        opt_view(r) == opt_view(*o),
{
    match o {
        Some(s) => Some(s.clone()),
        None => None,
    }
}

/// Builds the reference to an object of the identified kind from its
/// metadata.
pub fn object_ref(identity: &ResourceIdentity, meta: &ObjectMeta) -> (r: ObjectReference)
    ensures
        r@ == object_ref_spec(identity@, meta@),
{
    ObjectReference {
        name: clone_opt(&meta.name),
        namespace: clone_opt(&meta.namespace),
        api_version: Some(api_version(identity)),
        kind: Some(identity.kind.clone()),
        uid: clone_opt(&meta.uid),
        resource_version: clone_opt(&meta.resource_version),
    }
}

/// The metric value for some object.
#[derive(Debug)]
pub struct MetricValue {
    pub metadata: ObjectMeta,
    pub described_object: ObjectReference,
    pub metric: MetricIdentifier,
    pub timestamp: Time,
    pub window_seconds: i64,
    pub value: Quantity,
}

impl MetricValue {
    /// A reference to the value's metadata.
    pub fn metadata(&self) -> (r: &ObjectMeta)
        ensures
            r@ == self.metadata@,
    {
        &self.metadata
    }

    /// A mutable reference to the value's metadata.
    pub fn metadata_mut(&mut self) -> (r: &mut ObjectMeta)
        ensures
            final(self).metadata@ == final(r)@,
            final(self).described_object@ == old(self).described_object@,
            final(self).metric.name@ == old(self).metric.name@,
            final(self).timestamp == old(self).timestamp,
            final(self).window_seconds == old(self).window_seconds,
            final(self).value@ == old(self).value@,
    {
        &mut self.metadata
    }

    /// A zero metric value named `name`, describing `object` of the
    /// identified kind in `namespace`.
    pub fn new(identity: &ResourceIdentity, name: &str, namespace: &str, object: &str) -> (r:
        Self)
        ensures
            r.metadata@ == namespaced_meta(name@, namespace@),
            r.described_object@ == (ObjectReferenceModel {
                name: Some(object@),
                namespace: Some(namespace@),
                api_version: Some(api_version_spec(identity@)),
                kind: Some(identity@.kind),
                uid: None,
                resource_version: None,
            }),
            r.metric.name@ == name@,
            r.metric.selector is None,
            r.timestamp == (Time { epoch_millis: 0 }),
            r.window_seconds == 0,
            r.value@.len() == 0,
    {
        let metadata = ObjectMeta::with_namespace(name, namespace);
        let described_object = ObjectReference {
            name: Some(String::from_str(object)),
            namespace: Some(String::from_str(namespace)),
            api_version: Some(api_version(identity)),
            kind: Some(identity.kind.clone()),
            uid: None,
            resource_version: None,
        };
        let metric = MetricIdentifier::new(name);
        MetricValue {
            metadata,
            described_object,
            metric,
            timestamp: Time { epoch_millis: 0 },
            window_seconds: 0,
            value: Quantity(String::new()),
        }
    }

    /// A zero metric value named `name`, describing the object the given
    /// reference points at; the value lives in the reference's namespace.
    pub fn with_object_ref(name: &str, object_ref: &ObjectReference) -> (r: Self)
        ensures
            r.metadata@ == (ObjectMetaModel {
                name: Some(name@),
                namespace: object_ref@.namespace,
                creation_timestamp: None,
                uid: None,
                resource_version: None,
            }),
            r.described_object@ == object_ref@,
            r.metric.name@ == name@,
            r.metric.selector is None,
            r.timestamp == (Time { epoch_millis: 0 }),
            r.window_seconds == 0,
            r.value@.len() == 0,
    {
        let metadata = ObjectMeta {
            name: Some(String::from_str(name)),
            namespace: clone_opt(&object_ref.namespace),
            creation_timestamp: None,
            uid: None,
            resource_version: None,
        };
        let described_object = ObjectReference {
            name: clone_opt(&object_ref.name),
            namespace: clone_opt(&object_ref.namespace),
            api_version: clone_opt(&object_ref.api_version),
            kind: clone_opt(&object_ref.kind),
            uid: clone_opt(&object_ref.uid),
            resource_version: clone_opt(&object_ref.resource_version),
        };
        let metric = MetricIdentifier::new(name);
        MetricValue {
            metadata,
            described_object,
            metric,
            timestamp: Time { epoch_millis: 0 },
            window_seconds: 0,
            value: Quantity(String::new()),
        }
    }

    /// A zero metric value named `name`, describing the object whose
    /// metadata and kind identity are given.
    pub fn with_object(identity: &ResourceIdentity, name: &str, meta: &ObjectMeta) -> (r: Self)
        ensures
            r.metadata@ == (ObjectMetaModel {
                name: Some(name@),
                namespace: meta@.namespace,
                creation_timestamp: None,
                uid: None,
                resource_version: None,
            }),
            r.described_object@ == object_ref_spec(identity@, meta@),
            r.metric.name@ == name@,
            r.metric.selector is None,
            r.timestamp == (Time { epoch_millis: 0 }),
            r.window_seconds == 0,
            r.value@.len() == 0,
    {
        let obj_ref = object_ref(identity, meta);
        MetricValue::with_object_ref(name, &obj_ref)
    }

    /// The same value stamped with `timestamp`.
    pub fn timestamp(self, timestamp: Time) -> (r: Self)
        ensures
            r.timestamp == timestamp,
            r.metadata@ == self.metadata@,
            r.described_object@ == self.described_object@,
            r.metric.name@ == self.metric.name@,
            r.window_seconds == self.window_seconds,
            r.value@ == self.value@,
    {
        MetricValue { timestamp, ..self }
    }
}

} // verus!
