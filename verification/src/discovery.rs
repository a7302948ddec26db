//! Resource identities and the discovery documents built from them. Every
//! served resource kind is described by one plain-data identity; the
//! `APIResource` and `APIResourceList` documents, and the not-found status,
//! are functions of identities alone, so adding a served kind means adding
//! an identity, never another builder.

use vstd::prelude::*;

verus! {

/// The static identity of a served resource kind.
#[derive(Debug)]
pub struct ResourceIdentity {
    pub kind: String,
    pub group: String,
    pub version: String,
    pub url_path_segment: String,
    pub namespaced: bool,
}

/// The identity's fields as plain values.
pub ghost struct IdentityModel {
    pub kind: Seq<char>,
    pub group: Seq<char>,
    pub version: Seq<char>,
    pub url_path_segment: Seq<char>,
    pub namespaced: bool,
}

impl View for ResourceIdentity {
    type V = IdentityModel;

    open spec fn view(&self) -> IdentityModel {
        IdentityModel {
            kind: self.kind@,
            group: self.group@,
            version: self.version@,
            url_path_segment: self.url_path_segment@,
            namespaced: self.namespaced,
        }
    }
}

impl Clone for ResourceIdentity {
    fn clone(&self) -> (r: Self)
        ensures
            r@ == self@,
    {
        ResourceIdentity {
            kind: self.kind.clone(),
            group: self.group.clone(),
            version: self.version.clone(),
            url_path_segment: self.url_path_segment.clone(),
            namespaced: self.namespaced,
        }
    }
}

pub open spec fn node_metrics_identity_spec() -> IdentityModel {
    IdentityModel {
        kind: "NodeMetrics"@,
        group: "metrics.k8s.io"@,
        version: "v1beta1"@,
        url_path_segment: "nodes"@,
        namespaced: false,
    }
}

pub open spec fn pod_metrics_identity_spec() -> IdentityModel {
    IdentityModel {
        kind: "PodMetrics"@,
        group: "metrics.k8s.io"@,
        version: "v1beta1"@,
        url_path_segment: "pods"@,
        namespaced: true,
    }
}

pub open spec fn node_identity_spec() -> IdentityModel {
    IdentityModel {
        kind: "Node"@,
        group: ""@,
        version: "v1"@,
        url_path_segment: "nodes"@,
        namespaced: false,
    }
}

pub open spec fn pod_identity_spec() -> IdentityModel {
    IdentityModel {
        kind: "Pod"@,
        group: ""@,
        version: "v1"@,
        url_path_segment: "pods"@,
        namespaced: true,
    }
}

/// The identity of the served per-node metrics kind.
pub fn node_metrics_identity() -> (r: ResourceIdentity)
    ensures
        r@ == node_metrics_identity_spec(),
{
    ResourceIdentity {
        kind: String::from_str("NodeMetrics"),
        group: String::from_str("metrics.k8s.io"),
        version: String::from_str("v1beta1"),
        url_path_segment: String::from_str("nodes"),
        namespaced: false,
    }
}

/// The identity of the served per-pod metrics kind.
pub fn pod_metrics_identity() -> (r: ResourceIdentity)
    ensures
        r@ == pod_metrics_identity_spec(),
{
    ResourceIdentity {
        kind: String::from_str("PodMetrics"),
        group: String::from_str("metrics.k8s.io"),
        version: String::from_str("v1beta1"),
        url_path_segment: String::from_str("pods"),
        namespaced: true,
    }
}

/// The identity of the core node kind.
pub fn node_identity() -> (r: ResourceIdentity)
    ensures
        r@ == node_identity_spec(),
{
    proof {
        reveal_strlit("");
        assert(""@ =~= Seq::<char>::empty());
    }
    ResourceIdentity {
        kind: String::from_str("Node"),
        group: String::new(),
        version: String::from_str("v1"),
        url_path_segment: String::from_str("nodes"),
        namespaced: false,
    }
}

/// The identity of the core pod kind.
pub fn pod_identity() -> (r: ResourceIdentity)
    ensures
        r@ == pod_identity_spec(),
{
    proof {
        reveal_strlit("");
        assert(""@ =~= Seq::<char>::empty());
    }
    ResourceIdentity {
        kind: String::from_str("Pod"),
        group: String::new(),
        version: String::from_str("v1"),
        url_path_segment: String::from_str("pods"),
        namespaced: true,
    }
}

/// The `group/version` string of an identity; a group-less core kind writes
/// its version alone.
pub open spec fn api_version_spec(id: IdentityModel) -> Seq<char> {
    if id.group.len() == 0 {
        id.version
    } else {
        id.group + seq!['/'] + id.version
    }
}

/// Writes the identity's `group/version`.
pub fn api_version(id: &ResourceIdentity) -> (r: String)
    ensures
        r@ == api_version_spec(id@),
{
    if id.group.as_str().unicode_len() == 0 {
        proof {
            assert(id.group@.len() == 0);
        }
        id.version.clone()
    } else {
        let mut s = id.group.clone();
        s.append("/");
        s.append(id.version.as_str());
        proof {
            reveal_strlit("/");
            assert((id.group@ + "/"@) + id.version@ =~= api_version_spec(id@));
        }
        s
    }
}

/// One entry of the discovery document.
#[derive(Debug)]
pub struct ApiResource {
    pub name: String,
    pub namespaced: bool,
    pub kind: String,
    pub group: String,
    pub version: String,
    pub verbs: Vec<String>,
}

pub ghost struct ApiResourceModel {
    pub name: Seq<char>,
    pub namespaced: bool,
    pub kind: Seq<char>,
    pub group: Seq<char>,
    pub version: Seq<char>,
    pub verbs: Seq<Seq<char>>,
}

impl View for ApiResource {
    type V = ApiResourceModel;

    open spec fn view(&self) -> ApiResourceModel {
        ApiResourceModel {
            name: self.name@,
            namespaced: self.namespaced,
            kind: self.kind@,
            group: self.group@,
            version: self.version@,
            verbs: self.verbs@.map_values(|v: String| v@),
        }
    }
}

/// The `APIResource` a resource identity describes: named by its URL path
/// segment, scoped as the identity says, offering `get` and `list`.
pub open spec fn api_resource_spec(id: IdentityModel) -> ApiResourceModel {
    ApiResourceModel {
        name: id.url_path_segment,
        namespaced: id.namespaced,
        kind: id.kind,
        group: id.group,
        version: id.version,
        verbs: seq!["get"@, "list"@],
    }
}

/// Builds the `APIResource` descriptor of one identity.
pub fn api_resource(id: &ResourceIdentity) -> (r: ApiResource)
    ensures
        r@ == api_resource_spec(id@),
{
    let mut verbs: Vec<String> = Vec::new();
    verbs.push(String::from_str("get"));
    verbs.push(String::from_str("list"));
    let r = ApiResource {
        name: id.url_path_segment.clone(),
        namespaced: id.namespaced,
        kind: id.kind.clone(),
        group: id.group.clone(),
        version: id.version.clone(),
        verbs,
    };
    proof {
        assert(r@.verbs =~= seq!["get"@, "list"@]);
    }
    r
}

/// The discovery document.
#[derive(Debug)]
pub struct ApiResourceList {
    pub group_version: String,
    pub resources: Vec<ApiResource>,
}

pub ghost struct ApiResourceListModel {
    pub group_version: Seq<char>,
    pub resources: Seq<ApiResourceModel>,
}

impl View for ApiResourceList {
    type V = ApiResourceListModel;

    open spec fn view(&self) -> ApiResourceListModel {
        ApiResourceListModel {
            group_version: self.group_version@,
            resources: self.resources@.map_values(|r: ApiResource| r@),
        }
    }
}

/// The discovery document of a group version and an identity sequence:
/// one descriptor per identity, in the order the identities were given.
pub open spec fn api_resource_list_spec(
    group_version: Seq<char>,
    ids: Seq<IdentityModel>,
) -> ApiResourceListModel {
    ApiResourceListModel {
        group_version,
        resources: ids.map_values(|id: IdentityModel| api_resource_spec(id)),
    }
}

/// Builds the discovery document for the given identities, in their order.
pub fn api_resource_list(group_version: String, identities: &Vec<ResourceIdentity>) -> (r:
    ApiResourceList)
    ensures
        r@ == api_resource_list_spec(
            group_version@,
            identities@.map_values(|i: ResourceIdentity| i@),
        ),
{
    let ghost ids = identities@.map_values(|i: ResourceIdentity| i@);
    let n = identities.len();
    let mut resources: Vec<ApiResource> = Vec::new();
    while resources.len() < n
        invariant
            ids == identities@.map_values(|i: ResourceIdentity| i@),
            resources@.len() <= n == identities@.len(),
            forall|j: int|
                0 <= j < resources@.len() ==> (#[trigger] resources@[j])@ == api_resource_spec(
                    ids[j],
                ),
        decreases n - resources.len(),
    {
        let i = resources.len();
        let next = api_resource(&identities[i]);
        proof {
            assert(ids[i as int] == identities@[i as int]@);
        }
        resources.push(next);
    }
    let r = ApiResourceList { group_version, resources };
    proof {
        assert(r@.resources =~= ids.map_values(|id: IdentityModel| api_resource_spec(id)));
    }
    r
}

/// Discovery is stable: one group version and one identity sequence have
/// exactly one discovery document, so two builds from the same inputs are
/// identical.
pub proof fn lemma_discovery_stable(
    group_version: Seq<char>,
    ids: Seq<IdentityModel>,
    a: ApiResourceListModel,
    b: ApiResourceListModel,
)
    requires
        a == api_resource_list_spec(group_version, ids),
        b == api_resource_list_spec(group_version, ids),
    ensures
        a == b,
{
}

} // verus!
