use k8s_metrics::collector::metrics_api_resource_list;
use k8s_metrics::discovery::{
    api_resource, api_resource_list, api_version, node_identity, node_metrics_identity,
    pod_identity, pod_metrics_identity,
};
use k8s_metrics::status::{not_found, NotFound};

#[test]
fn node_metrics_descriptor() {
    let r = api_resource(&node_metrics_identity());
    assert_eq!(r.name, "nodes");
    assert!(!r.namespaced);
    assert_eq!(r.kind, "NodeMetrics");
    assert_eq!(r.group, "metrics.k8s.io");
    assert_eq!(r.version, "v1beta1");
    assert_eq!(r.verbs, vec!["get".to_string(), "list".to_string()]);
}

#[test]
fn pod_metrics_descriptor() {
    let r = api_resource(&pod_metrics_identity());
    assert_eq!(r.name, "pods");
    assert!(r.namespaced);
    assert_eq!(r.kind, "PodMetrics");
    assert_eq!(r.verbs, vec!["get".to_string(), "list".to_string()]);
}

#[test]
fn api_versions_follow_group_and_version() {
    assert_eq!(api_version(&node_metrics_identity()), "metrics.k8s.io/v1beta1");
    assert_eq!(api_version(&pod_identity()), "v1");
}

#[test]
fn discovery_document_lists_both_kinds_in_order() {
    let list = metrics_api_resource_list();
    assert_eq!(list.group_version, "metrics.k8s.io/v1beta1");
    assert_eq!(list.resources.len(), 2);
    assert_eq!(list.resources[0].kind, "NodeMetrics");
    assert_eq!(list.resources[1].kind, "PodMetrics");
}

#[test]
fn discovery_is_stable_across_calls() {
    let ids = || vec![node_metrics_identity(), pod_metrics_identity()];
    let once = api_resource_list("metrics.k8s.io/v1beta1".to_string(), &ids());
    let twice = api_resource_list("metrics.k8s.io/v1beta1".to_string(), &ids());
    assert_eq!(once.group_version, twice.group_version);
    assert_eq!(once.resources.len(), twice.resources.len());
    for (a, b) in once.resources.iter().zip(twice.resources.iter()) {
        assert_eq!(a.name, b.name);
        assert_eq!(a.namespaced, b.namespaced);
        assert_eq!(a.kind, b.kind);
        assert_eq!(a.group, b.group);
        assert_eq!(a.version, b.version);
        assert_eq!(a.verbs, b.verbs);
    }
}

#[test]
fn not_found_for_a_node() {
    let st = not_found(&node_metrics_identity(), "node-5");
    assert_eq!(st.code, Some(404));
    assert_eq!(st.status.as_deref(), Some("Failure"));
    assert_eq!(st.reason.as_deref(), Some("NotFound"));
    let message = st.message.unwrap();
    assert!(message.contains("node-5"));
    assert_eq!(message, "NodeMetrics.metrics.k8s.io \"node-5\" not found");
    let details = st.details.unwrap();
    assert_eq!(details.name.as_deref(), Some("node-5"));
    assert_eq!(details.kind.as_deref(), Some("NodeMetrics"));
}

#[test]
fn not_found_is_generic_over_the_kind() {
    // The same function answers for pods, given only the other identity.
    let st = not_found(&pod_metrics_identity(), "xyz");
    assert_eq!(st.code, Some(404));
    assert_eq!(st.reason.as_deref(), Some("NotFound"));
    assert!(st.message.unwrap().contains("xyz"));
    assert_eq!(st.details.unwrap().kind.as_deref(), Some("PodMetrics"));
}

#[test]
fn not_found_core_kind_message_has_no_group() {
    let st = not_found(&node_identity(), "n1");
    assert_eq!(st.message.as_deref(), Some("Node \"n1\" not found"));
}

#[test]
fn pending_not_found_renders_to_the_same_status() {
    let nf = NotFound::new(pod_metrics_identity(), "missing-pod".to_string());
    let st = nf.to_status();
    assert_eq!(st.code, Some(404));
    assert_eq!(st.details.unwrap().name.as_deref(), Some("missing-pod"));
    assert_eq!(
        st.message.as_deref(),
        Some("PodMetrics.metrics.k8s.io \"missing-pod\" not found")
    );
}
