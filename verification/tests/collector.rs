use k8s_metrics::collector::{
    node, node_memory_bytes, nodes, pod, pods, sample_integer_value,
};
use k8s_metrics::cycle::combine_node_payloads;
use k8s_metrics::expo::parse_text;
use k8s_metrics::meta::Time;
use k8s_metrics::quantity::{parse_cpu, parse_memory};

fn now() -> Time {
    Time::from_epoch_millis(1700000000000)
}

#[test]
fn demo_nodes_are_two_fixed_entries() {
    let ns = nodes(now());
    assert_eq!(ns.len(), 2);
    assert_eq!(ns[0].metadata.name.as_deref(), Some("demo-node-1"));
    assert_eq!(ns[1].metadata.name.as_deref(), Some("demo-node-2"));
    assert_eq!(ns[0].usage.cpu.0, "150m");
    assert_eq!(ns[0].usage.memory.0, "512Mi");
    assert_eq!(ns[1].usage.cpu.0, "200m");
    assert_eq!(ns[1].usage.memory.0, "1Gi");
    assert_eq!(ns[0].window_seconds, 30);
    assert_eq!(ns[0].timestamp, now());
    assert_eq!(ns[0].metadata.creation_timestamp, Some(now()));
}

#[test]
fn demo_node_usage_decodes() {
    let ns = nodes(now());
    assert_eq!(ns[0].usage.cpu(), Ok(150));
    assert_eq!(ns[0].usage.memory(), Ok(512 * 1024 * 1024));
    assert_eq!(ns[1].usage.memory(), Ok(1024 * 1024 * 1024));
}

#[test]
fn single_node_query_is_gated_on_the_absent_name() {
    let some_metrics = node("node-1", now());
    assert!(some_metrics.is_some());
    let m = some_metrics.unwrap();
    assert_eq!(m.metadata.name.as_deref(), Some("node-1"));
    assert_eq!(m.usage.cpu.0, "100m");
    assert_eq!(m.usage.memory.0, "200Mi");

    let no_metrics = node("node-5", now());
    assert!(no_metrics.is_none());
}

#[test]
fn demo_pods_default_namespace() {
    let ps = pods(None, now());
    assert_eq!(ps.len(), 2);
    assert!(ps
        .iter()
        .all(|p| p.metadata.namespace.as_deref() == Some("default")));
    assert_eq!(ps[0].metadata.name.as_deref(), Some("demo-pod-1"));
    assert_eq!(ps[0].containers.len(), 2);
    assert_eq!(ps[0].containers[0].name, "app-container");
    assert_eq!(ps[0].containers[0].usage.cpu.0, "25m");
    assert_eq!(ps[0].containers[0].usage.memory.0, "64Mi");
    assert_eq!(ps[0].containers[1].name, "sidecar-container");
    assert_eq!(ps[1].metadata.name.as_deref(), Some("demo-pod-2"));
    assert_eq!(ps[1].containers.len(), 1);
    assert_eq!(ps[1].containers[0].name, "web-server");
}

#[test]
fn demo_pods_named_namespace() {
    let ps = pods(Some("kube-system".to_string()), now());
    assert!(ps
        .iter()
        .all(|p| p.metadata.namespace.as_deref() == Some("kube-system")));
}

#[test]
fn single_pod_query_is_gated_on_the_absent_name() {
    let pm = pod("my-pod", "default", now()).unwrap();
    assert_eq!(pm.metadata.name.as_deref(), Some("my-pod"));
    assert_eq!(pm.metadata.namespace.as_deref(), Some("default"));
    assert_eq!(pm.containers.len(), 1);
    assert_eq!(pm.containers[0].name, "web-server");
    assert_eq!(pm.containers[0].usage.cpu.0, "75m");
    assert_eq!(pm.containers[0].usage.memory.0, "128Mi");

    assert!(pod("xyz", "default", now()).is_none());
}

#[test]
fn container_usage_decodes() {
    let pm = pod("my-pod", "default", now()).unwrap();
    assert_eq!(pm.containers[0].cpu(), Ok(75));
    assert_eq!(pm.containers[0].memory(), Ok(128 * 1024 * 1024));
}

#[test]
fn end_to_end_scrape_to_node_usage() {
    // One cycle's two payloads for node n1: the cAdvisor text, then the
    // resource-metrics text.
    let combined = combine_node_payloads(
        "node_cpu_usage_seconds_total{node=\"n1\"} 12.5\n",
        "node_memory_working_set_bytes{node=\"n1\"} 2048\n",
    );
    let scrape = parse_text(&combined).unwrap();
    assert_eq!(scrape.samples.len(), 2);
    assert_eq!(node_memory_bytes(&scrape, "n1"), Some(2048));
    assert_eq!(node_memory_bytes(&scrape, "n2"), None);
    assert_eq!(
        sample_integer_value(&scrape, "node_cpu_usage_seconds_total", "node", "n1"),
        None
    );
}

#[test]
fn scrape_derived_usage_survives_the_quantity_codec() {
    let scrape = parse_text("node_memory_working_set_bytes{node=\"n1\"} 2048\n").unwrap();
    let bytes = node_memory_bytes(&scrape, "n1").unwrap();
    let q = k8s_metrics::quantity::format_memory(
        bytes as u64,
        k8s_metrics::quantity::MemoryUnit::Bytes,
    );
    assert_eq!(parse_memory(&q), Ok(2048));
    assert_eq!(parse_cpu(&k8s_metrics::quantity::format_cpu_millicores(150)), Ok(150));
}

#[test]
fn default_returns_the_types_default() {
    let x: i32 = k8s_metrics::util::default::<i32>();
    assert_eq!(x, 0);
    let s: String = k8s_metrics::util::default();
    assert_eq!(s, "");
}
