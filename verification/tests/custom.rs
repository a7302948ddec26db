use k8s_metrics::custom::{object_ref, MetricIdentifier, MetricValue};
use k8s_metrics::discovery::{node_identity, pod_identity};
use k8s_metrics::meta::{ObjectMeta, Time};

#[test]
fn metric_identifier_new() {
    let metric = MetricIdentifier::new("cpu_usage");

    assert_eq!(metric.name, "cpu_usage");
    assert!(metric.selector.is_none());
}

#[test]
fn metric_identifier_new_with_string() {
    let metric = MetricIdentifier::new("memory_usage".to_string().as_str());

    assert_eq!(metric.name, "memory_usage");
    assert!(metric.selector.is_none());
}

#[test]
fn metric_identifier_new_empty_name() {
    let metric = MetricIdentifier::new("");

    assert_eq!(metric.name, "");
    assert!(metric.selector.is_none());
}

#[test]
fn metric_value_new() {
    let metric_value = MetricValue::new(&pod_identity(), "cpu_usage", "default", "test-pod");

    assert_eq!(metric_value.metadata.name.unwrap(), "cpu_usage");
    assert_eq!(metric_value.metadata.namespace.unwrap(), "default");

    assert_eq!(metric_value.described_object.name.unwrap(), "test-pod");
    assert_eq!(metric_value.described_object.namespace.unwrap(), "default");
    assert_eq!(metric_value.described_object.api_version.unwrap(), "v1");
    assert_eq!(metric_value.described_object.kind.unwrap(), "Pod");

    assert_eq!(metric_value.metric.name, "cpu_usage");
    assert!(metric_value.metric.selector.is_none());

    assert_eq!(metric_value.window_seconds, 0);
    assert_eq!(metric_value.value.0, "");
}

#[test]
fn metric_value_new_with_string_inputs() {
    let metric_value = MetricValue::new(
        &pod_identity(),
        "memory_usage".to_string().as_str(),
        "kube-system".to_string().as_str(),
        "nginx-pod".to_string().as_str(),
    );

    assert_eq!(metric_value.metadata.name.unwrap(), "memory_usage");
    assert_eq!(metric_value.metadata.namespace.unwrap(), "kube-system");

    assert_eq!(metric_value.described_object.name.unwrap(), "nginx-pod");
    assert_eq!(metric_value.described_object.namespace.unwrap(), "kube-system");
    assert_eq!(metric_value.described_object.api_version.unwrap(), "v1");
    assert_eq!(metric_value.described_object.kind.unwrap(), "Pod");

    assert_eq!(metric_value.metric.name, "memory_usage");
}

#[test]
fn metric_value_new_empty_inputs() {
    let metric_value = MetricValue::new(&pod_identity(), "", "", "");

    assert_eq!(metric_value.metadata.name.unwrap(), "");
    assert_eq!(metric_value.metadata.namespace.unwrap(), "");

    assert_eq!(metric_value.described_object.name.unwrap(), "");
    assert_eq!(metric_value.described_object.namespace.unwrap(), "");

    assert_eq!(metric_value.metric.name, "");
}

#[test]
fn metric_value_with_object_ref() {
    let meta = ObjectMeta {
        name: Some("test-pod".to_string()),
        namespace: Some("production".to_string()),
        uid: Some("12345-67890".to_string()),
        resource_version: Some("123".to_string()),
        creation_timestamp: None,
    };
    let object_ref = object_ref(&pod_identity(), &meta);

    let metric_value = MetricValue::with_object_ref("network_bytes", &object_ref);

    assert_eq!(metric_value.metadata.name.unwrap(), "network_bytes");
    assert_eq!(metric_value.metadata.namespace.unwrap(), "production");

    assert_eq!(metric_value.described_object.name.unwrap(), "test-pod");
    assert_eq!(metric_value.described_object.namespace.unwrap(), "production");
    assert_eq!(metric_value.described_object.api_version.unwrap(), "v1");
    assert_eq!(metric_value.described_object.kind.unwrap(), "Pod");
    assert_eq!(metric_value.described_object.uid.unwrap(), "12345-67890");
    assert_eq!(metric_value.described_object.resource_version.unwrap(), "123");

    assert_eq!(metric_value.metric.name, "network_bytes");
    assert!(metric_value.metric.selector.is_none());

    assert_eq!(metric_value.window_seconds, 0);
    assert_eq!(metric_value.value.0, "");
}

#[test]
fn metric_value_with_object_ref_no_namespace() {
    let meta = ObjectMeta {
        name: Some("cluster-resource".to_string()),
        namespace: None,
        uid: None,
        resource_version: None,
        creation_timestamp: None,
    };
    let object_ref = object_ref(&node_identity(), &meta);

    let metric_value = MetricValue::with_object_ref("disk_usage", &object_ref);

    assert_eq!(metric_value.metadata.name.unwrap(), "disk_usage");
    assert!(metric_value.metadata.namespace.is_none());

    assert_eq!(metric_value.described_object.name.unwrap(), "cluster-resource");
    assert!(metric_value.described_object.namespace.is_none());
    assert_eq!(metric_value.described_object.api_version.unwrap(), "v1");
    assert_eq!(metric_value.described_object.kind.unwrap(), "Node");

    assert_eq!(metric_value.metric.name, "disk_usage");
}

#[test]
fn metric_value_with_object_ref_with_string_name() {
    let meta = ObjectMeta {
        name: Some("example-pod".to_string()),
        namespace: Some("test".to_string()),
        uid: None,
        resource_version: None,
        creation_timestamp: None,
    };
    let object_ref = object_ref(&pod_identity(), &meta);

    let metric_value =
        MetricValue::with_object_ref("custom_metric".to_string().as_str(), &object_ref);

    assert_eq!(metric_value.metadata.name.unwrap(), "custom_metric");
    assert_eq!(metric_value.metric.name, "custom_metric");
}

#[test]
fn metric_value_with_object() {
    let meta = ObjectMeta {
        name: Some("test-pod".to_string()),
        namespace: Some("development".to_string()),
        uid: Some("abc123".to_string()),
        resource_version: Some("456".to_string()),
        creation_timestamp: None,
    };

    let metric_value = MetricValue::with_object(&pod_identity(), "pod_restarts", &meta);

    assert_eq!(metric_value.metadata.name.unwrap(), "pod_restarts");
    assert_eq!(metric_value.metadata.namespace.unwrap(), "development");

    assert_eq!(metric_value.described_object.name.unwrap(), "test-pod");
    assert_eq!(metric_value.described_object.namespace.unwrap(), "development");
    assert_eq!(metric_value.described_object.api_version.unwrap(), "v1");
    assert_eq!(metric_value.described_object.kind.unwrap(), "Pod");
    assert_eq!(metric_value.described_object.uid.unwrap(), "abc123");
    assert_eq!(metric_value.described_object.resource_version.unwrap(), "456");

    assert_eq!(metric_value.metric.name, "pod_restarts");
    assert!(metric_value.metric.selector.is_none());

    assert_eq!(metric_value.window_seconds, 0);
    assert_eq!(metric_value.value.0, "");
}

#[test]
fn metric_value_with_object_minimal_metadata() {
    let meta = ObjectMeta {
        name: Some("minimal-pod".to_string()),
        namespace: None,
        uid: None,
        resource_version: None,
        creation_timestamp: None,
    };

    let metric_value = MetricValue::with_object(&pod_identity(), "errors_per_second", &meta);

    assert_eq!(metric_value.metadata.name.unwrap(), "errors_per_second");
    assert!(metric_value.metadata.namespace.is_none());

    assert_eq!(metric_value.described_object.name.unwrap(), "minimal-pod");
    assert!(metric_value.described_object.namespace.is_none());

    assert_eq!(metric_value.metric.name, "errors_per_second");
}

#[test]
fn metric_value_timestamp() {
    let timestamp = Time::from_epoch_millis(1700000000000);
    let metric_value =
        MetricValue::new(&pod_identity(), "cpu_usage", "default", "test-pod").timestamp(timestamp);

    assert_eq!(metric_value.timestamp, timestamp);
}

#[test]
fn metric_value_chaining_constructors() {
    let meta = ObjectMeta {
        name: Some("test-pod".to_string()),
        namespace: Some("staging".to_string()),
        uid: None,
        resource_version: None,
        creation_timestamp: None,
    };
    let object_ref = object_ref(&pod_identity(), &meta);

    let timestamp = Time::from_epoch_millis(1700000000001);
    let metric_value =
        MetricValue::with_object_ref("requests_per_minute", &object_ref).timestamp(timestamp);

    assert_eq!(metric_value.metadata.name.unwrap(), "requests_per_minute");
    assert_eq!(metric_value.timestamp, timestamp);
}
