use k8s_metrics::cycle::{
    aggregate_cycle, combine_fetches, combine_node_payloads, complete_cycle, FetchError,
};
use k8s_metrics::expo::parse_text;
use k8s_metrics::store::ScrapeStore;

#[test]
fn store_is_empty_until_the_first_commit() {
    let store = ScrapeStore::new();
    assert_eq!(store.latest(), None);
}

#[test]
fn store_visibility_follows_commits() {
    let mut store = ScrapeStore::new();
    store.commit("entry-a".to_string());
    assert_eq!(store.latest(), Some("entry-a".to_string()));
    assert_eq!(store.latest(), Some("entry-a".to_string()));
    store.commit("entry-b".to_string());
    assert_eq!(store.latest(), Some("entry-b".to_string()));
}

#[test]
fn reader_snapshot_outlives_the_next_commit() {
    let mut store = ScrapeStore::new();
    store.commit("old".to_string());
    let snapshot = store.latest().unwrap();
    store.commit("new".to_string());
    assert_eq!(snapshot, "old");
    assert_eq!(store.latest(), Some("new".to_string()));
}

#[test]
fn combines_cadvisor_before_resource_metrics() {
    let joined = combine_node_payloads("cadvisor_metric 1", "resource_metric 2");
    assert_eq!(joined, "cadvisor_metric 1\nresource_metric 2");
    let sc = parse_text(&joined).unwrap();
    assert_eq!(sc.samples.len(), 2);
    assert_eq!(sc.samples[0].metric, "cadvisor_metric");
    assert_eq!(sc.samples[1].metric, "resource_metric");
}

#[test]
fn a_failed_node_is_skipped_not_fatal() {
    let results = vec![
        Ok("node1_metric 1".to_string()),
        Err(FetchError::Cadvisor),
        Ok("node3_metric 3".to_string()),
    ];
    let buf = aggregate_cycle(&results);
    assert!(buf.contains("node1_metric 1"));
    assert!(buf.contains("node3_metric 3"));
    assert!(!buf.contains("node2"));
    assert_eq!(buf, "node1_metric 1\nnode3_metric 3\n");
}

#[test]
fn a_completed_cycle_commits_the_aggregate() {
    let mut store = ScrapeStore::new();
    let results = vec![
        Ok("a 1".to_string()),
        Err(FetchError::Resource),
        Ok("c 3".to_string()),
    ];
    complete_cycle(&mut store, &results);
    assert_eq!(store.latest(), Some("a 1\nc 3\n".to_string()));
    let sc = parse_text(&store.latest().unwrap()).unwrap();
    assert_eq!(sc.samples.len(), 2);
}

#[test]
fn an_all_failed_cycle_still_commits() {
    let mut store = ScrapeStore::new();
    store.commit("previous".to_string());
    complete_cycle(&mut store, &vec![Err(FetchError::Cadvisor), Err(FetchError::Resource)]);
    assert_eq!(store.latest(), Some(String::new()));
}

#[test]
fn a_node_is_never_half_fetched() {
    assert_eq!(
        combine_fetches(Some("c 1".to_string()), Some("r 2".to_string())),
        Ok("c 1\nr 2".to_string())
    );
    assert_eq!(
        combine_fetches(Some("c 1".to_string()), None),
        Err(FetchError::Resource)
    );
    assert_eq!(
        combine_fetches(None, Some("r 2".to_string())),
        Err(FetchError::Cadvisor)
    );
    assert_eq!(combine_fetches(None, None), Err(FetchError::Cadvisor));
}

#[test]
fn aggregation_keeps_node_list_order() {
    let results: Vec<Result<String, FetchError>> = vec![
        Ok("b 2".to_string()),
        Ok("a 1".to_string()),
    ];
    assert_eq!(aggregate_cycle(&results), "b 2\na 1\n");
}
