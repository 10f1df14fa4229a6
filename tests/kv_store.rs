use rocks_raft_kv::kv_store::{watch_filter, EventType, KvStore, WatchEvent};

fn watched(key: &str, events: &[WatchEvent]) -> Vec<(String, String, EventType)> {
    let k = key.to_string();
    events
        .iter()
        .filter_map(|e| watch_filter(&k, e))
        .map(|e| (e.key, e.value, e.op))
        .collect()
}

#[test]
fn watch_sees_only_its_key() {
    let mut store = KvStore::new();
    let events = vec![
        store.put("a".to_string(), "1".to_string()),
        store.put("b".to_string(), "2".to_string()),
        store.delete("a"),
    ];
    assert_eq!(
        watched("a", &events),
        vec![
            ("a".to_string(), "1".to_string(), EventType::Put),
            ("a".to_string(), String::new(), EventType::Delete),
        ]
    );
}

#[test]
fn put_get_delete() {
    let mut store = KvStore::new();
    assert_eq!(store.get("x"), None);
    store.put("x".to_string(), "1".to_string());
    assert_eq!(store.get("x"), Some("1".to_string()));
    store.put("x".to_string(), "2".to_string());
    assert_eq!(store.get("x"), Some("2".to_string()));
    store.delete("x");
    assert_eq!(store.get("x"), None);
}

#[test]
fn prefix_scan_filters_and_orders() {
    let mut store = KvStore::new();
    for (k, v) in [("user:2", "b"), ("admin", "z"), ("user:1", "a"), ("user", "u"), ("use", "x")] {
        store.put(k.to_string(), v.to_string());
    }
    let keys: Vec<String> = store.prefix_scan("user").into_iter().map(|(k, _)| k).collect();
    assert_eq!(keys, vec!["user", "user:1", "user:2"]);
    let all: Vec<String> = store.prefix_scan("").into_iter().map(|(k, _)| k).collect();
    assert_eq!(all, vec!["admin", "use", "user", "user:1", "user:2"]);
    assert!(store.prefix_scan("zzz").is_empty());
}

#[test]
fn delete_all_reports_every_key() {
    let mut store = KvStore::new();
    store.put("b".to_string(), "2".to_string());
    store.put("a".to_string(), "1".to_string());
    let events = store.delete_all();
    let keys: Vec<String> = events.iter().map(|e| e.key.clone()).collect();
    assert_eq!(keys, vec!["a", "b"]);
    assert!(events.iter().all(|e| e.op == EventType::Delete && e.value.is_empty()));
    assert!(store.prefix_scan("").is_empty());
    assert!(store.delete_all().is_empty());
}
