use chat_core::metrics::{MetricsAtomic, MetricsError, MetricsMutex, MetricsRwLock};
use chat_core::{foo, foo2};

fn snapshot_value(entries: &[(String, i32)], key: &str) -> Option<i32> {
    entries
        .iter()
        .find(|(name, _)| name.as_str() == key)
        .map(|(_, value)| *value)
}

#[test]
fn atomic_counters_bump_known_keys_only() {
    let mut m = MetricsAtomic::new(vec![String::from("requests"), String::from("errors")]);
    assert_eq!(m.inc("requests"), Ok(()));
    assert_eq!(m.inc("requests"), Ok(()));
    assert_eq!(m.inc("errors"), Ok(()));
    assert_eq!(m.inc("latency"), Err(MetricsError::KeyNotFound));
}

#[test]
fn atomic_counters_deduplicate_names() {
    let mut m = MetricsAtomic::new(vec![String::from("a"), String::from("a")]);
    assert_eq!(m.inc("a"), Ok(()));
    assert_eq!(m.inc("b"), Err(MetricsError::KeyNotFound));
}

#[test]
fn mutex_counters_create_on_first_use() {
    let mut m = MetricsMutex::new();
    m.inc(String::from("calls")).unwrap();
    m.inc(String::from("calls")).unwrap();
    m.inc(String::from("faults")).unwrap();
    let snap = m.snapshot().unwrap();
    assert_eq!(snap.len(), 2);
    assert_eq!(snapshot_value(&snap, "calls"), Some(2));
    assert_eq!(snapshot_value(&snap, "faults"), Some(1));
    assert_eq!(snapshot_value(&snap, "absent"), None);
}

#[test]
fn rwlock_counters_create_on_first_use() {
    let mut m = MetricsRwLock::new();
    m.inc(String::from("reads")).unwrap();
    m.inc(String::from("reads")).unwrap();
    m.inc(String::from("reads")).unwrap();
    let snap = m.snapshot().unwrap();
    assert_eq!(snap.len(), 1);
    assert_eq!(snapshot_value(&snap, "reads"), Some(3));
}

#[test]
fn empty_snapshot() {
    let m = MetricsMutex::new();
    assert_eq!(m.snapshot().unwrap().len(), 0);
}

#[test]
fn string_helpers() {
    assert_eq!(foo("hello"), "hello");
    assert_eq!(foo2(String::from("world")), "world");
    assert_eq!(foo(""), "");
}

#[test]
fn rwlock_counters_render() {
    let mut m = MetricsRwLock::new();
    m.inc(String::from("alpha")).unwrap();
    m.inc(String::from("alpha")).unwrap();
    m.inc(String::from("beta")).unwrap();
    assert_eq!(m.render(), "alpha: 2\nbeta: 1\n");
    let empty = MetricsRwLock::new();
    assert_eq!(empty.render(), "");
}
