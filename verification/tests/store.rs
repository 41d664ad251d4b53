use crdt_core::merge::resolve;
use crdt_core::{CrdtStore, LwwRecord, UpdateMessage};
use serde_json::Value;

fn record(value: Value, timestamp: u64, node_id: &str) -> LwwRecord {
    LwwRecord { value, timestamp, node_id: node_id.to_string() }
}

fn update(key: &str, value: Value, timestamp: u64, node_id: &str) -> UpdateMessage {
    UpdateMessage { key: key.to_string(), record: record(value, timestamp, node_id) }
}

fn held(store: &CrdtStore, key: &str) -> Option<(Value, u64, String)> {
    store
        .get_state()
        .into_iter()
        .find(|u| u.key == key)
        .map(|u| (u.record.value, u.record.timestamp, u.record.node_id))
}

#[test]
fn get_on_unwritten_key_is_absent() {
    let store = CrdtStore::new("A".to_string());
    assert_eq!(store.get("x"), None);
    assert!(store.get_state().is_empty());
}

#[test]
fn get_on_other_key_is_absent() {
    let mut store = CrdtStore::new("A".to_string());
    store.set("x".to_string(), Value::from(1), 100);
    assert_eq!(store.get("y"), None);
    assert_eq!(store.get(""), None);
}

#[test]
fn set_stamps_the_record_and_returns_the_update() {
    let mut store = CrdtStore::new("replica-1".to_string());
    let u = store.set("x".to_string(), Value::from("hello"), 1234);
    assert_eq!(u.key, "x");
    assert_eq!(u.record.value, Value::from("hello"));
    assert_eq!(u.record.timestamp, 1234);
    assert_eq!(u.record.node_id, "replica-1");
    assert_eq!(store.get("x"), Some(&Value::from("hello")));
    assert_eq!(held(&store, "x"), Some((Value::from("hello"), 1234, "replica-1".to_string())));
}

#[test]
fn local_write_replaces_even_a_later_record() {
    let mut store = CrdtStore::new("A".to_string());
    assert!(store.merge(update("x", Value::from(9), 500, "Z")));
    let u = store.set("x".to_string(), Value::from(1), 100);
    assert_eq!(u.record.timestamp, 100);
    assert_eq!(store.get("x"), Some(&Value::from(1)));
    assert_eq!(held(&store, "x"), Some((Value::from(1), 100, "A".to_string())));
}

#[test]
fn delete_stores_a_null_record() {
    let mut store = CrdtStore::new("A".to_string());
    store.set("x".to_string(), Value::from(1), 100);
    let u = store.delete("x".to_string(), 150);
    assert_eq!(u.key, "x");
    assert_eq!(u.record.value, Value::Null);
    assert_eq!(u.record.timestamp, 150);
    assert_eq!(u.record.node_id, "A");
    assert!(u.record.is_tombstone());
    assert_eq!(store.get("x"), Some(&Value::Null));
    assert_eq!(store.get_state().len(), 1);
}

#[test]
fn delete_of_unwritten_key_leaves_a_tombstone() {
    let mut store = CrdtStore::new("A".to_string());
    store.delete("gone".to_string(), 7);
    assert_eq!(store.get("gone"), Some(&Value::Null));
}

#[test]
fn set_to_null_is_a_tombstone_too() {
    let mut store = CrdtStore::new("A".to_string());
    let u = store.set("x".to_string(), Value::Null, 1);
    assert!(u.record.is_tombstone());
    assert!(!record(Value::from(false), 1, "A").is_tombstone());
    assert!(!record(Value::from(0), 1, "A").is_tombstone());
}

#[test]
fn tie_break_converges_to_greater_author() {
    let mut a = CrdtStore::new("A".to_string());
    let mut b = CrdtStore::new("B".to_string());
    let ua = a.set("x".to_string(), Value::from(1), 100);
    let ub = b.set("x".to_string(), Value::from(2), 100);
    assert!(a.merge(ub));
    assert!(!b.merge(ua));
    assert_eq!(a.get("x"), Some(&Value::from(2)));
    assert_eq!(b.get("x"), Some(&Value::from(2)));
    assert_eq!(held(&a, "x"), held(&b, "x"));
}

#[test]
fn later_timestamp_wins_whatever_the_author() {
    let mut a = CrdtStore::new("A".to_string());
    let mut b = CrdtStore::new("B".to_string());
    let ua = a.set("x".to_string(), Value::from(1), 100);
    let ub = b.set("x".to_string(), Value::from(2), 200);
    assert!(a.merge(ub));
    assert!(!b.merge(ua));
    assert_eq!(a.get("x"), Some(&Value::from(2)));
    assert_eq!(b.get("x"), Some(&Value::from(2)));

    let mut y = CrdtStore::new("Y".to_string());
    let mut z = CrdtStore::new("Z".to_string());
    let uy = y.set("x".to_string(), Value::from(2), 200);
    let uz = z.set("x".to_string(), Value::from(1), 100);
    assert!(!y.merge(uz));
    assert!(z.merge(uy));
    assert_eq!(y.get("x"), Some(&Value::from(2)));
    assert_eq!(z.get("x"), Some(&Value::from(2)));
}

#[test]
fn stale_delete_after_set_changes_nothing() {
    let mut a = CrdtStore::new("A".to_string());
    let tombstone = a.delete("x".to_string(), 100);
    assert_eq!(tombstone.record.value, Value::Null);
    let set = a.set("x".to_string(), Value::from(5), 200);

    let mut b = CrdtStore::new("B".to_string());
    assert!(b.merge(set));
    assert!(!b.merge(tombstone));
    assert_eq!(b.get("x"), Some(&Value::from(5)));
    assert_eq!(held(&b, "x"), Some((Value::from(5), 200, "A".to_string())));
}

#[test]
fn merging_twice_changes_nothing_the_second_time() {
    let mut store = CrdtStore::new("A".to_string());
    let u = update("x", Value::from(3), 10, "B");
    assert!(store.merge(u.clone()));
    let before = held(&store, "x");
    assert!(!store.merge(u));
    assert_eq!(held(&store, "x"), before);
    assert_eq!(store.get_state().len(), 1);
}

#[test]
fn merge_of_equal_stamp_is_discarded() {
    let mut store = CrdtStore::new("A".to_string());
    assert!(store.merge(update("x", Value::from(1), 10, "B")));
    assert!(!store.merge(update("x", Value::from(2), 10, "B")));
    assert_eq!(store.get("x"), Some(&Value::from(1)));
}

#[test]
fn two_updates_commute() {
    let a = update("x", Value::from("a"), 100, "A");
    let b = update("x", Value::from("b"), 100, "B");
    let mut ab = CrdtStore::new("R".to_string());
    ab.merge(a.clone());
    ab.merge(b.clone());
    let mut ba = CrdtStore::new("R".to_string());
    ba.merge(b);
    ba.merge(a);
    assert_eq!(held(&ab, "x"), held(&ba, "x"));
    assert_eq!(held(&ab, "x"), Some((Value::from("b"), 100, "B".to_string())));
}

#[test]
fn every_order_of_arrival_gives_the_latest_record() {
    let us = [
        update("k", Value::from(1), 100, "B"),
        update("k", Value::from(2), 300, "A"),
        update("k", Value::from(3), 300, "C"),
        update("k", Value::Null, 200, "Z"),
    ];
    let orders: [[usize; 4]; 6] =
        [[0, 1, 2, 3], [3, 2, 1, 0], [2, 0, 3, 1], [1, 3, 0, 2], [2, 1, 0, 3], [0, 3, 1, 2]];
    for order in orders {
        let mut store = CrdtStore::new("R".to_string());
        let log: Vec<UpdateMessage> = order.iter().map(|&i| us[i].clone()).collect();
        store.load_bulk(log);
        assert_eq!(held(&store, "k"), Some((Value::from(3), 300, "C".to_string())));
    }
}

#[test]
fn load_bulk_merges_each_update() {
    let mut store = CrdtStore::new("R".to_string());
    store.set("a".to_string(), Value::from(0), 50);
    store.load_bulk(vec![
        update("a", Value::from(1), 40, "Z"),
        update("b", Value::from(2), 10, "A"),
        update("b", Value::from(3), 10, "B"),
        update("c", Value::Null, 5, "A"),
        update("a", Value::from(4), 50, "S"),
    ]);
    assert_eq!(held(&store, "a"), Some((Value::from(4), 50, "S".to_string())));
    assert_eq!(held(&store, "b"), Some((Value::from(3), 10, "B".to_string())));
    assert_eq!(held(&store, "c"), Some((Value::Null, 5, "A".to_string())));
    assert_eq!(store.get_state().len(), 3);
    store.load_bulk(Vec::new());
    assert_eq!(store.get_state().len(), 3);
}

#[test]
fn get_state_lists_each_key_once() {
    let mut store = CrdtStore::new("A".to_string());
    store.set("x".to_string(), Value::from(1), 1);
    store.set("y".to_string(), Value::from(2), 2);
    store.set("x".to_string(), Value::from(3), 3);
    store.delete("y".to_string(), 4);
    let state = store.get_state();
    assert_eq!(state.len(), 2);
    let mut keys: Vec<String> = state.iter().map(|u| u.key.clone()).collect();
    keys.sort();
    assert_eq!(keys, vec!["x".to_string(), "y".to_string()]);
    assert_eq!(held(&store, "x"), Some((Value::from(3), 3, "A".to_string())));
    assert_eq!(held(&store, "y"), Some((Value::Null, 4, "A".to_string())));
}

#[test]
fn loading_the_own_snapshot_changes_nothing() {
    let mut store = CrdtStore::new("A".to_string());
    store.set("x".to_string(), Value::from(1), 100);
    store.delete("y".to_string(), 200);
    store.merge(update("z", Value::from("v"), 300, "B"));
    let snapshot = store.get_state();
    store.load_state(snapshot);
    assert_eq!(store.get_state().len(), 3);
    assert_eq!(held(&store, "x"), Some((Value::from(1), 100, "A".to_string())));
    assert_eq!(held(&store, "y"), Some((Value::Null, 200, "A".to_string())));
    assert_eq!(held(&store, "z"), Some((Value::from("v"), 300, "B".to_string())));
}

#[test]
fn snapshot_bootstraps_a_fresh_replica() {
    let mut a = CrdtStore::new("A".to_string());
    a.set("x".to_string(), Value::from(1), 100);
    a.delete("y".to_string(), 200);
    let mut b = CrdtStore::new("B".to_string());
    b.load_state(a.get_state());
    assert_eq!(held(&b, "x"), held(&a, "x"));
    assert_eq!(held(&b, "y"), held(&a, "y"));
    assert_eq!(b.get_state().len(), 2);
}

#[test]
fn snapshot_does_not_resurrect_a_deleted_key() {
    let mut store = CrdtStore::new("A".to_string());
    store.delete("x".to_string(), 200);
    store.load_state(vec![update("x", Value::from(1), 100, "B")]);
    assert_eq!(store.get("x"), Some(&Value::Null));
    store.load_state(vec![update("x", Value::from(2), 201, "B")]);
    assert_eq!(store.get("x"), Some(&Value::from(2)));
}

#[test]
fn supersedes_compares_timestamp_then_author() {
    let v = Value::Null;
    assert!(record(v.clone(), 2, "A").supersedes(&record(v.clone(), 1, "Z")));
    assert!(!record(v.clone(), 1, "Z").supersedes(&record(v.clone(), 2, "A")));
    assert!(record(v.clone(), 1, "B").supersedes(&record(v.clone(), 1, "A")));
    assert!(!record(v.clone(), 1, "A").supersedes(&record(v.clone(), 1, "B")));
    assert!(!record(v.clone(), 1, "A").supersedes(&record(v.clone(), 1, "A")));
    assert!(record(v.clone(), u64::MAX, "").supersedes(&record(v.clone(), u64::MAX - 1, "Z")));
}

#[test]
fn authors_are_ordered_lexicographically_by_code_point() {
    let v = Value::Null;
    let later = |a: &str, b: &str| record(v.clone(), 1, a).supersedes(&record(v.clone(), 1, b));
    assert!(later("AA", "A"));
    assert!(!later("A", "AA"));
    assert!(later("a", "B"));
    assert!(later("B", "AZZZ"));
    assert!(later("10", "1"));
    assert!(later("2", "10"));
    assert!(later("A", ""));
    assert!(!later("", "A"));
    assert!(!later("", ""));
    assert!(later("\u{e9}", "z"));
    assert!(later("\u{10000}", "\u{ffff}"));
}

#[test]
fn resolve_adopts_where_nothing_is_held() {
    let r = record(Value::from(1), 0, "");
    assert!(resolve(None, &r));
    assert!(!resolve(Some(&r), &r));
    assert!(resolve(Some(&r), &record(Value::from(1), 1, "")));
    assert!(!resolve(Some(&record(Value::from(1), 1, "")), &r));
}

#[test]
fn merge_record_reports_the_change() {
    let mut store = CrdtStore::new("A".to_string());
    assert!(store.merge_record("x", &record(Value::from(1), 10, "B")));
    assert!(!store.merge_record("x", &record(Value::from(2), 9, "C")));
    assert!(store.merge_record("x", &record(Value::from(3), 10, "C")));
    assert!(store.merge_record("y", &record(Value::from(4), 1, "A")));
    assert_eq!(store.get("x"), Some(&Value::from(3)));
    assert_eq!(store.get("y"), Some(&Value::from(4)));
}

#[test]
fn structured_values_are_kept_as_given() {
    let mut store = CrdtStore::new("A".to_string());
    let mut object = serde_json::Map::new();
    object.insert("n".to_string(), Value::from(1.5));
    object.insert("list".to_string(), Value::from(vec![Value::from(true), Value::Null]));
    let value = Value::Object(object);
    let u = store.set("doc".to_string(), value.clone(), 1);
    assert_eq!(u.record.value, value);
    assert_eq!(store.get("doc"), Some(&value));
    let copy = u.clone();
    assert_eq!(copy.record.value, value);
    assert_eq!(copy.key, "doc");
}

#[test]
fn replaying_a_log_twice_changes_nothing() {
    let log = vec![
        update("a", Value::from(1), 10, "A"),
        update("b", Value::from(2), 20, "B"),
        update("a", Value::from(3), 10, "C"),
        update("b", Value::Null, 15, "Z"),
    ];
    let mut once = CrdtStore::new("R".to_string());
    once.load_bulk(log.clone());
    let mut twice = CrdtStore::new("R".to_string());
    twice.load_bulk(log.clone());
    twice.load_bulk(log);
    for key in ["a", "b"] {
        assert_eq!(held(&once, key), held(&twice, key));
    }
    assert_eq!(held(&once, "a"), Some((Value::from(3), 10, "C".to_string())));
    assert_eq!(held(&once, "b"), Some((Value::from(2), 20, "B".to_string())));
    assert_eq!(twice.get_state().len(), 2);
}

#[test]
fn updates_of_several_keys_converge_in_any_order() {
    let log = vec![
        update("a", Value::from(1), 10, "A"),
        update("b", Value::from(2), 20, "B"),
        update("a", Value::from(3), 11, "A"),
        update("b", Value::from(4), 20, "A"),
        update("c", Value::from(5), 1, "C"),
    ];
    let mut forward = CrdtStore::new("R".to_string());
    forward.load_bulk(log.clone());
    let mut backward = CrdtStore::new("S".to_string());
    let mut reversed = log;
    reversed.reverse();
    backward.load_bulk(reversed);
    for key in ["a", "b", "c"] {
        assert_eq!(held(&forward, key), held(&backward, key));
    }
    assert_eq!(held(&forward, "a"), Some((Value::from(3), 11, "A".to_string())));
    assert_eq!(held(&forward, "b"), Some((Value::from(2), 20, "B".to_string())));
    assert_eq!(held(&forward, "c"), Some((Value::from(5), 1, "C".to_string())));
}
