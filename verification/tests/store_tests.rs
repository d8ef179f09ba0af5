use envmesh::message::SyncMessage;
use envmesh::store::EnvStorage;

fn msg(key: &str, value: &str, timestamp: i64, machine_id: &str, deleted: bool) -> SyncMessage {
    SyncMessage {
        key: key.to_string(),
        value: value.to_string(),
        timestamp,
        machine_id: machine_id.to_string(),
        deleted,
    }
}

#[test]
fn set_then_get_returns_value() {
    let mut store = EnvStorage::new();
    store.set("PATH", "/usr/bin", "machine-a").unwrap();
    let (value, _ts, origin) = store.get("PATH").unwrap();
    assert_eq!(value, "/usr/bin");
    assert_eq!(origin, "machine-a");
}

#[test]
fn get_absent_key_is_none() {
    let store = EnvStorage::new();
    assert!(store.get("MISSING").is_none());
}

#[test]
fn writer_timestamps_strictly_increase() {
    // Both writes sample the same second: the second commit must
    // advance past the first.
    let mut store = EnvStorage::new();
    let first = store.set_with_time("K", "one", "w", 100).unwrap();
    let second = store.set_with_time("K", "two", "w", 100).unwrap();
    assert_eq!(first.timestamp, 100);
    assert_eq!(second.timestamp, 101);
    assert!(second.timestamp > first.timestamp);
    let third = store.set_with_time("K", "three", "w", 500).unwrap();
    assert_eq!(third.timestamp, 500);
}

#[test]
fn local_write_survives_earlier_remote() {
    let mut store = EnvStorage::new();
    store.set_with_time("K", "mine", "self", 50).unwrap();
    store.apply_remote(&msg("K", "stale", 10, "other", false));
    store.apply_remote(&msg("K", "older", 49, "zzz", false));
    let (value, ts, origin) = store.get("K").unwrap();
    assert_eq!(value, "mine");
    assert_eq!(ts, 50);
    assert_eq!(origin, "self");
}

#[test]
fn later_remote_replaces_local() {
    let mut store = EnvStorage::new();
    store.set_with_time("K", "mine", "self", 50).unwrap();
    store.apply_remote(&msg("K", "newer", 51, "other", false));
    let (value, _, origin) = store.get("K").unwrap();
    assert_eq!(value, "newer");
    assert_eq!(origin, "other");
}

#[test]
fn lww_conflict_converges_in_any_order() {
    // Two writers set the same key in the same second; the greater
    // origin wins on both peers, whatever the arrival order.
    let a = msg("K", "a", 10, "peer-a", false);
    let b = msg("K", "b", 10, "peer-b", false);

    let mut peer_one = EnvStorage::new();
    peer_one.apply_remote(&a);
    peer_one.apply_remote(&b);

    let mut peer_two = EnvStorage::new();
    peer_two.apply_remote(&b);
    peer_two.apply_remote(&a);

    let (v1, _, o1) = peer_one.get("K").unwrap();
    let (v2, _, o2) = peer_two.get("K").unwrap();
    assert_eq!(v1, "b");
    assert_eq!(v2, "b");
    assert_eq!(o1, "peer-b");
    assert_eq!(o2, "peer-b");
}

#[test]
fn equal_pair_is_not_replaced() {
    let mut store = EnvStorage::new();
    store.apply_remote(&msg("K", "first", 10, "same", false));
    store.apply_remote(&msg("K", "second", 10, "same", false));
    let (value, _, _) = store.get("K").unwrap();
    assert_eq!(value, "first");
}

#[test]
fn delete_hides_key_and_is_idempotent() {
    let mut store = EnvStorage::new();
    store.set_with_time("K", "v", "w", 10).unwrap();
    store.delete_with_time("K", "w", 20).unwrap();
    assert!(store.get("K").is_none());
    // deleting again is fine, and the key stays hidden
    store.delete_with_time("K", "w", 30).unwrap();
    assert!(store.get("K").is_none());
    // deleting a key that never existed also succeeds
    store.delete_with_time("NEVER", "w", 30).unwrap();
    assert!(store.get("NEVER").is_none());
}

#[test]
fn tombstone_propagates_via_changes() {
    let mut store = EnvStorage::new();
    store.set_with_time("K", "v", "w", 10).unwrap();
    store.delete_with_time("K", "w", 20).unwrap();
    let changes = store.get_changes_since(0);
    let tomb: Vec<_> = changes.iter().filter(|c| c.0 == "K" && c.4).collect();
    assert_eq!(tomb.len(), 1);
    assert_eq!(tomb[0].2, 20);
    // but the listing omits it
    assert!(store.list_all().iter().all(|e| e.0 != "K"));
}

#[test]
fn list_is_sorted_and_omits_tombstones() {
    let mut store = EnvStorage::new();
    store.set_with_time("B", "2", "w", 10).unwrap();
    store.set_with_time("A", "1", "w", 11).unwrap();
    store.set_with_time("C", "3", "w", 12).unwrap();
    store.delete_with_time("B", "w", 13).unwrap();
    let list = store.list_all();
    let keys: Vec<&str> = list.iter().map(|e| e.0.as_str()).collect();
    assert_eq!(keys, vec!["A", "C"]);
}

#[test]
fn list_matches_changes_since_zero() {
    let mut store = EnvStorage::new();
    store.set_with_time("A", "1", "w", 10).unwrap();
    store.set_with_time("B", "2", "w", 11).unwrap();
    store.delete_with_time("B", "w", 12).unwrap();
    store.set_with_time("C", "3", "w", 13).unwrap();

    let list = store.list_all();
    let from_changes: Vec<(String, String, i64, String)> = store
        .get_changes_since(0)
        .into_iter()
        .filter(|c| !c.4)
        .map(|c| (c.0, c.1, c.2, c.3))
        .collect();
    let mut sorted = from_changes.clone();
    sorted.sort();
    assert_eq!(list, sorted);
}

#[test]
fn changes_since_is_ordered_and_filtered() {
    let mut store = EnvStorage::new();
    store.set_with_time("A", "1", "w", 30).unwrap();
    store.set_with_time("B", "2", "w", 10).unwrap();
    store.set_with_time("C", "3", "w", 20).unwrap();
    let changes = store.get_changes_since(10);
    let stamps: Vec<i64> = changes.iter().map(|c| c.2).collect();
    assert_eq!(stamps, vec![20, 30]);
    let keys: Vec<&str> = changes.iter().map(|c| c.0.as_str()).collect();
    assert_eq!(keys, vec!["C", "A"]);
}

#[test]
fn set_fails_only_when_timestamp_cannot_advance() {
    let mut store = EnvStorage::new();
    store.apply_remote(&msg("K", "max", i64::MAX, "w", false));
    let err = store.set_with_time("K", "v", "w", 100).unwrap_err();
    assert!(matches!(err, envmesh::MeshError::StoreFailed(_)));
    // the store is unchanged
    let (value, ts, _) = store.get("K").unwrap();
    assert_eq!(value, "max");
    assert_eq!(ts, i64::MAX);
}

#[test]
fn clocked_mutations_fail_only_at_the_largest_timestamp() {
    let mut store = EnvStorage::new();
    store.apply_remote(&msg("K", "max", i64::MAX, "w", false));
    assert!(store.set("K", "v", "w").is_err());
    assert!(store.delete("K", "w").is_err());
    // any other key still commits
    assert!(store.set("OTHER", "v", "w").is_ok());
    assert!(store.delete("OTHER", "w").is_ok());
}

#[test]
fn set_samples_the_real_clock() {
    let mut store = EnvStorage::new();
    let committed = store.set("K", "v", "w").unwrap();
    // the wall clock is well past this by now
    assert!(committed.timestamp > 1_000_000_000);
}
