use orlando_cluster::replication_consumer::{
    BatchOutcome, ReplicationEntry, ReplicationEntryType, BATCH_SIZE,
};
use orlando_cluster::time::Duration;
use orlando_cluster::{ClusterId, ReplicaStore, ReplicationConsumer};

fn make_entry(grain_key: &str, seq: u64, payload: &[u8]) -> ReplicationEntry {
    ReplicationEntry {
        grain_type: "TestGrain".to_string(),
        grain_key: grain_key.to_string(),
        sequence: seq,
        timestamp_millis: 1000 + seq as i64,
        source_cluster: ClusterId::new("us-east"),
        entry_type: ReplicationEntryType::FullState,
        payload: payload.to_vec(),
    }
}

fn consumer() -> ReplicationConsumer {
    ReplicationConsumer::new(
        "TestGrain".to_string(),
        "k1".to_string(),
        ClusterId::new("eu-west"),
        Duration::from_millis(100),
    )
}

/// ReplicaStore: update, get, freshness check.
#[test]
fn replica_store_basic_operations() {
    let mut store = ReplicaStore::new();

    // Initially empty
    assert!(store.get("TestGrain", "k1").is_none());
    assert!(!store.is_fresh("TestGrain", "k1", 5000));

    // Add a replica
    let now = std::time::SystemTime::now()
        .duration_since(std::time::UNIX_EPOCH)
        .unwrap()
        .as_millis() as i64;

    store.update("TestGrain", "k1", vec![42], 1, now);

    let entry = store.get("TestGrain", "k1").unwrap();
    assert_eq!(entry.payload, vec![42]);
    assert_eq!(entry.sequence, 1);

    // Should be fresh (within 5 seconds)
    assert!(store.is_fresh("TestGrain", "k1", 5000));

    // Update to newer state
    store.update("TestGrain", "k1", vec![99], 2, now);
    let entry = store.get("TestGrain", "k1").unwrap();
    assert_eq!(entry.payload, vec![99]);
    assert_eq!(entry.sequence, 2);
}

/// ReplicaStore: stale data detection.
#[test]
fn replica_store_staleness() {
    let mut store = ReplicaStore::new();

    // Add an entry with a very old timestamp
    store.update("TestGrain", "k1", vec![1], 1, 1000);

    // Should NOT be fresh (1000ms timestamp is way in the past)
    assert!(!store.is_fresh("TestGrain", "k1", 5000));
}

/// ReplicaStore: remove.
#[test]
fn replica_store_remove() {
    let mut store = ReplicaStore::new();
    let now = std::time::SystemTime::now()
        .duration_since(std::time::UNIX_EPOCH)
        .unwrap()
        .as_millis() as i64;

    store.update("TestGrain", "k1", vec![1], 1, now);
    assert!(store.get("TestGrain", "k1").is_some());

    store.remove("TestGrain", "k1");
    assert!(store.get("TestGrain", "k1").is_none());
}

/// ReplicaStore: different grains are independent.
#[test]
fn replica_store_independent_grains() {
    let mut store = ReplicaStore::new();
    let now = std::time::SystemTime::now()
        .duration_since(std::time::UNIX_EPOCH)
        .unwrap()
        .as_millis() as i64;

    store.update("TestGrain", "k1", vec![1], 1, now);
    store.update("TestGrain", "k2", vec![2], 1, now);
    store.update("OtherGrain", "k1", vec![3], 1, now);

    assert_eq!(store.get("TestGrain", "k1").unwrap().payload, vec![1]);
    assert_eq!(store.get("TestGrain", "k2").unwrap().payload, vec![2]);
    assert_eq!(store.get("OtherGrain", "k1").unwrap().payload, vec![3]);
}

#[test]
fn grains_with_slashes_keep_their_own_copies() {
    let mut store = ReplicaStore::new();
    store.update("a/b", "c", vec![1], 1, 1_000);
    assert!(store.get("a", "b/c").is_none());
    store.update("a", "b/c", vec![2], 2, 1_000);
    store.update("", "a/b/c", vec![3], 3, 1_000);
    assert_eq!(store.get("a/b", "c").unwrap().payload, vec![1]);
    assert_eq!(store.get("a", "b/c").unwrap().payload, vec![2]);
    store.remove("a/b", "c");
    assert!(store.get("a/b", "c").is_none());
    assert_eq!(store.get("a", "b/c").unwrap().payload, vec![2]);
    assert_eq!(store.get("", "a/b/c").unwrap().payload, vec![3]);
}

#[test]
fn freshness_has_an_exact_bound() {
    let mut store = ReplicaStore::new();
    store.update("G", "k", vec![], 1, 1_000);
    assert!(store.is_fresh_at("G", "k", 500, 1_500));
    assert!(!store.is_fresh_at("G", "k", 499, 1_500));
    assert!(store.is_fresh_at("G", "k", 0, 1_000));
    assert!(store.is_fresh_at("G", "k", 0, 900), "a copy from the future is fresh");
    assert!(!store.is_fresh_at("G", "other", 500, 1_000));
    store.update("G", "k", vec![], 2, i64::MIN);
    assert!(!store.is_fresh_at("G", "k", i64::MAX, i64::MAX));
}

#[test]
fn the_latest_full_state_is_kept() {
    let mut consumer = consumer();
    let mut store = ReplicaStore::new();
    let read = consumer.next_read();
    assert_eq!(read.grain_type, "TestGrain");
    assert_eq!(read.grain_key, "k1");
    assert_eq!(read.after, 0);
    assert_eq!(read.limit, BATCH_SIZE);
    assert_eq!(BATCH_SIZE, 100);
    assert_eq!(consumer.poll_interval(), Duration::from_millis(100));

    let batch = vec![
        make_entry("k1", 1, &[10]),
        make_entry("k1", 2, &[20]),
        make_entry("k1", 3, &[30]),
    ];
    assert_eq!(consumer.on_batch(Ok(batch), &mut store), BatchOutcome::Applied);
    let entry = store.get("TestGrain", "k1").unwrap();
    assert_eq!(entry.payload, vec![30]);
    assert_eq!(entry.sequence, 3);
    assert_eq!(entry.timestamp_millis, 1003);
    assert_eq!(consumer.next_read().after, 3);
}

#[test]
fn a_batch_with_a_delta_is_passed_over() {
    let mut consumer = consumer();
    let mut store = ReplicaStore::new();
    let mut delta = make_entry("k1", 2, &[2]);
    delta.entry_type = ReplicationEntryType::Delta;
    let batch = vec![make_entry("k1", 1, &[1]), delta, make_entry("k1", 3, &[3])];
    assert_eq!(consumer.on_batch(Ok(batch), &mut store), BatchOutcome::Skipped);
    assert!(store.get("TestGrain", "k1").is_none());
    assert_eq!(consumer.next_read().after, 3, "the batch is not read again");
}

#[test]
fn an_empty_or_failed_read_changes_nothing() {
    let mut consumer = consumer();
    let mut store = ReplicaStore::new();
    assert_eq!(consumer.on_batch(Ok(vec![]), &mut store), BatchOutcome::Nothing);
    assert_eq!(
        consumer.on_batch(Err("log down".to_string()), &mut store),
        BatchOutcome::Failed
    );
    assert_eq!(consumer.next_read().after, 0);
    assert!(store.get("TestGrain", "k1").is_none());
}
