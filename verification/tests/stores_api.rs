use seekr::api::{
    ApiError, create_cluster, create_subscription, delete_cluster, list_subscriptions,
    read_cluster_metadata, read_subscription,
};
use seekr::cluster::{Cluster, Kind};
use seekr::id::Generator;
use seekr::manager::{CachedMetadataEntry, MetadataManager, RegisterOutcome};
use seekr::store::{MemoryClusterStore, MemorySubscriptionStore};
use seekr::subscription::Subscription;

fn config(interval_ms: &str) -> Vec<(String, String)> {
    vec![
        ("bootstrap.servers".to_string(), "h1:9092".to_string()),
        ("metadata.poll.interval.ms".to_string(), interval_ms.to_string()),
    ]
}

#[test]
fn cluster_insert_get_round_trip() {
    let mut store = MemoryClusterStore::new(Generator::new(0, 0));
    let record = Cluster::new(None, Kind::Kafka, "alpha".to_string(), config("50"));
    let created_at = record.created_at;
    let id = store.insert(record).expect("the id space is fresh");
    assert!(id > 0);

    let read = store.get(id).expect("the record was just persisted");
    assert_eq!(read.id, id);
    assert_eq!(read.kind, Kind::Kafka);
    assert_eq!(read.name, "alpha");
    assert_eq!(read.config, config("50"));
    assert_eq!(read.created_at, created_at);
    assert_eq!(read.updated_at, created_at);
}

#[test]
fn cluster_ids_are_distinct_and_increasing() {
    let mut store = MemoryClusterStore::new(Generator::new(0, 0));
    let a = store.insert(Cluster::new(None, Kind::Kafka, "a".to_string(), vec![])).unwrap();
    let b = store.insert(Cluster::new(None, Kind::Kafka, "b".to_string(), vec![])).unwrap();
    let c = store.insert(Cluster::new(None, Kind::Kafka, "c".to_string(), vec![])).unwrap();
    assert!(a < b && b < c);
    assert_eq!(store.list(None).len(), 3);
}

#[test]
fn cluster_update_and_remove() {
    let mut store = MemoryClusterStore::new(Generator::new(0, 0));
    let id = store.insert(Cluster::new(None, Kind::Kafka, "old".to_string(), vec![])).unwrap();
    let renamed = Cluster::init(id, Kind::Kafka, "new".to_string(), vec![], 1, 2);
    assert_eq!(store.update(renamed).expect("the id is in range"), id);
    assert_eq!(store.get(id).unwrap().name, "new");
    assert_eq!(store.remove(id), id);
    assert!(store.get(id).is_none());
}

#[test]
fn cluster_list_honours_filter() {
    let mut store = MemoryClusterStore::new(Generator::new(0, 0));
    let a = store.insert(Cluster::new(None, Kind::Kafka, "a".to_string(), vec![])).unwrap();
    let b = store.insert(Cluster::new(None, Kind::Kafka, "b".to_string(), vec![])).unwrap();
    let only_b = store.list(Some(&vec![b, 424242]));
    assert_eq!(only_b.len(), 1);
    assert_eq!(only_b[0].id, b);
    let all = store.list(None);
    let mut ids: Vec<i64> = all.iter().map(|c| c.id).collect();
    ids.sort();
    assert_eq!(ids, vec![a, b]);
}

#[test]
fn subscription_round_trip_and_compound_key() {
    let mut subs = MemorySubscriptionStore::new(Generator::new(0, 1));
    let record = Subscription::new(None, 42, "orders".to_string(), vec![]);
    let id = subs.insert(record).expect("the id space is fresh");
    assert!(id > 0);

    let read = subs.get(42, id).expect("the record belongs to cluster 42");
    assert_eq!(read.cluster_id, 42);
    assert_eq!(read.topic_name, "orders");
    assert!(subs.get(43, id).is_none());

    let in_cluster = subs.list(Some(42));
    assert_eq!(in_cluster.len(), 1);
    assert_eq!(in_cluster[0].id, id);
    assert!(subs.list(Some(43)).is_empty());

    assert_eq!(subs.remove(43, id), id);
    assert!(subs.get(42, id).is_some());
    assert_eq!(subs.remove(42, id), id);
    assert!(subs.get(42, id).is_none());
}

#[test]
fn create_subscription_with_missing_cluster_is_not_found() {
    let clusters = MemoryClusterStore::new(Generator::new(0, 0));
    let mut subs = MemorySubscriptionStore::new(Generator::new(0, 1));
    let outcome = create_subscription(&clusters, &mut subs, 99, "orders".to_string(), vec![]);
    match outcome {
        Err(e) => {
            assert!(matches!(e, ApiError::NotFound));
            assert_eq!(e.status(), 404);
        },
        Ok(_) => panic!("cluster 99 does not exist"),
    }
    assert!(subs.list(None).is_empty());
}

#[test]
fn create_subscription_with_existing_cluster() {
    let mut clusters = MemoryClusterStore::new(Generator::new(0, 0));
    let mut subs = MemorySubscriptionStore::new(Generator::new(0, 1));
    let cid = clusters.insert(Cluster::new(None, Kind::Kafka, "a".to_string(), vec![])).unwrap();
    let sid = create_subscription(&clusters, &mut subs, cid, "orders".to_string(), vec![])
        .expect("the cluster exists");
    let read = read_subscription(&clusters, &subs, cid, sid).expect("it was just created");
    assert_eq!(read.topic_name, "orders");
    assert!(read_subscription(&clusters, &subs, cid, sid + 1).is_err());
}

#[test]
fn create_cluster_persists_then_registers() {
    let mut store = MemoryClusterStore::new(Generator::new(0, 0));
    let mut manager = MetadataManager::new();
    let (id, outcome) =
        create_cluster(&mut store, &mut manager, Kind::Kafka, "a".to_string(), config("20"))
            .expect("the id space is fresh");
    assert!(matches!(outcome, RegisterOutcome::Registered { interval_ms: 20 }));
    assert_eq!(store.get(id).unwrap().name, "a");
    assert!(matches!(manager.get(id), Some(CachedMetadataEntry::Processing)));
    assert!(matches!(read_cluster_metadata(&manager, id), Ok(CachedMetadataEntry::Processing)));
}

#[test]
fn delete_cluster_clears_store_then_registry() {
    let mut store = MemoryClusterStore::new(Generator::new(0, 0));
    let mut manager = MetadataManager::new();
    let (id, _) =
        create_cluster(&mut store, &mut manager, Kind::Kafka, "a".to_string(), config("20"))
            .expect("the id space is fresh");
    let ctx = delete_cluster(&mut store, &mut manager, id).expect("a poller was live");
    assert!(ctx.latch.is_shutdown());
    assert!(store.get(id).is_none());
    match read_cluster_metadata(&manager, id) {
        Err(e) => assert_eq!(e.status(), 404),
        Ok(_) => panic!("the entry must be gone after deletion"),
    }
    assert!(delete_cluster(&mut store, &mut manager, id).is_none());
}

#[test]
fn update_keeps_later_inserts_fresh() {
    let mut store = MemoryClusterStore::new(Generator::new(0, 0));
    let placed = Cluster::init(1_000_000_000_000, Kind::Kafka, "moved".to_string(), vec![], 1, 2);
    assert_eq!(store.update(placed).expect("the id is in range"), 1_000_000_000_000);
    let fresh = store.insert(Cluster::new(None, Kind::Kafka, "next".to_string(), vec![])).unwrap();
    assert!(fresh > 1_000_000_000_000);
    assert_eq!(store.get(1_000_000_000_000).unwrap().name, "moved");
    assert_eq!(store.get(fresh).unwrap().name, "next");
}

#[test]
fn update_refuses_an_id_beyond_the_id_space() {
    let mut store = MemoryClusterStore::new(Generator::new(0, 0));
    let unreachable = Cluster::init(i64::MAX, Kind::Kafka, "far".to_string(), vec![], 1, 2);
    assert!(store.update(unreachable).is_err());
    assert!(store.get(i64::MAX).is_none());
}

#[test]
fn list_subscriptions_gate_answers_not_found() {
    let mut clusters = MemoryClusterStore::new(Generator::new(0, 0));
    let mut subs = MemorySubscriptionStore::new(Generator::new(0, 1));
    assert!(list_subscriptions(&clusters, &subs, 41).is_err());

    let cid = clusters.insert(Cluster::new(None, Kind::Kafka, "a".to_string(), vec![])).unwrap();
    let sid = create_subscription(&clusters, &mut subs, cid, "orders".to_string(), vec![])
        .expect("the cluster exists");
    let listing = list_subscriptions(&clusters, &subs, cid).expect("the cluster exists");
    assert_eq!(listing.len(), 1);
    assert_eq!(listing[0].id, sid);
    assert_eq!(listing[0].topic_name, "orders");
}
