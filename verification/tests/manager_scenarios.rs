use seekr::cluster::{Cluster, Kind};
use seekr::consumer::ConsumerSettings;
use seekr::consumer::{FailingMetadataConsumer, FixedMetadataConsumer, MetadataConsumer};
use seekr::manager::{CachedMetadataEntry, MetadataManager, RegisterOutcome};
use seekr::metadata::{BrokerMetadata, ClusterMetadata};

fn cluster(id: i64, name: &str, interval_ms: &str) -> Cluster {
    Cluster::new(
        Some(id),
        Kind::Kafka,
        name.to_string(),
        vec![
            ("bootstrap.servers".to_string(), "h1:9092".to_string()),
            ("metadata.poll.interval.ms".to_string(), interval_ms.to_string()),
        ],
    )
}

fn snapshot(host: &str) -> ClusterMetadata {
    ClusterMetadata {
        brokers: vec![BrokerMetadata { id: 1, host: host.to_string(), port: 9092 }],
        groups: Vec::new(),
        topics: Vec::new(),
    }
}

#[test]
fn boot_with_two_clusters() {
    let mut manager = MetadataManager::new();
    let clusters = vec![cluster(1, "a", "50"), cluster(2, "b", "50")];
    let specs = manager.start(&clusters);
    assert_eq!(specs, vec![(1, 50), (2, 50)]);

    let mut fetcher = FixedMetadataConsumer::new(snapshot("h1"));
    for id in [1i64, 2] {
        assert!(matches!(manager.get(id), Some(CachedMetadataEntry::Processing)));
        manager.apply_fetch(id, fetcher.fetch_meta().map_err(|e| e.message()));
        match manager.get(id) {
            Some(CachedMetadataEntry::Meta(m)) => assert_eq!(m.brokers[0].host, "h1"),
            other => panic!("expected a metadata entry, not {:?}", other.is_some()),
        }
    }
}

#[test]
fn register_after_boot_then_remove() {
    let mut manager = MetadataManager::new();
    let c = cluster(7, "late", "20");
    match manager.register(&c) {
        RegisterOutcome::Registered { interval_ms } => assert_eq!(interval_ms, 20),
        RegisterOutcome::AlreadyRegistered => panic!("id 7 was not registered before"),
    }
    assert!(matches!(manager.get(7), Some(CachedMetadataEntry::Processing)));

    let mut fetcher = FixedMetadataConsumer::new(snapshot("h7"));
    manager.apply_fetch(7, fetcher.fetch_meta().map_err(|e| e.message()));
    assert!(matches!(manager.get(7), Some(CachedMetadataEntry::Meta(_))));

    let ctx = manager.remove(7).expect("a live context leaves on removal");
    assert!(ctx.latch.is_shutdown());
    assert!(manager.get(7).is_none());
}

#[test]
fn register_is_idempotent_and_keeps_cache() {
    let mut manager = MetadataManager::new();
    let c = cluster(4, "same", "20");
    assert!(matches!(manager.register(&c), RegisterOutcome::Registered { .. }));
    let mut fetcher = FixedMetadataConsumer::new(snapshot("h4"));
    manager.apply_fetch(4, fetcher.fetch_meta().map_err(|e| e.message()));

    assert!(matches!(manager.register(&c), RegisterOutcome::AlreadyRegistered));
    assert!(matches!(manager.get(4), Some(CachedMetadataEntry::Meta(_))));
}

#[test]
fn failing_fetcher_keeps_polling() {
    let mut manager = MetadataManager::new();
    let c = cluster(3, "down", "20");
    assert!(matches!(manager.register(&c), RegisterOutcome::Registered { .. }));

    let mut fetcher = FailingMetadataConsumer { reason: "connection timeout".to_string() };
    for _ in 0..5 {
        let outcome = fetcher.fetch_meta().map_err(|e| e.reason().clone());
        manager.apply_fetch(3, outcome);
        match manager.get(3) {
            Some(CachedMetadataEntry::Failed(msg)) => {
                assert_eq!(msg, "Error: Failed to fetch metadata for cluster 3 - connection timeout");
                assert!(msg.contains("timeout"));
            },
            _ => panic!("expected a failed entry"),
        }
    }
}

#[test]
fn remove_twice_second_is_noop() {
    let mut manager = MetadataManager::new();
    let c = cluster(9, "gone", "20");
    assert!(matches!(manager.register(&c), RegisterOutcome::Registered { .. }));
    assert!(manager.remove(9).is_some());
    assert!(manager.remove(9).is_none());
    assert!(manager.get(9).is_none());
}

#[test]
fn remove_then_register_starts_fresh() {
    let mut manager = MetadataManager::new();
    let c = cluster(5, "fresh", "20");
    assert!(matches!(manager.register(&c), RegisterOutcome::Registered { .. }));
    let mut fetcher = FixedMetadataConsumer::new(snapshot("h5"));
    manager.apply_fetch(5, fetcher.fetch_meta().map_err(|e| e.message()));
    assert!(manager.remove(5).is_some());
    assert!(matches!(manager.register(&c), RegisterOutcome::Registered { .. }));
    assert!(matches!(manager.get(5), Some(CachedMetadataEntry::Processing)));
}

#[test]
fn late_outcome_after_removal_is_dropped() {
    let mut manager = MetadataManager::new();
    let c = cluster(6, "raced", "20");
    assert!(matches!(manager.register(&c), RegisterOutcome::Registered { .. }));
    assert!(manager.remove(6).is_some());
    let mut fetcher = FixedMetadataConsumer::new(snapshot("h6"));
    manager.apply_fetch(6, fetcher.fetch_meta().map_err(|e| e.message()));
    assert!(manager.get(6).is_none());
}

#[test]
fn shutdown_completes_every_latch() {
    let mut manager = MetadataManager::new();
    for id in 0..10i64 {
        let c = cluster(id + 1, "worker", "100");
        assert!(matches!(manager.register(&c), RegisterOutcome::Registered { .. }));
    }
    assert!(!manager.all_latches_complete());
    let ids = manager.begin_shutdown();
    assert_eq!(ids.len(), 10);
    for id in ids {
        manager.acknowledge_shutdown(id);
    }
    assert!(manager.all_latches_complete());
}

#[test]
fn missing_bootstrap_servers_defaults_then_fails_to_failed_entry() {
    let mut manager = MetadataManager::new();
    let no_seeds = Cluster::new(
        Some(8),
        Kind::Kafka,
        "bare".to_string(),
        vec![("metadata.poll.interval.ms".to_string(), "20".to_string())],
    );
    let settings = ConsumerSettings::for_cluster(&no_seeds);
    assert_eq!(settings.bootstrap_servers, "localhost:9092");

    assert!(matches!(manager.register(&no_seeds), RegisterOutcome::Registered { .. }));
    let mut fetcher = FailingMetadataConsumer {
        reason: format!("connection to {} refused", settings.bootstrap_servers),
    };
    let outcome = fetcher.fetch_meta().map_err(|e| e.reason().clone());
    manager.apply_fetch(8, outcome);
    match manager.get(8) {
        Some(CachedMetadataEntry::Failed(msg)) => {
            assert!(msg.contains("connection to localhost:9092 refused"));
        },
        _ => panic!("expected a failed entry"),
    }
}
