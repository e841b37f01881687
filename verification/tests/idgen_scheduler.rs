use seekr::cluster::{Cluster, Kind};
use seekr::error::Error;
use seekr::id::Generator;
use seekr::scheduler::Scheduler;
use seekr::server::Level;
use seekr::subscription::Subscription;

#[test]
fn ids_are_positive_and_strictly_increasing() {
    let mut generator = Generator::new(0, 0);
    let mut previous = 0i64;
    for now in [5u64, 5, 5, 4, 6, 6] {
        let id = generator.next_id(now).expect("the timestamp field is fresh");
        assert!(id > 0);
        assert!(id > previous);
        previous = id;
    }
}

#[test]
fn distinct_nodes_give_distinct_ids() {
    let mut a = Generator::new(0, 0);
    let mut b = Generator::new(0, 1);
    let mut c = Generator::new(1, 0);
    let ia = a.next_id(7).unwrap();
    let ib = b.next_id(7).unwrap();
    let ic = c.next_id(7).unwrap();
    assert_ne!(ia, ib);
    assert_ne!(ia, ic);
    assert_ne!(ib, ic);
}

fn sub(id: i64, cluster_id: i64) -> Subscription {
    Subscription::new(Some(id), cluster_id, "topic".to_string(), vec![])
}

fn cluster(id: i64) -> Cluster {
    Cluster::new(Some(id), Kind::Kafka, "c".to_string(), vec![])
}

#[test]
fn scheduler_skips_subscriptions_with_missing_cluster() {
    let mut scheduler = Scheduler::new();
    let subs = vec![sub(10, 1), sub(11, 2), sub(12, 9)];
    let clusters = vec![cluster(1), cluster(2)];
    let specs = scheduler.start(&subs, &clusters);
    assert_eq!(specs, vec![(10, 1), (11, 2)]);
    assert!(scheduler.is_scheduled(10));
    assert!(scheduler.is_scheduled(11));
    assert!(!scheduler.is_scheduled(12));
}

#[test]
fn scheduler_stop_completes_every_worker() {
    let mut scheduler = Scheduler::new();
    let subs = vec![sub(1, 1), sub(2, 1), sub(3, 1)];
    let clusters = vec![cluster(1)];
    scheduler.start(&subs, &clusters);
    assert!(!scheduler.all_latches_complete());
    let ids = scheduler.begin_shutdown();
    assert_eq!(ids.len(), 3);
    for id in ids {
        scheduler.acknowledge_shutdown(id);
    }
    assert!(scheduler.all_latches_complete());
}

#[test]
fn scheduler_remove_signals_the_worker() {
    let mut scheduler = Scheduler::new();
    scheduler.start(&vec![sub(5, 1)], &vec![cluster(1)]);
    let ctx = scheduler.remove(5).expect("the worker was live");
    assert!(ctx.latch.is_shutdown());
    assert_eq!(ctx.cluster_id, 1);
    assert!(scheduler.remove(5).is_none());
}

#[test]
fn log_level_names_round_trip() {
    for level in [Level::Trace, Level::Debug, Level::Info, Level::Warn, Level::Error] {
        assert_eq!(Level::from_name(level.to_str()), Some(level));
    }
    assert_eq!(Level::from_name("verbose"), None);
}

#[test]
fn kind_codes_round_trip() {
    assert_eq!(Kind::from_code(Kind::Kafka.code()), Ok(Kind::Kafka));
    assert_eq!(Kind::from_code(Kind::Unknown.code()), Ok(Kind::Unknown));
    assert_eq!(Kind::from_code(7), Err(()));
    assert_eq!(Kind::Kafka.to_str(), "KAFKA");
    assert_eq!(Kind::Unknown.to_str(), "UNKNOWN");
}

#[test]
fn error_message_carries_the_reason() {
    let error = Error::Io("stream closed".to_string());
    assert_eq!(error.reason().as_str(), "stream closed");
    assert_eq!(error.message(), "Couldn't process the specified stream: stream closed");
    assert!(error.same_reason(&Error::Io("stream closed".to_string())));
    assert!(!error.same_reason(&Error::Io("other".to_string())));
}
