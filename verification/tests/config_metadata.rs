use seekr::config::{bootstrap_servers, config_get, group_id, poll_interval_ms};
use seekr::consumer::ConsumerSettings;
use seekr::metadata::{
    BrokerMetadata, ClusterMetadata, GroupMember, GroupMetadata, PartitionMetadata, TopicMetadata,
};
use seekr::strings::{parse_u64, render_i64, render_u64, str_eq, str_le};

fn pairs(entries: &[(&str, &str)]) -> Vec<(String, String)> {
    entries.iter().map(|(k, v)| (k.to_string(), v.to_string())).collect()
}

#[test]
fn lookup_finds_first_match() {
    let config = pairs(&[("a", "1"), ("b", "2"), ("a", "3")]);
    assert_eq!(config_get(&config, "a").unwrap().as_str(), "1");
    assert_eq!(config_get(&config, "b").unwrap().as_str(), "2");
    assert!(config_get(&config, "c").is_none());
}

#[test]
fn poll_interval_parses_decimal() {
    let config = pairs(&[("metadata.poll.interval.ms", "50")]);
    assert_eq!(poll_interval_ms(&config), 50);
}

#[test]
fn poll_interval_default_on_missing_key() {
    let config = pairs(&[("bootstrap.servers", "h1:9092")]);
    assert_eq!(poll_interval_ms(&config), 30000);
}

#[test]
fn poll_interval_default_on_parse_error() {
    let config = pairs(&[("metadata.poll.interval.ms", "not-a-number")]);
    assert_eq!(poll_interval_ms(&config), 30000);
}

#[test]
fn poll_interval_default_on_overflow() {
    let config = pairs(&[("metadata.poll.interval.ms", "99999999999999999999999999")]);
    assert_eq!(poll_interval_ms(&config), 30000);
}

#[test]
fn bootstrap_servers_default_when_missing() {
    let config = pairs(&[]);
    assert_eq!(bootstrap_servers(&config), "localhost:9092");
    assert_eq!(group_id(&config), "seekr.io");
}

#[test]
fn consumer_settings_resolve_configured_values() {
    let config = pairs(&[("bootstrap.servers", "h1:9092"), ("seekr.group.id", "probe")]);
    let settings = ConsumerSettings::from_config(&config);
    assert_eq!(settings.bootstrap_servers, "h1:9092");
    assert_eq!(settings.group_id, "probe");
}

#[test]
fn parse_u64_exact_values() {
    assert_eq!(parse_u64("0"), Some(0));
    assert_eq!(parse_u64("30000"), Some(30000));
    assert_eq!(parse_u64("+17"), Some(17));
    assert_eq!(parse_u64("18446744073709551615"), Some(u64::MAX));
    assert_eq!(parse_u64("18446744073709551616"), None);
    assert_eq!(parse_u64(""), None);
    assert_eq!(parse_u64("+"), None);
    assert_eq!(parse_u64("12a"), None);
    assert_eq!(parse_u64("-5"), None);
}

#[test]
fn decimal_rendering_exact_values() {
    assert_eq!(render_u64(0), "0");
    assert_eq!(render_u64(30000), "30000");
    assert_eq!(render_u64(u64::MAX), "18446744073709551615");
    assert_eq!(render_i64(-42), "-42");
    assert_eq!(render_i64(7), "7");
    assert_eq!(render_i64(i64::MIN), "-9223372036854775808");
    assert_eq!(parse_u64(&render_u64(987654321)), Some(987654321));
}

#[test]
fn string_comparisons() {
    assert!(str_eq("abc", "abc"));
    assert!(!str_eq("abc", "abd"));
    assert!(!str_eq("abc", "ab"));
    assert!(str_le("a", "z"));
    assert!(!str_le("z", "a"));
    assert!(str_le("ab", "abc"));
    assert!(str_le("same", "same"));
}

fn partition(id: i32) -> PartitionMetadata {
    PartitionMetadata { id, leader: 1, replicas: vec![1, 2], isr: vec![1], error: None }
}

#[test]
fn canonicalize_sorts_brokers_by_host() {
    let snapshot = ClusterMetadata {
        brokers: vec![
            BrokerMetadata { id: 2, host: "z".to_string(), port: 9092 },
            BrokerMetadata { id: 1, host: "a".to_string(), port: 9092 },
        ],
        groups: Vec::new(),
        topics: Vec::new(),
    };
    let canonical = snapshot.canonicalize();
    let hosts: Vec<&str> = canonical.brokers.iter().map(|b| b.host.as_str()).collect();
    assert_eq!(hosts, vec!["a", "z"]);
    assert_eq!(canonical.brokers[0].id, 1);
    assert_eq!(canonical.brokers[1].id, 2);
}

#[test]
fn canonicalize_sorts_topics_groups_and_partitions() {
    let snapshot = ClusterMetadata {
        brokers: Vec::new(),
        groups: vec![
            GroupMetadata {
                name: "g2".to_string(),
                state: "Stable".to_string(),
                members: vec![GroupMember {
                    id: "m".to_string(),
                    client_id: "c".to_string(),
                    client_host: "h".to_string(),
                }],
            },
            GroupMetadata { name: "g1".to_string(), state: "Empty".to_string(), members: vec![] },
        ],
        topics: vec![
            TopicMetadata { name: "t2".to_string(), partitions: vec![partition(3), partition(1)] },
            TopicMetadata { name: "t1".to_string(), partitions: vec![partition(2), partition(0)] },
        ],
    };
    let canonical = snapshot.canonicalize();
    assert_eq!(canonical.groups[0].name, "g1");
    assert_eq!(canonical.groups[1].name, "g2");
    assert_eq!(canonical.groups[1].members[0].client_host, "h");
    assert_eq!(canonical.topics[0].name, "t1");
    assert_eq!(canonical.topics[1].name, "t2");
    let ids0: Vec<i32> = canonical.topics[0].partitions.iter().map(|p| p.id).collect();
    let ids1: Vec<i32> = canonical.topics[1].partitions.iter().map(|p| p.id).collect();
    assert_eq!(ids0, vec![0, 2]);
    assert_eq!(ids1, vec![1, 3]);
}

#[test]
fn canonicalize_keeps_partition_content() {
    let snapshot = ClusterMetadata {
        brokers: Vec::new(),
        groups: Vec::new(),
        topics: vec![TopicMetadata {
            name: "t".to_string(),
            partitions: vec![PartitionMetadata {
                id: 7,
                leader: 2,
                replicas: vec![2, 3],
                isr: vec![2],
                error: Some("unavailable".to_string()),
            }],
        }],
    };
    let canonical = snapshot.canonicalize();
    let p = &canonical.topics[0].partitions[0];
    assert_eq!(p.id, 7);
    assert_eq!(p.leader, 2);
    assert_eq!(p.replicas, vec![2, 3]);
    assert_eq!(p.isr, vec![2]);
    assert_eq!(p.error.as_deref(), Some("unavailable"));
}
