use orlando_cluster::time::Duration;
use orlando_cluster::{ClusterHealth, ClusterId, ClusterSilo, MultiClusterConfig, PeerStatus};

#[test]
fn cluster_id_equality() {
    let a = ClusterId::new("us-east");
    let b = ClusterId::new("us-east");
    let c = ClusterId::new("eu-west");

    assert_eq!(a, b);
    assert_ne!(a, c);
    assert_eq!(a.as_str(), "us-east");
    assert_eq!(a.to_string(), "us-east");
}

#[test]
fn multi_cluster_config_builder() {
    let config = MultiClusterConfig::new("us-east")
        .peer("eu-west", "10.0.1.1:5000")
        .peer("ap-south", "10.0.2.1:5000")
        .health_check_interval(Duration::from_secs(30));

    assert_eq!(config.cluster_id, ClusterId::new("us-east"));
    assert_eq!(config.peers.len(), 2);
    assert_eq!(
        config.peers.get(ClusterId::new("eu-west").as_str()),
        Some(&"10.0.1.1:5000".to_string())
    );
    assert_eq!(
        config.peers.get(ClusterId::new("ap-south").as_str()),
        Some(&"10.0.2.1:5000".to_string())
    );
    assert_eq!(config.health_check_interval, Duration::from_secs(30));
}

#[test]
fn cluster_silo_without_multi_cluster_has_no_cluster_id() {
    let silo = ClusterSilo::builder()
        .host("127.0.0.1")
        .port(0)
        .silo_id("solo")
        .build();

    assert!(silo.cluster_id().is_none());
}

#[test]
fn cluster_silo_with_multi_cluster_has_cluster_id() {
    let config = MultiClusterConfig::new("us-east")
        .peer("eu-west", "10.0.1.1:5000");

    let silo = ClusterSilo::builder()
        .host("127.0.0.1")
        .port(0)
        .silo_id("node-1")
        .multi_cluster(config)
        .build();

    assert_eq!(silo.cluster_id(), Some(&ClusterId::new("us-east")));
}

#[test]
fn health_checker_reports_unreachable_for_dead_peer() {
    let config = MultiClusterConfig::new("us-east")
        .peer("eu-west", "127.0.0.1:1") // nothing listening
        .health_check_interval(Duration::from_millis(50));

    let mut health = ClusterHealth::new(config);

    // Initially all peers are Unknown
    assert_eq!(
        health.status(&ClusterId::new("eu-west")),
        PeerStatus::Unknown,
    );

    assert_eq!(
        health.peer_endpoint(&ClusterId::new("eu-west")),
        Some("127.0.0.1:1".to_string()),
    );

    assert!(health.peer_endpoint(&ClusterId::new("nonexistent")).is_none());

    // A round in which the peer does not answer
    health.record_round(vec![false]);
    assert_eq!(
        health.status(&ClusterId::new("eu-west")),
        PeerStatus::Unreachable,
    );
}

#[test]
fn rounds_go_by_the_plan() {
    let config = MultiClusterConfig::new("a").peer("c", "c:1").peer("b", "b:1");
    assert_eq!(config.health_check_interval, Duration::from_secs(10));
    let mut health = ClusterHealth::new(config);
    let plan = health.probe_plan();
    assert_eq!(
        plan,
        vec![
            ("b".to_string(), "b:1".to_string()),
            ("c".to_string(), "c:1".to_string())
        ]
    );
    health.record_round(vec![true, false]);
    assert_eq!(health.status(&ClusterId::new("b")), PeerStatus::Healthy);
    assert_eq!(health.status(&ClusterId::new("c")), PeerStatus::Unreachable);
    assert_eq!(health.status(&ClusterId::new("z")), PeerStatus::Unknown);
    assert_eq!(health.all_statuses().len(), 2);
}

#[test]
fn a_peer_added_twice_has_the_later_endpoint() {
    let config = MultiClusterConfig::new("a").peer("b", "old:1").peer("b", "new:1");
    assert_eq!(config.peers.len(), 1);
    assert_eq!(config.peers.get("b"), Some(&"new:1".to_string()));
}
