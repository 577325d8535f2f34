use orlando_cluster::client::{CallDecision, CallEvent, CLIENT_VIRTUAL_NODES};
use orlando_cluster::cluster_grain_ref::{remote_answer, AskStart};
use orlando_cluster::cluster_silo::Placement;
use orlando_cluster::maps::StrMap;
use orlando_cluster::message_registry::handler_error;
use orlando_cluster::proto::{InvokeResponse, ProtoSiloAddress};
use orlando_cluster::rebalancer::ChangeEvent;
use orlando_cluster::time::{Duration, Instant};
use orlando_cluster::{
    ClientError, ClusterError, ClusterGrainRef, ClusterId, ClusterSilo, CrossClusterDirectory,
    FailoverPhase, GrainError, GrainId, HashRing, InMemoryCrossClusterDirectory,
    MembershipChange, MultiClusterConfig, OrlandoClient, PeerStatus, Rebalancer, ReplicaStore,
    RetryPolicy, SiloAddress,
};

fn wire(id: &str, port: u32) -> ProtoSiloAddress {
    ProtoSiloAddress { host: "127.0.0.1".into(), port, silo_id: id.into() }
}

fn silo(id: &str, port: u16) -> SiloAddress {
    SiloAddress { host: "127.0.0.1".into(), port, silo_id: id.into() }
}

fn built(id: &str, port: u16, placement: Placement) -> ClusterSilo {
    ClusterSilo::builder()
        .host("127.0.0.1")
        .port(port)
        .silo_id(id)
        .placement(placement)
        .register("Counter", "Increment", "t::Counter", 0, None, 1)
        .build()
}

fn is_local(reference: &ClusterGrainRef) -> bool {
    reference.ask() == AskStart::CallLocal
}

#[test]
fn default_placement_is_hash_based() {
    let silo = ClusterSilo::builder()
        .host("127.0.0.1")
        .port(0)
        .silo_id("test-default")
        .register("Counter", "Increment", "t::Counter", 0, None, 1)
        .build();
    assert_eq!(silo.placement, Placement::Hash);
    assert!(is_local(&silo.get_ref("Counter", "test-key", None, None)));
}

#[test]
fn prefer_local_placement_keeps_grains_local() {
    let mut silo_a = built("silo-a", 1, Placement::PreferLocal);
    silo_a.join_cluster(&vec![wire("silo-a", 1), wire("silo-b", 2)], "127.0.0.1:2");
    let mut a_count: usize = 0;
    for i in 0..10 {
        if is_local(&silo_a.get_ref("Counter", &format!("local-{}", i), None, None)) {
            a_count += 1;
        }
    }
    assert_eq!(a_count, 10, "all grains should be local to silo-a");
}

#[test]
fn random_placement_distributes_grains() {
    let mut silo_a = built("silo-a", 1, Placement::Random);
    silo_a.join_cluster(&vec![wire("silo-a", 1), wire("silo-b", 2)], "127.0.0.1:2");
    let (mut a_count, mut b_count): (usize, usize) = (0, 0);
    for i in 0..100 {
        match silo_a.get_ref("Counter", &format!("rand-{}", i), None, None).ask() {
            AskStart::CallLocal => a_count += 1,
            AskStart::CallRemote(endpoint) => {
                assert_eq!(endpoint, "127.0.0.1:2");
                b_count += 1;
            }
        }
    }
    assert!(
        a_count > 0 && b_count > 0,
        "random placement should distribute: a={}, b={}",
        a_count,
        b_count
    );
}

#[test]
fn prefer_local_hint_keeps_grain_local() {
    let mut silo_a = built("hint-silo-a", 1, Placement::Hash);
    silo_a.join_cluster(&vec![wire("hint-silo-a", 1), wire("hint-silo-b", 2)], "127.0.0.1:2");
    let mut a_count: usize = 0;
    for i in 0..10 {
        let key = format!("hint-key-{}", i);
        if is_local(&silo_a.get_ref("LocalGrain", &key, Some("prefer_local"), None)) {
            a_count += 1;
        }
    }
    assert_eq!(a_count, 10, "all grains should be local due to prefer_local hint");
}

#[test]
fn no_hint_uses_silo_default_placement() {
    let silo = built("hint-default", 0, Placement::Hash);
    assert!(is_local(&silo.get_ref("DefaultGrain", "key-1", None, None)));
    assert!(is_local(&silo.get_ref("DefaultGrain", "key-1", Some("unheard of"), None)));
}

#[test]
fn hints_win_over_the_silos_strategy() {
    let members = vec![wire("silo-a", 1), wire("silo-b", 2)];
    let remote = AskStart::CallRemote("127.0.0.1:2".to_string());
    for placement in [Placement::PreferLocal, Placement::Random, Placement::Custom] {
        let mut silo_a = built("silo-a", 1, placement);
        silo_a.join_cluster(&members, "127.0.0.1:2");
        let (mut here, mut there): (usize, usize) = (0, 0);
        for i in 0..200 {
            let key = format!("{}-key", i);
            let owner = silo_a.ring.get(&format!("Counter/{}", key)).unwrap();
            let start = silo_a.get_ref("Counter", &key, Some("hash"), None).ask();
            if owner.silo_id == "silo-a" {
                assert_eq!(start, AskStart::CallLocal);
                here += 1;
            } else {
                assert_eq!(start, remote);
                there += 1;
            }
        }
        assert!(here > 0 && there > 0, "both silos own some of the keys");
    }
    for placement in [Placement::PreferLocal, Placement::Hash, Placement::Custom] {
        let mut silo_a = built("silo-a", 1, placement);
        silo_a.join_cluster(&members, "127.0.0.1:2");
        let (mut here, mut there): (usize, usize) = (0, 0);
        for _ in 0..200 {
            match silo_a.get_ref("Counter", "k", Some("random"), None).ask() {
                AskStart::CallLocal => here += 1,
                AskStart::CallRemote(_) => there += 1,
            }
        }
        assert!(here > 0 && there > 0, "one key goes to both silos at random");
    }
    let mut local = built("silo-a", 1, Placement::PreferLocal);
    local.join_cluster(&members, "127.0.0.1:2");
    for i in 0..50 {
        let key = format!("{}-key", i);
        assert!(is_local(&local.get_ref("Counter", &key, Some("unheard of"), None)));
        assert!(is_local(&local.get_ref("Counter", &key, None, None)));
    }
}

#[test]
fn grains_go_where_the_ring_or_the_owner_says() {
    let mut silo_a = built("silo-a", 1, Placement::Hash);
    silo_a.join_cluster(&vec![wire("silo-a", 1), wire("silo-b", 2)], "127.0.0.1:2");
    for i in 0..50 {
        let key = format!("k{}", i);
        let owner = silo_a.ring.get(&format!("Counter/{}", key)).unwrap();
        let expected = if owner.silo_id == "silo-a" {
            AskStart::CallLocal
        } else {
            AskStart::CallRemote("127.0.0.1:2".to_string())
        };
        assert_eq!(silo_a.get_ref("Counter", &key, None, None).ask(), expected);
    }
    let mut own = built("silo-a", 1, Placement::Custom);
    own.join_cluster(&vec![wire("silo-b", 2)], "127.0.0.1:2");
    let chosen = own.get_ref("Counter", "k", None, Some(silo("silo-b", 2)));
    assert_eq!(chosen.ask(), AskStart::CallRemote("127.0.0.1:2".to_string()));
    assert!(is_local(&own.get_ref("Counter", "k", None, None)));
}

#[test]
fn references_lead_where_grains_are_placed() {
    let a = built("silo-a", 1, Placement::Random);
    assert!(is_local(&a.reference_to(None, "Counter", "k")));
    assert!(is_local(&a.reference_to(Some(silo("silo-a", 9)), "Counter", "k")));
    assert_eq!(
        a.reference_to(Some(silo("silo-b", 2)), "Counter", "k").ask(),
        AskStart::CallRemote("127.0.0.1:2".to_string())
    );
}

#[test]
fn an_unnamed_silo_gets_a_name_of_its_own() {
    let a = ClusterSilo::builder().build();
    let b = ClusterSilo::builder().build();
    let id = a.local_addr().silo_id.clone();
    assert_ne!(id, b.local_addr().silo_id);
    assert_eq!(id.len(), 36);
    for (i, c) in id.chars().enumerate() {
        if [8, 13, 18, 23].contains(&i) {
            assert_eq!(c, '-');
        } else {
            assert!(c.is_ascii_hexdigit() && !c.is_ascii_uppercase());
        }
    }
    assert_eq!(id.chars().nth(14), Some('4'));
}

#[test]
fn a_joining_silo_takes_in_the_others() {
    let mut c = built("silo-c", 3, Placement::Hash);
    assert_eq!(c.join_request().inner, wire("silo-c", 3));
    assert!(c.join_request().metadata.entries.is_empty());
    let members = vec![wire("silo-a", 1), wire("silo-b", 2), wire("silo-c", 3)];
    let (changes, announcements) = c.join_cluster(&members, "127.0.0.1:1");
    assert_eq!(announcements.len(), 1);
    assert_eq!(announcements[0].endpoint, "127.0.0.1:2");
    assert_eq!(announcements[0].request.inner, wire("silo-c", 3));
    assert_eq!(changes.len(), 3);
    assert_eq!(changes[0], MembershipChange::SiloJoined(silo("silo-a", 1)));
    assert_eq!(c.ring.members().len(), 3);
    assert_eq!(
        c.swim_state.live_member_ids(),
        vec!["silo-a".to_string(), "silo-b".to_string()]
    );
}

#[test]
fn joining_carries_the_token() {
    let mut c = ClusterSilo::builder().port(3).silo_id("silo-c").auth_token("t").build();
    let header = ("authorization".to_string(), b"t".to_vec());
    assert_eq!(c.join_request().metadata.entries, vec![header.clone()]);
    let members = vec![wire("silo-a", 1), wire("silo-b", 2), wire("silo-d", 4)];
    let (_, announcements) = c.join_cluster(&members, "127.0.0.1:1");
    assert_eq!(announcements.len(), 2);
    for announcement in &announcements {
        assert_eq!(announcement.request.inner, wire("silo-c", 3));
        assert_eq!(announcement.request.metadata.entries, vec![header.clone()]);
    }
    let fresh = ClusterSilo::builder().auth_token("t").new_pool();
    assert_eq!(fresh.authorized_request(()).metadata.entries, vec![header]);
}

#[test]
fn seeds_are_tried_in_turn() {
    let c = built("silo-c", 3, Placement::Hash);
    let seeds = c.seeds(&vec![silo("x", 1), silo("y", 3), silo("z", 2)]);
    assert_eq!(seeds, vec![silo("x", 1), silo("z", 2)]);
    assert_eq!(c.discover_and_join(&seeds, 0, false), Ok(Some(silo("x", 1))));
    assert_eq!(c.discover_and_join(&seeds, 1, true), Ok(None));
    assert_eq!(c.discover_and_join(&seeds, 1, false), Ok(Some(silo("z", 2))));
    assert_eq!(
        c.discover_and_join(&seeds, 2, false),
        Err(ClusterError::Transport(
            "no reachable seeds found via membership provider".to_string()
        ))
    );
}

#[test]
fn single_cluster_mode_unchanged() {
    let silo = ClusterSilo::builder()
        .host("127.0.0.1")
        .port(0)
        .silo_id("solo-silo")
        .register("Counter", "Increment", "t::Counter", 0, None, 1)
        .build();
    let plan = silo.serve();
    assert!(plan.gateway.is_none());
    assert!(plan.failover.is_none());
    assert!(plan.check_peers.is_none());
    assert!(!plan.secured);
    assert!(plan.health_addr.is_none());
    assert_eq!(plan.bind_addr, "127.0.0.1:0");
    assert!(silo.cluster_id().is_none());
    assert!(is_local(&silo.get_ref("Counter", "solo-counter", None, None)));
}

#[test]
fn a_silo_of_many_clusters_runs_more() {
    let silo = ClusterSilo::builder()
        .silo_id("s")
        .port(5)
        .cluster_id(ClusterId::new("eu"))
        .peer_cluster(&ClusterId::new("us"), "us:1")
        .cross_cluster_directory()
        .multi_cluster(MultiClusterConfig::new("eu").peer("us", "us:1"))
        .health_port(9090)
        .tls(vec![1], vec![2])
        .tls_ca(vec![3])
        .build();
    let plan = silo.serve();
    let health = plan.check_peers.unwrap();
    assert_eq!(health.status(&ClusterId::new("us")), PeerStatus::Unknown);
    let manager = plan.failover.unwrap();
    assert_eq!(manager.check_interval(), Duration::from_secs(5));
    assert_eq!(manager.phase(&ClusterId::new("us")), FailoverPhase::Monitoring);
    assert!(plan.secured && plan.checks_callers);
    assert_eq!(plan.health_addr, Some("127.0.0.1:9090".to_string()));
    assert_eq!(plan.gateway.unwrap().cluster_ping().cluster_id, "eu");
    assert_eq!(silo.cluster_id().unwrap().as_str(), "eu");
    assert!(silo.pool().tls_config().is_some());
}

#[test]
fn a_served_silo_takes_over_from_a_silent_peer() {
    let us = ClusterId::new("us");
    let silo = ClusterSilo::builder()
        .cluster_id(ClusterId::new("eu"))
        .cross_cluster_directory()
        .multi_cluster(MultiClusterConfig::new("eu").peer("us", "us:1"))
        .build();
    let plan = silo.serve();
    let mut health = plan.check_peers.unwrap();
    let mut manager = plan.failover.unwrap();
    let mut directory = InMemoryCrossClusterDirectory::new();
    let grain = GrainId { grain_type: "Counter", key: "k".to_string() };
    directory.register(&grain, &us, 4).unwrap();
    let mut looks: Vec<bool> = Vec::new();
    for i in 0..9 {
        let now = Instant { nanos: i * 5_000_000_000 };
        let sweep = manager.check(&us, health.status(&us), now);
        looks.push(sweep);
        if sweep {
            let tally = manager.sweep(&mut directory, &us);
            manager.swept(&us, tally);
        }
        health.record_round(vec![false]);
    }
    assert_eq!(looks, vec![false, false, false, false, false, false, false, false, true]);
    let owner = directory.lookup(&grain).unwrap().unwrap();
    assert_eq!(owner.cluster_id, ClusterId::new("eu"));
    assert_eq!(owner.epoch, 5);
}

#[test]
fn unsecured_silos_are_pointed_out() {
    let bare = ClusterSilo::builder();
    assert!(bare.lacks_auth());
    assert!(bare.lacks_tls());
    let token = ClusterSilo::builder().auth_token("t").auth().tls(vec![1], vec![2]);
    assert!(!token.lacks_auth());
    assert!(!token.lacks_tls());
}

#[test]
fn retries_back_off() {
    let policy = RetryPolicy::with_retries(10);
    let delays: Vec<u128> =
        (0..7).map(|i| policy.delay_for_attempt(i).as_millis()).collect();
    assert_eq!(delays, vec![100, 200, 400, 800, 1600, 2000, 2000]);
    assert_eq!(policy.delay_for_attempt(u32::MAX), Duration::from_secs(2));
    assert_eq!(RetryPolicy::none().max_retries, 0);
    assert_eq!(RetryPolicy::default().max_retries, 2);
    let tiny = RetryPolicy {
        max_retries: 20,
        base_delay: Duration::from_nanos(1),
        max_delay: Duration::from_secs(60),
    };
    assert_eq!(tiny.delay_for_attempt(20).as_nanos(), 1 << 20);
}

#[test]
fn only_transient_errors_are_retried() {
    let reference =
        ClusterGrainRef::remote("h:1".to_string(), "Counter", "k".to_string())
            .with_retry_policy(RetryPolicy::with_retries(1));
    let lost = GrainError::RemoteCallFailed("lost".to_string());
    assert_eq!(reference.after_failure(0, &lost), Some(Duration::from_millis(100)));
    assert_eq!(reference.after_failure(1, &lost), None);
    let slow = GrainError::Timeout(Duration::from_secs(1));
    assert!(reference.after_failure(0, &slow).is_some());
    assert!(reference.after_failure(0, &GrainError::MailboxClosed).is_some());
    let bad = GrainError::HandlerFailed("bad".to_string());
    assert!(reference.after_failure(0, &bad).is_none());
    assert!(reference.after_failure(0, &GrainError::TypeMismatch).is_none());
}

#[test]
fn remote_references_make_requests() {
    let remote = ClusterGrainRef::remote("h:1".to_string(), "Counter", "k".to_string());
    let request = remote.remote_request("Increment", 3, vec![5], StrMap::new()).unwrap();
    assert_eq!(request.grain_type, "Counter");
    assert_eq!(request.grain_key, "k");
    assert_eq!(request.message_type, "Increment");
    assert_eq!(request.message_version, 3);
    assert_eq!(request.encoding, 0);
    assert_eq!(request.payload, vec![5]);
    let local = ClusterGrainRef::local();
    assert!(local.remote_request("Increment", 3, vec![5], StrMap::new()).is_none());
    let ok = InvokeResponse { payload: vec![6], error: String::new(), encoding: 0 };
    assert_eq!(remote_answer(ok), Ok(vec![6]));
    let bad = InvokeResponse { payload: vec![6], error: "bad".to_string(), encoding: 0 };
    assert_eq!(remote_answer(bad), Err(GrainError::HandlerFailed("bad".to_string())));
}

#[test]
fn an_error_in_an_answer_is_not_retried() {
    let reference = ClusterGrainRef::remote("h:1".to_string(), "Counter", "k".to_string())
        .with_retry_policy(RetryPolicy::with_retries(5));
    let bad = InvokeResponse { payload: vec![], error: "no such account".into(), encoding: 0 };
    let error = remote_answer(bad).unwrap_err();
    for attempt in 0..5 {
        assert_eq!(reference.after_failure(attempt, &error), None);
    }
}

#[test]
fn reported_failures_are_retried_as_local_ones_are() {
    let reference = ClusterGrainRef::remote("h:1".to_string(), "Counter", "k".to_string())
        .with_retry_policy(RetryPolicy::with_retries(1));
    let errors = vec![
        (GrainError::MailboxClosed, "handler error: grain mailbox closed", true),
        (
            GrainError::Timeout(Duration::from_millis(1500)),
            "handler error: grain call timed out after 1500 ms",
            true,
        ),
        (
            GrainError::RemoteCallFailed("lost".into()),
            "handler error: remote call failed: lost",
            true,
        ),
        (
            GrainError::HandlerFailed("grain mailbox closed".into()),
            "handler error: handler failed: grain mailbox closed",
            false,
        ),
        (GrainError::TypeMismatch, "handler error: message type mismatch", false),
    ];
    for (error, text, retried) in errors {
        let told = handler_error(&error).to_string();
        assert_eq!(told, text);
        let answer = InvokeResponse { payload: vec![], error: told.clone(), encoding: 0 };
        let heard = remote_answer(answer).unwrap_err();
        if retried {
            assert_eq!(heard, GrainError::RemoteCallFailed(told));
        } else {
            assert_eq!(heard, GrainError::HandlerFailed(told));
        }
        assert_eq!(reference.after_failure(0, &error).is_some(), retried);
        assert_eq!(reference.after_failure(0, &heard).is_some(), retried);
        assert!(reference.after_failure(1, &heard).is_none());
    }
    let longest = GrainError::Timeout(Duration::from_secs(u64::MAX)).to_string();
    assert_eq!(longest, "grain call timed out after 18446744073709551615000 ms");
}

#[test]
fn fresh_copies_answer_reads() {
    let mut store = ReplicaStore::new();
    store.update("Counter", "k", vec![9], 1, 10_000);
    let remote = ClusterGrainRef::remote("h:1".to_string(), "Counter", "k".to_string());
    assert!(remote.replica_at(&store, 10_500).is_none());
    let reading = remote.with_replica_store(Duration::from_secs(1));
    assert_eq!(reading.replica_at(&store, 10_500).unwrap().payload, vec![9]);
    assert!(reading.replica_at(&store, 11_001).is_none());
    assert!(reading.read_only_ask(&store).is_none(), "that copy is decades old");
    let local = ClusterGrainRef::local().with_replica_store(Duration::from_secs(1));
    assert!(local.replica_at(&store, 10_500).is_none());
}

#[test]
fn clients_route_as_silos_do() {
    let mut members: Vec<ProtoSiloAddress> = Vec::new();
    let mut ring = HashRing::new(150);
    for i in 1..4 {
        members.push(wire(&format!("silo-{}", i), i));
        ring.add(silo(&format!("silo-{}", i), i as u16));
    }
    let client = OrlandoClient::connect(&members, CLIENT_VIRTUAL_NODES).unwrap();
    for i in 0..50 {
        let key = format!("k{}", i);
        let owner = ring.get(&format!("Counter/{}", key)).unwrap();
        assert_eq!(client.route("Counter", &key), Ok(owner.endpoint()));
    }
    assert_eq!(client.refresh_targets(), ring.members());
}

#[test]
fn clients_follow_the_clusters_number_of_virtual_nodes() {
    let mut ring = HashRing::new(50);
    ring.add(silo("silo-1", 1));
    ring.add(silo("silo-2", 2));
    ring.add(silo("silo-3", 3));
    let members = vec![wire("silo-1", 1), wire("silo-2", 2), wire("silo-3", 3)];
    let mut client = OrlandoClient::connect(&members, 50).unwrap();
    let usual = OrlandoClient::connect(&members, CLIENT_VIRTUAL_NODES).unwrap();
    let mut differ: u32 = 0;
    for round in 0..2 {
        for i in 0..200 {
            let key = format!("{}-key", i);
            let owner = ring.get(&format!("Counter/{}", key)).unwrap().endpoint();
            assert_eq!(client.route("Counter", &key), Ok(owner.clone()), "round {}", round);
            if usual.route("Counter", &key) != Ok(owner) {
                differ += 1;
            }
        }
        client.refresh_membership(Some(&members)).unwrap();
    }
    assert!(differ > 0, "another number of virtual nodes routes otherwise");
}

#[test]
fn clients_need_members() {
    assert_eq!(
        OrlandoClient::connect(&Vec::new(), CLIENT_VIRTUAL_NODES),
        Err(ClientError::Connection("cluster returned no members".to_string()))
    );
    let mut client = OrlandoClient::connect(&vec![wire("a", 1)], CLIENT_VIRTUAL_NODES).unwrap();
    assert!(client.refresh_membership(None).is_err());
    assert!(client.route("Counter", "k").is_ok());
    client.refresh_membership(Some(&vec![wire("b", 2)])).unwrap();
    assert_eq!(client.route("Counter", "k"), Ok("127.0.0.1:2".to_string()));
    client.refresh_membership(Some(&Vec::new())).unwrap();
    assert_eq!(client.route("Counter", "k"), Err(ClientError::NoSiloAvailable));
}

#[test]
fn client_calls_are_tried_twice() {
    let client = OrlandoClient::connect(&vec![wire("a", 1)], CLIENT_VIRTUAL_NODES).unwrap();
    assert!(matches!(
        client.invoke(0, CallEvent::Unreachable("down".to_string())),
        CallDecision::RefreshAndRetry { drop_connection: false }
    ));
    assert!(matches!(
        client.invoke(0, CallEvent::Failed("down".to_string())),
        CallDecision::RefreshAndRetry { drop_connection: true }
    ));
    assert!(matches!(
        client.invoke(1, CallEvent::Unreachable("down".to_string())),
        CallDecision::Fail(ClientError::Connection(_))
    ));
    assert!(matches!(
        client.invoke(1, CallEvent::Failed("down".to_string())),
        CallDecision::Fail(ClientError::Transport(_))
    ));
    let bad = InvokeResponse { payload: Vec::new(), error: "bad".to_string(), encoding: 0 };
    assert!(matches!(
        client.invoke(0, CallEvent::Answered(bad)),
        CallDecision::Fail(ClientError::GrainError(text)) if text == "bad"
    ));
    let ok = InvokeResponse { payload: vec![1], error: String::new(), encoding: 0 };
    assert!(matches!(
        client.invoke(0, CallEvent::Answered(ok)),
        CallDecision::Return(payload) if payload == vec![1]
    ));
}

#[test]
fn handles_name_the_encoding() {
    let client = OrlandoClient::connect(&vec![wire("a", 1)], CLIENT_VIRTUAL_NODES).unwrap();
    let handle = client.grain("Counter", "k");
    assert_eq!(handle.ask("Increment", vec![1]).encoding, 0);
    let request = handle.ask_proto("Increment", vec![1]);
    assert_eq!(request.encoding, 1);
    assert_eq!(request.grain_type, "Counter");
    assert_eq!(request.grain_key, "k");
    assert_eq!(request.message_type, "Increment");
    assert_eq!(request.payload, vec![1]);
}

#[test]
fn client_errors_have_texts() {
    assert_eq!(
        ClientError::Connection("x".to_string()).to_string(),
        "connection failed: x"
    );
    assert_eq!(ClientError::Transport("x".to_string()).to_string(), "transport error: x");
    assert_eq!(ClientError::GrainError("x".to_string()).to_string(), "grain error: x");
    assert_eq!(
        ClientError::Serialization("x".to_string()).to_string(),
        "serialization failed: x"
    );
    assert_eq!(
        ClientError::Deserialization("x".to_string()).to_string(),
        "deserialization failed: x"
    );
    assert_eq!(ClientError::NoSiloAvailable.to_string(), "no silo available for grain");
}

#[test]
fn rebalancing_deactivates_misplaced_grains() {
    let mut ring = HashRing::new(150);
    ring.add(silo("silo-a", 1));
    let grains: Vec<GrainId> = (0..30)
        .map(|i| GrainId { grain_type: "Counter", key: format!("counter-{}", i) })
        .collect();
    let rebalancer = Rebalancer::new("silo-a".to_string());
    assert!(rebalancer.rebalance(&ring, &grains).is_empty());
    ring.add(silo("silo-b", 2));
    let leaving = rebalancer.rebalance(&ring, &grains);
    assert!(!leaving.is_empty() && leaving.len() < grains.len());
    for grain in &grains {
        let owner = ring.get(&grain.joined()).unwrap();
        assert_eq!(leaving.contains(grain), owner.silo_id != "silo-a");
    }
}

#[test]
fn changes_set_off_rebalancing() {
    let rebalancer = Rebalancer::new("silo-a".to_string());
    let joined = MembershipChange::SiloJoined(silo("silo-b", 2));
    assert!(rebalancer.on_event(&ChangeEvent::Changed(joined)));
    assert!(rebalancer.on_event(&ChangeEvent::Lagged(3)));
    assert!(!rebalancer.on_event(&ChangeEvent::Closed));
    let at = |millis: u64| Instant { nanos: millis * 1_000_000 };
    assert!(rebalancer.grace_left(at(0), at(0)).is_some());
    assert!(rebalancer.grace_left(at(0), at(3_600_000)).is_none());
}
