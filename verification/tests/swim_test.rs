use orlando_cluster::failure_detector::{any_yes, FailureDetectorConfig, MembershipChange};
use orlando_cluster::proto::{GossipEntry, ProtoSiloAddress};
use orlando_cluster::swim::{
    from_proto_addr, gossip_to_proto, proto_to_gossip, to_proto_addr, GossipUpdate, MemberStatus,
    SwimState,
};
use orlando_cluster::time::{Duration, Instant};
use orlando_cluster::{ConnectionPool, FailureDetector, HashRing, SiloAddress};

fn silo(id: &str, port: u16) -> SiloAddress {
    SiloAddress { host: "127.0.0.1".into(), port, silo_id: id.into() }
}

fn at(secs: u64) -> Instant {
    Instant { nanos: secs * 1_000_000_000 }
}

struct Node {
    state: SwimState,
    ring: HashRing,
    pool: ConnectionPool,
    changes: Vec<MembershipChange>,
}

impl Node {
    fn new(id: &str) -> Node {
        let mut ring = HashRing::new(20);
        ring.add(silo(id, 1));
        Node {
            state: SwimState::new(silo(id, 1)),
            ring,
            pool: ConnectionPool::new(),
            changes: Vec::new(),
        }
    }

    fn hear(&mut self, news: Vec<GossipUpdate>, now: Instant) {
        self.state.apply_gossip(&news, &mut self.ring, &mut self.pool, &mut self.changes, now);
    }

    fn status(&self, id: &str) -> MemberStatus {
        self.state.members.get(id).unwrap().status.clone()
    }

    fn incarnation(&self, id: &str) -> u64 {
        self.state.members.get(id).unwrap().incarnation
    }
}

#[test]
fn joins_are_taken_in_once() {
    let mut node = Node::new("a");
    node.hear(vec![GossipUpdate::Join { addr: silo("b", 2) }], at(0));
    node.hear(vec![GossipUpdate::Join { addr: silo("b", 2) }], at(1));
    node.hear(vec![GossipUpdate::Join { addr: silo("a", 1) }], at(1));
    assert_eq!(node.changes, vec![MembershipChange::SiloJoined(silo("b", 2))]);
    assert_eq!(node.state.member_count(), 1);
    assert_eq!(node.status("b"), MemberStatus::Alive);
    assert_eq!(node.incarnation("b"), 0);
    assert_eq!(node.ring.members().len(), 2);
}

#[test]
fn suspicion_is_cleared_by_a_higher_incarnation_only() {
    let mut node = Node::new("a");
    node.hear(vec![GossipUpdate::Join { addr: silo("b", 2) }], at(0));
    node.hear(
        vec![GossipUpdate::Suspect {
            addr: silo("b", 2),
            incarnation: 3,
            reported_by: "c".into(),
        }],
        at(5),
    );
    assert_eq!(
        node.status("b"),
        MemberStatus::Suspect { since: at(5), reported_by: "c".into() }
    );
    node.hear(vec![GossipUpdate::Alive { addr: silo("b", 2), incarnation: 3 }], at(6));
    assert!(matches!(node.status("b"), MemberStatus::Suspect { .. }));
    node.hear(vec![GossipUpdate::Alive { addr: silo("b", 2), incarnation: 4 }], at(7));
    assert_eq!(node.status("b"), MemberStatus::Alive);
    assert_eq!(node.incarnation("b"), 4);
    node.hear(
        vec![GossipUpdate::Suspect {
            addr: silo("b", 2),
            incarnation: 3,
            reported_by: "c".into(),
        }],
        at(8),
    );
    assert_eq!(node.status("b"), MemberStatus::Alive);
}

#[test]
fn suspicion_of_oneself_is_refuted() {
    let mut node = Node::new("a");
    let suspicion = |incarnation: u64| {
        vec![GossipUpdate::Suspect { addr: silo("a", 1), incarnation, reported_by: "b".into() }]
    };
    node.hear(suspicion(4), at(0));
    assert_eq!(node.state.local_incarnation, 5);
    assert_eq!(
        node.state.drain_gossip(10),
        vec![GossipUpdate::Alive { addr: silo("a", 1), incarnation: 5 }]
    );
    node.hear(suspicion(4), at(1));
    assert_eq!(node.state.local_incarnation, 5);
    assert!(node.state.drain_gossip(10).is_empty());
    assert!(!node.state.cannot_refute(&suspicion(4)));
    assert!(node.state.cannot_refute(&suspicion(u64::MAX)));
}

#[test]
fn the_dead_leave_the_ring() {
    let mut node = Node::new("a");
    node.hear(vec![GossipUpdate::Join { addr: silo("b", 2) }], at(0));
    node.hear(vec![GossipUpdate::Alive { addr: silo("b", 2), incarnation: 2 }], at(0));
    node.hear(vec![GossipUpdate::Dead { addr: silo("b", 2), incarnation: 1 }], at(1));
    assert_eq!(node.ring.members().len(), 2);
    node.hear(vec![GossipUpdate::Dead { addr: silo("b", 2), incarnation: 2 }], at(1));
    assert!(!node.state.knows("b"));
    assert_eq!(node.ring.members().len(), 1);
    assert_eq!(node.changes.last(), Some(&MembershipChange::SiloLeft(silo("b", 2))));
    node.hear(vec![GossipUpdate::Dead { addr: silo("a", 1), incarnation: 9 }], at(2));
    assert_eq!(node.ring.members().len(), 1);
}

#[test]
fn gossip_is_passed_on_oldest_first() {
    let mut state = SwimState::new(silo("a", 1));
    for i in 0..5 {
        state.enqueue_gossip(GossipUpdate::Join { addr: silo("x", i) });
    }
    let first = state.drain_gossip(3);
    assert_eq!(first.len(), 3);
    assert_eq!(first[0], GossipUpdate::Join { addr: silo("x", 0) });
    let rest = state.drain_gossip(3);
    assert_eq!(rest.len(), 2);
    assert_eq!(rest[1], GossipUpdate::Join { addr: silo("x", 4) });
}

#[test]
fn an_overdue_suspect_is_declared_dead() {
    let mut node = Node::new("a");
    node.hear(
        vec![GossipUpdate::Join { addr: silo("b", 2) }, GossipUpdate::Join { addr: silo("c", 3) }],
        at(0),
    );
    node.state.suspect_member("b", at(10));
    let told = node.state.drain_gossip(10);
    assert_eq!(
        told,
        vec![GossipUpdate::Suspect { addr: silo("b", 2), incarnation: 0, reported_by: "a".into() }]
    );
    let timeout = Duration::from_secs(5);
    let expire = |node: &mut Node, now: Instant| {
        node.state.expire_suspects(
            &mut node.ring,
            &mut node.pool,
            &mut node.changes,
            timeout,
            now,
        )
    };
    expire(&mut node, at(15));
    assert!(node.state.knows("b"));
    expire(&mut node, at(16));
    assert!(!node.state.knows("b"));
    assert!(node.state.knows("c"));
    assert!(node.ring.members().iter().all(|m| m.silo_id != "b"));
    assert_eq!(
        node.state.drain_gossip(10),
        vec![GossipUpdate::Dead { addr: silo("b", 2), incarnation: 0 }]
    );
    for i in 0..50 {
        assert_ne!(node.ring.get(&format!("k{}", i)).unwrap().silo_id, "b");
    }
}

#[test]
fn a_second_suspicion_changes_nothing() {
    let mut node = Node::new("a");
    node.hear(vec![GossipUpdate::Join { addr: silo("b", 2) }], at(0));
    node.state.suspect_member("b", at(10));
    node.state.suspect_member("b", at(20));
    node.state.suspect_member("nobody", at(20));
    assert_eq!(
        node.status("b"),
        MemberStatus::Suspect { since: at(10), reported_by: "a".into() }
    );
    assert_eq!(node.state.drain_gossip(10).len(), 1);
    node.state.mark_alive("b");
    assert_eq!(node.status("b"), MemberStatus::Alive);
}

#[test]
fn members_come_and_go() {
    let mut node = Node::new("a");
    node.state.welcome(silo("c", 3));
    node.state.welcome(silo("b", 2));
    assert_eq!(node.state.live_member_ids(), vec!["b".to_string(), "c".to_string()]);
    assert_eq!(node.state.member_addr_at(1), silo("c", 3));
    node.state.forget("b");
    assert_eq!(node.state.live_member_ids(), vec!["c".to_string()]);
    node.state.declare_dead("c", &mut node.ring, &mut node.pool, &mut node.changes);
    assert_eq!(node.state.member_count(), 0);
    assert_eq!(node.changes, vec![MembershipChange::SiloLeft(silo("c", 3))]);
}

#[test]
fn addresses_survive_the_wire() {
    let addr = silo("b", 65535);
    let sent = to_proto_addr(&addr);
    assert_eq!(sent.port, 65535);
    assert_eq!(from_proto_addr(sent), addr);
    let large = ProtoSiloAddress { host: "h".into(), port: 65536 + 7, silo_id: "s".into() };
    assert_eq!(from_proto_addr(large).port, 7);
}

#[test]
fn gossip_survives_the_wire() {
    let news = vec![
        GossipUpdate::Alive { addr: silo("b", 2), incarnation: 4 },
        GossipUpdate::Suspect { addr: silo("c", 3), incarnation: 5, reported_by: "b".into() },
        GossipUpdate::Dead { addr: silo("d", 4), incarnation: 6 },
        GossipUpdate::Join { addr: silo("e", 5) },
    ];
    let sent = gossip_to_proto(&news);
    assert_eq!(sent.len(), 4);
    assert_eq!(sent[1].reported_by, "b");
    assert_eq!(sent[3].incarnation, 0);
    assert_eq!(proto_to_gossip(&sent), news);
}

#[test]
fn gossip_without_a_silo_or_of_no_kind_is_dropped() {
    let entries = vec![
        GossipEntry { update_type: 0, silo: None, incarnation: 1, reported_by: String::new() },
        GossipEntry {
            update_type: 77,
            silo: Some(to_proto_addr(&silo("b", 2))),
            incarnation: 1,
            reported_by: String::new(),
        },
    ];
    assert!(proto_to_gossip(&entries).is_empty());
}

fn detector() -> FailureDetector {
    let mut state = SwimState::new(silo("a", 1));
    for (i, id) in ["b", "c", "d", "e", "f"].iter().enumerate() {
        state.welcome(silo(id, 2 + i as u16));
    }
    FailureDetector::with_state(FailureDetectorConfig::default(), state)
}

#[test]
fn targets_are_members() {
    let detector = detector();
    let ids = detector.swim_state().live_member_ids();
    let mut seen: Vec<String> = Vec::new();
    for _ in 0..200 {
        let target = detector.pick_target().unwrap();
        assert!(ids.contains(&target.silo_id));
        if !seen.contains(&target.silo_id) {
            seen.push(target.silo_id);
        }
    }
    assert!(seen.len() > 1, "one target out of five in 200 draws");
    let alone = FailureDetector::new(FailureDetectorConfig::default(), silo("a", 1));
    assert!(alone.pick_target().is_none());
}

#[test]
fn helpers_are_other_members() {
    let detector = detector();
    let target = silo("c", 3);
    assert_eq!(detector.helper_candidates(&target).len(), 4);
    let mut orders: Vec<Vec<SiloAddress>> = Vec::new();
    for _ in 0..100 {
        let peers = detector.indirect_peers(&target);
        assert_eq!(peers.len(), FailureDetectorConfig::default().ping_req_count);
        assert!(peers.iter().all(|p| p.silo_id != "c"));
        if !orders.contains(&peers) {
            orders.push(peers);
        }
    }
    assert!(orders.len() > 1, "one choice of helpers in 100 draws");
}

#[test]
fn helpers_follow_the_order_given() {
    let detector = detector();
    let candidates = detector.helper_candidates(&silo("c", 3));
    let peers = detector.choose_helpers(&candidates, &vec![3, 0, 1, 2]);
    assert_eq!(peers[0], candidates[3]);
    assert_eq!(peers[1], candidates[0]);
    assert_eq!(detector.target_at(0), silo("b", 2));
}

#[test]
fn helpers_are_asked_up_to_the_first_yes() {
    let detector = detector();
    let candidates = detector.helper_candidates(&silo("c", 3));
    let peers = detector.choose_helpers(&candidates, &vec![0, 1, 2, 3]);
    assert_eq!(peers.len(), 3);
    assert_eq!(detector.next_helper(&peers, &vec![]), Some(peers[0].clone()));
    assert_eq!(detector.next_helper(&peers, &vec![false]), Some(peers[1].clone()));
    assert_eq!(detector.next_helper(&peers, &vec![false, true]), None);
    assert_eq!(detector.next_helper(&peers, &vec![false, false, false]), None);
    assert!(any_yes(&vec![false, true]));
    assert!(!any_yes(&vec![false, false]));
    assert!(!any_yes(&vec![]));
}

#[test]
fn one_period_spares_those_who_answer() {
    let mut detector = detector();
    let mut ring = HashRing::new(10);
    ring.add(silo("b", 2));
    ring.add(silo("c", 3));
    let mut pool = ConnectionPool::new();
    let mut changes: Vec<MembershipChange> = Vec::new();
    detector.conclude_probe(&silo("c", 3), false, false, at(1));
    detector.conclude_probe(&silo("b", 2), false, false, at(4));
    detector.expire_suspects(&mut ring, &mut pool, &mut changes, at(4));
    assert!(changes.is_empty(), "a suspect has until the timeout");
    detector.conclude_probe(&silo("c", 3), false, true, at(1000));
    detector.expire_suspects(&mut ring, &mut pool, &mut changes, at(1000));
    assert_eq!(changes, vec![MembershipChange::SiloLeft(silo("b", 2))]);
    assert_eq!(detector.swim_state().members.get("c").unwrap().status, MemberStatus::Alive);
    assert_eq!(ring.members(), vec![silo("c", 3)]);
}

#[test]
fn the_ring_holds_the_members_after_any_news() {
    let mut node = Node::new("a");
    let news = vec![
        GossipUpdate::Join { addr: silo("b", 2) },
        GossipUpdate::Join { addr: silo("c", 3) },
        GossipUpdate::Dead { addr: silo("b", 2), incarnation: 0 },
        GossipUpdate::Dead { addr: silo("a", 1), incarnation: 9 },
        GossipUpdate::Join { addr: silo("d", 4) },
        GossipUpdate::Join { addr: silo("a", 1) },
        GossipUpdate::Dead { addr: silo("e", 5), incarnation: 0 },
    ];
    node.hear(news, at(0));
    let mut on_ring: Vec<String> =
        node.ring.members().iter().map(|s| s.silo_id.clone()).collect();
    on_ring.sort();
    assert_eq!(on_ring, vec!["a".to_string(), "c".to_string(), "d".to_string()]);
    assert_eq!(node.state.live_member_ids(), vec!["c".to_string(), "d".to_string()]);
    assert_eq!(
        node.changes,
        vec![
            MembershipChange::SiloJoined(silo("b", 2)),
            MembershipChange::SiloJoined(silo("c", 3)),
            MembershipChange::SiloLeft(silo("b", 2)),
            MembershipChange::SiloJoined(silo("d", 4)),
        ]
    );
}

#[test]
fn probes_decide_about_a_member() {
    let mut detector = detector();
    let target = silo("c", 3);
    detector.conclude_probe(&target, false, true, at(5));
    assert_eq!(detector.swim_state().members.get("c").unwrap().status, MemberStatus::Alive);
    detector.conclude_probe(&target, false, false, at(6));
    assert!(matches!(
        detector.swim_state().members.get("c").unwrap().status,
        MemberStatus::Suspect { .. }
    ));
    assert_eq!(detector.probe_gossip().len(), 1);
    detector.conclude_probe(&target, true, false, at(7));
    assert_eq!(detector.swim_state().members.get("c").unwrap().status, MemberStatus::Alive);
}

#[test]
fn a_silent_member_is_expired() {
    let mut detector = detector();
    let mut ring = HashRing::new(10);
    ring.add(silo("a", 1));
    ring.add(silo("c", 3));
    let mut pool = ConnectionPool::new();
    let mut changes: Vec<MembershipChange> = Vec::new();
    detector.conclude_probe(&silo("c", 3), false, false, at(1));
    detector.expire_suspects(&mut ring, &mut pool, &mut changes, at(1000));
    assert_eq!(changes, vec![MembershipChange::SiloLeft(silo("c", 3))]);
    assert_eq!(ring.members(), vec![silo("a", 1)]);
}

#[test]
fn legacy_settings_are_carried_over() {
    let config = FailureDetectorConfig::from_legacy(
        Duration::from_secs(2),
        Duration::from_millis(500),
        3,
    );
    assert_eq!(config.protocol_period, Duration::from_secs(2));
    assert_eq!(config.ping_timeout, Duration::from_millis(500));
    assert_eq!(config.suspect_timeout, Duration::from_secs(6));
    assert_eq!(config.indirect_timeout(), Duration::from_secs(1));
}
