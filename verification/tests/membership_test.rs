use orlando_cluster::cluster_silo::Announcement;
use orlando_cluster::error::{Code, Status};
use orlando_cluster::membership::RateLimiter;
use orlando_cluster::proto::ProtoSiloAddress;
use orlando_cluster::swim::{gossip_to_proto, proto_to_gossip, GossipUpdate, SwimState};
use orlando_cluster::time::{Duration, Instant};
use orlando_cluster::{
    ClusterSilo, ConnectionPool, FailureDetector, HashRing, MembershipChange, MembershipService,
    MessageRegistry, SiloAddress,
};

fn silo(id: &str, port: u16) -> SiloAddress {
    SiloAddress { host: "127.0.0.1".into(), port, silo_id: id.into() }
}

fn wire(id: &str, port: u32) -> Option<ProtoSiloAddress> {
    Some(ProtoSiloAddress { host: "127.0.0.1".into(), port, silo_id: id.into() })
}

fn at(millis: u64) -> Instant {
    Instant { nanos: millis * 1_000_000 }
}

struct Seed {
    service: MembershipService,
    state: SwimState,
    ring: HashRing,
    pool: ConnectionPool,
    changes: Vec<MembershipChange>,
}

fn seed() -> Seed {
    let mut ring = HashRing::new(150);
    ring.add(silo("seed", 1));
    Seed {
        service: MembershipService::new(silo("seed", 1), 6, at(0)),
        state: SwimState::new(silo("seed", 1)),
        ring,
        pool: ConnectionPool::new(),
        changes: Vec::new(),
    }
}

fn refused() -> Result<(), Status> {
    Err(Status::new(Code::Unauthenticated, "who are you"))
}

#[test]
fn membership_join_and_get_members() {
    let mut s = seed();
    let members = s
        .service
        .join(
            Ok(()),
            wire("newcomer", 9999),
            &mut s.state,
            &mut s.ring,
            &mut s.changes,
            at(10),
        )
        .unwrap();
    assert!(members.len() >= 2, "expected at least 2 members after join");

    let members = s.service.get_members(Ok(()), &s.ring).unwrap();
    let ids: Vec<String> = members.iter().map(|m| m.silo_id.clone()).collect();
    assert!(ids.contains(&"seed".to_string()));
    assert!(ids.contains(&"newcomer".to_string()));
    assert_eq!(s.changes, vec![MembershipChange::SiloJoined(silo("newcomer", 9999))]);
    assert_eq!(
        s.state.drain_gossip(10),
        vec![GossipUpdate::Join { addr: silo("newcomer", 9999) }]
    );
}

#[test]
fn a_join_without_an_address_is_refused() {
    let mut s = seed();
    let status = s
        .service
        .join(Ok(()), None, &mut s.state, &mut s.ring, &mut s.changes, at(10))
        .unwrap_err();
    assert_eq!(status.code, Code::InvalidArgument);
    assert_eq!(s.ring.members().len(), 1);
    assert!(s.changes.is_empty());
}

#[test]
fn a_join_from_a_stranger_is_refused() {
    let mut s = seed();
    let status = s
        .service
        .join(
            refused(),
            wire("newcomer", 9999),
            &mut s.state,
            &mut s.ring,
            &mut s.changes,
            at(10),
        )
        .unwrap_err();
    assert_eq!(status, Status::new(Code::Unauthenticated, "who are you"));
    assert_eq!(s.ring.members().len(), 1);
    assert!(s.service.get_members(refused(), &s.ring).is_err());
}

#[test]
fn joins_are_limited() {
    let mut s = seed();
    let mut passed: u32 = 0;
    let mut last: Option<Status> = None;
    for i in 0..200 {
        let answer = s.service.join(
            Ok(()),
            wire("newcomer", i),
            &mut s.state,
            &mut s.ring,
            &mut s.changes,
            at(10),
        );
        match answer {
            Ok(_) => passed += 1,
            Err(status) => last = Some(status),
        }
    }
    assert!(passed < 200);
    assert_eq!(last.unwrap().code, Code::ResourceExhausted);
}

#[test]
fn the_limiter_counts_by_the_second() {
    let mut limiter = RateLimiter::new(2, at(0));
    assert!(limiter.check(at(0)).is_ok());
    assert!(limiter.check(at(999)).is_ok());
    assert_eq!(limiter.check(at(999)).unwrap_err().code, Code::ResourceExhausted);
    assert!(limiter.check(at(1000)).is_ok());
    assert!(limiter.check(at(1000)).is_ok());
    assert!(limiter.check(at(1000)).is_err());
}

#[test]
fn notices_of_joining_and_leaving_are_taken_in() {
    let mut s = seed();
    s.service
        .notify_join(Ok(()), wire("b", 2), &mut s.state, &mut s.ring, &mut s.changes, at(10))
        .unwrap();
    assert!(s.state.knows("b"));
    assert_eq!(s.ring.members().len(), 2);
    s.service
        .notify_leave(Ok(()), wire("b", 2), &mut s.state, &mut s.ring, &mut s.changes)
        .unwrap();
    assert!(!s.state.knows("b"));
    assert_eq!(s.ring.members(), vec![silo("seed", 1)]);
    assert_eq!(
        s.changes,
        vec![
            MembershipChange::SiloJoined(silo("b", 2)),
            MembershipChange::SiloLeft(silo("b", 2)),
        ]
    );
    let status = s
        .service
        .notify_leave(Ok(()), None, &mut s.state, &mut s.ring, &mut s.changes)
        .unwrap_err();
    assert_eq!(status.code, Code::InvalidArgument);
}

#[test]
fn gossip_rides_on_pings() {
    let mut s = seed();
    let news = gossip_to_proto(&vec![GossipUpdate::Join { addr: silo("b", 2) }]);
    s.state.enqueue_gossip(GossipUpdate::Join { addr: silo("c", 3) });
    let answer = s
        .service
        .ping(Ok(()), &news, &mut s.state, &mut s.ring, &mut s.pool, &mut s.changes, at(10))
        .unwrap();
    assert_eq!(answer.silo_id, "seed");
    assert_eq!(
        answer.gossip,
        gossip_to_proto(&vec![GossipUpdate::Join { addr: silo("c", 3) }])
    );
    assert!(s.state.knows("b"));
    assert_eq!(s.changes, vec![MembershipChange::SiloJoined(silo("b", 2))]);
}

#[test]
fn indirect_pings_name_their_target() {
    let mut s = seed();
    let target = s
        .service
        .ping_req(
            Ok(()),
            &Vec::new(),
            wire("b", 2),
            &mut s.state,
            &mut s.ring,
            &mut s.pool,
            &mut s.changes,
            at(10),
        )
        .unwrap();
    assert_eq!(target, silo("b", 2));
    let status = s
        .service
        .ping_req(
            Ok(()),
            &Vec::new(),
            None,
            &mut s.state,
            &mut s.ring,
            &mut s.pool,
            &mut s.changes,
            at(10),
        )
        .unwrap_err();
    assert_eq!(status.code, Code::InvalidArgument);
    let answer = s.service.ping_req_answer(true, &mut s.state);
    assert!(answer.target_alive);
    assert!(s.service.ping_target_timeout().at_least(Duration::from_millis(1)));
}

#[test]
fn grains_are_looked_up_by_a_known_type() {
    let s = seed();
    let mut registry = MessageRegistry::new();
    registry.register("Counter", "Increment", "t::Counter", 0, None, 1);
    let grain = s.service.lookup_grain(Ok(()), &registry, "Counter", "k").unwrap().unwrap();
    assert_eq!(grain.key, "k");
    assert_eq!(grain.grain_type, "Counter");
    assert_eq!(s.service.lookup_grain(Ok(()), &registry, "Nobody", "k"), Ok(None));
    let found = s.service.lookup_answer(true);
    assert!(found.active);
    assert_eq!(found.silo_id, "seed");
    assert_eq!(found.endpoint, "127.0.0.1:1");
    assert!(!s.service.lookup_answer(false).active);
}

struct Peer {
    silo: ClusterSilo,
    service: MembershipService,
    pool: ConnectionPool,
    changes: Vec<MembershipChange>,
}

fn peer(id: &str, port: u16) -> Peer {
    Peer {
        silo: ClusterSilo::builder().host("127.0.0.1").port(port).silo_id(id).build(),
        service: MembershipService::new(silo(id, port), 10, at(0)),
        pool: ConnectionPool::new(),
        changes: Vec::new(),
    }
}

/// Lets one silo join through another, and gives what the others are to be told.
fn join(joiner: &mut Peer, seed: &mut Peer) -> Vec<Announcement> {
    let members = seed
        .service
        .join(
            Ok(()),
            Some(joiner.silo.join_request().inner),
            &mut seed.silo.swim_state,
            &mut seed.silo.ring,
            &mut seed.changes,
            at(1),
        )
        .unwrap();
    let (changes, told) = joiner.silo.join_cluster(&members, &seed.silo.local_addr().endpoint());
    joiner.changes.extend(changes);
    told
}

fn member_ids(p: &Peer) -> Vec<String> {
    p.silo.ring.members().iter().map(|m| m.silo_id.clone()).collect()
}

#[test]
fn gossip_propagates_join_to_all_members() {
    let (mut a, mut b, mut c) = (peer("silo-a", 1), peer("silo-b", 2), peer("silo-c", 3));
    assert!(join(&mut b, &mut a).is_empty());
    let told = join(&mut c, &mut a);
    assert_eq!(told.len(), 1);
    assert_eq!(told[0].endpoint, silo("silo-b", 2).endpoint());
    b.service
        .notify_join(
            Ok(()),
            Some(told[0].request.inner.clone()),
            &mut b.silo.swim_state,
            &mut b.silo.ring,
            &mut b.changes,
            at(2),
        )
        .unwrap();
    let ids = member_ids(&b);
    assert!(
        ids.contains(&"silo-a".to_string()),
        "silo-b should know about silo-a, got {:?}",
        ids
    );
    assert!(
        ids.contains(&"silo-c".to_string()),
        "silo-b should know about silo-c via gossip, got {:?}",
        ids
    );
}

#[test]
fn swim_gossip_piggybacks_on_ping() {
    let (mut a, mut b, mut c) = (peer("silo-a", 1), peer("silo-b", 2), peer("silo-c", 3));
    join(&mut b, &mut a);
    join(&mut c, &mut a);
    assert!(!member_ids(&b).contains(&"silo-c".to_string()));
    // b pings a, and learns of c from what comes back.
    let pong = a
        .service
        .ping(
            Ok(()),
            &Vec::new(),
            &mut a.silo.swim_state,
            &mut a.silo.ring,
            &mut a.pool,
            &mut a.changes,
            at(3),
        )
        .unwrap();
    let news = proto_to_gossip(&pong.gossip);
    b.silo.swim_state.apply_gossip(&news, &mut b.silo.ring, &mut b.pool, &mut b.changes, at(3));
    assert!(member_ids(&b).contains(&"silo-c".to_string()));
    // All three now agree on every grain.
    for i in 0..6 {
        let key = format!("Counter/gossip-counter-{}", i);
        let owner = a.silo.ring.get(&key).unwrap();
        assert_eq!(b.silo.ring.get(&key).unwrap(), owner);
        assert_eq!(c.silo.ring.get(&key).unwrap(), owner);
    }
}

#[test]
fn failure_detector_removes_dead_silo() {
    let (mut a, mut b) = (peer("silo-a", 1), peer("silo-b", 2));
    join(&mut b, &mut a);
    assert_eq!(member_ids(&a).len(), 2);
    let config = a.silo.failure_detector_config;
    let mut detector = FailureDetector::with_state(config, a.silo.swim_state.clone());
    assert_eq!(detector.pick_target(), Some(silo("silo-b", 2)));
    assert!(detector.indirect_peers(&silo("silo-b", 2)).is_empty());
    detector.conclude_probe(&silo("silo-b", 2), false, false, at(10));
    detector.expire_suspects(&mut a.silo.ring, &mut a.pool, &mut a.changes, at(15_011));
    assert_eq!(member_ids(&a), vec!["silo-a".to_string()]);
    assert_eq!(a.changes.last(), Some(&MembershipChange::SiloLeft(silo("silo-b", 2))));
}
