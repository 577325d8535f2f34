use orlando_cluster::failover::SweepTally;
use orlando_cluster::time::{millis_to_systemtime, Duration, Instant, SystemTime};
use orlando_cluster::{
    ClusterId, CrossClusterDirectory, DirectoryError, FailoverConfig, FailoverManager,
    FailoverPhase, GrainId, GrainOwnership, InMemoryCrossClusterDirectory, PeerStatus,
};

fn grain(key: &str) -> GrainId {
    GrainId { grain_type: "Counter", key: key.to_string() }
}

fn at(secs: u64) -> Instant {
    Instant { nanos: secs * 1_000_000_000 }
}

fn manager(id: &str) -> FailoverManager {
    FailoverManager::new(ClusterId::new(id), FailoverConfig::default())
}

#[test]
fn promote_grain_increments_epoch() {
    let mut dir = InMemoryCrossClusterDirectory::new();
    let cluster_a = ClusterId::new("cluster-a");
    let cluster_b = ClusterId::new("cluster-b");
    let grain_id = grain("failover-1");

    let ownership = dir.register(&grain_id, &cluster_a, 1).unwrap();
    assert_eq!(ownership.cluster_id, cluster_a);

    let manager = manager("cluster-b");
    let result = manager.promote_grain(&mut dir, &grain_id, &ownership).unwrap();
    assert_eq!(result.cluster_id, cluster_b);
    assert_eq!(result.epoch, 2);

    let lookup = dir.lookup(&grain_id).unwrap().unwrap();
    assert_eq!(lookup.cluster_id, cluster_b);
    assert_eq!(lookup.epoch, 2);
}

#[test]
fn concurrent_promotion_only_one_wins() {
    let mut dir = InMemoryCrossClusterDirectory::new();
    let cluster_a = ClusterId::new("cluster-a");
    let cluster_b = ClusterId::new("cluster-b");
    let cluster_c = ClusterId::new("cluster-c");
    let grain_id = grain("failover-2");

    let _ownership = dir.register(&grain_id, &cluster_a, 1).unwrap();

    let result_b = dir.register(&grain_id, &cluster_b, 2).unwrap();
    assert_eq!(result_b.cluster_id, cluster_b);
    assert_eq!(result_b.epoch, 2);

    let result_c = dir.register(&grain_id, &cluster_c, 2).unwrap();
    assert_eq!(result_c.cluster_id, cluster_b, "C at same epoch should not win over B");
}

#[test]
fn stale_primary_fenced_after_promotion() {
    let mut dir = InMemoryCrossClusterDirectory::new();
    let cluster_a = ClusterId::new("cluster-a");
    let cluster_b = ClusterId::new("cluster-b");
    let grain_id = grain("failover-3");

    dir.register(&grain_id, &cluster_a, 1).unwrap();
    dir.register(&grain_id, &cluster_b, 2).unwrap();

    let result = dir.register(&grain_id, &cluster_a, 1).unwrap();
    assert_eq!(result.cluster_id, cluster_b);
    assert_eq!(result.epoch, 2);

    let result = dir.register(&grain_id, &cluster_a, 2).unwrap();
    assert_eq!(result.cluster_id, cluster_b);
}

#[test]
fn list_owned_by_returns_matching_grains() {
    let mut dir = InMemoryCrossClusterDirectory::new();
    let cluster_a = ClusterId::new("cluster-a");
    let cluster_b = ClusterId::new("cluster-b");

    dir.register(&grain("g1"), &cluster_a, 1).unwrap();
    dir.register(&grain("g2"), &cluster_a, 1).unwrap();
    dir.register(&grain("g3"), &cluster_b, 1).unwrap();

    let owned_by_a = dir.list_owned_by(&cluster_a).unwrap();
    assert_eq!(owned_by_a.len(), 2);
    let mut keys: Vec<_> = owned_by_a.iter().map(|(g, _)| g.key.clone()).collect();
    keys.sort();
    assert_eq!(keys, vec!["g1", "g2"]);

    let owned_by_b = dir.list_owned_by(&cluster_b).unwrap();
    assert_eq!(owned_by_b.len(), 1);
    assert_eq!(owned_by_b[0].0.key, "g3");
}

#[test]
fn promotion_sweep_promotes_every_grain_owned_by_failed_cluster() {
    let mut dir = InMemoryCrossClusterDirectory::new();
    let cluster_a = ClusterId::new("cluster-a");
    let cluster_b = ClusterId::new("cluster-b");

    for k in ["x", "y", "z"] {
        dir.register(&grain(k), &cluster_a, 1).unwrap();
    }
    dir.register(&grain("untouched"), &cluster_b, 1).unwrap();

    let owned_by_a = dir.list_owned_by(&cluster_a).unwrap();
    assert_eq!(owned_by_a.len(), 3);

    let manager = manager("cluster-b");
    for (gid, ownership) in owned_by_a {
        let r = manager.promote_grain(&mut dir, &gid, &ownership).unwrap();
        assert_eq!(r.cluster_id, cluster_b);
        assert_eq!(r.epoch, 2);
    }

    for k in ["x", "y", "z"] {
        let o = dir.lookup(&grain(k)).unwrap().unwrap();
        assert_eq!(o.cluster_id, cluster_b);
        assert_eq!(o.epoch, 2);
    }
    let o = dir.lookup(&grain("untouched")).unwrap().unwrap();
    assert_eq!(o.cluster_id, cluster_b);
    assert_eq!(o.epoch, 1);
}

#[test]
fn one_sweep_takes_everything_over() {
    let mut dir = InMemoryCrossClusterDirectory::new();
    let cluster_a = ClusterId::new("cluster-a");
    let cluster_b = ClusterId::new("cluster-b");
    dir.register(&grain("x"), &cluster_a, 1).unwrap();
    dir.register(&grain("y"), &cluster_a, 6).unwrap();
    dir.register(&grain("z"), &cluster_b, 9).unwrap();

    let tally = manager("cluster-b").sweep(&mut dir, &cluster_a);
    assert_eq!(tally, SweepTally { max_epoch: 7, promoted: 2, lost: 0, failed: 0 });
    assert!(dir.list_owned_by(&cluster_a).unwrap().is_empty());
    assert_eq!(dir.lookup(&grain("y")).unwrap().unwrap().epoch, 7);
    assert_eq!(dir.lookup(&grain("z")).unwrap().unwrap().epoch, 9);
}

#[test]
fn takeover_waits_for_the_grace_period() {
    let cluster_a = ClusterId::new("cluster-a");
    let mut manager = FailoverManager::new(
        ClusterId::new("cluster-b"),
        FailoverConfig {
            grace_period: Duration::from_secs(30),
            check_interval: Duration::from_secs(5),
        },
    );
    assert_eq!(manager.phase(&cluster_a), FailoverPhase::Monitoring);
    assert!(!manager.check(&cluster_a, PeerStatus::Healthy, at(1)));
    assert!(!manager.check(&cluster_a, PeerStatus::Unreachable, at(10)));
    assert_eq!(
        manager.phase(&cluster_a),
        FailoverPhase::PrimaryUnreachable { since: at(10) }
    );
    assert!(!manager.check(&cluster_a, PeerStatus::Unreachable, at(39)));
    let mut sweeps: u32 = 0;
    for t in 40..45 {
        if manager.check(&cluster_a, PeerStatus::Unreachable, at(t)) {
            sweeps += 1;
            manager.swept(
                &cluster_a,
                SweepTally { max_epoch: 2, promoted: 1, lost: 0, failed: 0 },
            );
        }
    }
    assert_eq!(sweeps, 1);
    assert!(matches!(manager.phase(&cluster_a), FailoverPhase::Promoted { .. }));
    assert!(!manager.check(&cluster_a, PeerStatus::Healthy, at(50)));
    assert_eq!(manager.phase(&cluster_a), FailoverPhase::Monitoring);
}

#[test]
fn failed_takeovers_are_tried_again() {
    let cluster_a = ClusterId::new("cluster-a");
    let mut manager = manager("cluster-b");
    manager.check(&cluster_a, PeerStatus::Unreachable, at(10));
    manager.check(&cluster_a, PeerStatus::Unreachable, at(40));
    assert!(manager.check(&cluster_a, PeerStatus::Unreachable, at(45)));
    manager.swept(&cluster_a, SweepTally { max_epoch: 2, promoted: 1, lost: 0, failed: 1 });
    assert_eq!(manager.phase(&cluster_a), FailoverPhase::Promoting);
    assert!(manager.check(&cluster_a, PeerStatus::Unreachable, at(50)));
    manager.swept(&cluster_a, SweepTally { max_epoch: 3, promoted: 1, lost: 1, failed: 0 });
    assert_eq!(manager.phase(&cluster_a), FailoverPhase::Promoting);
    assert!(manager.check(&cluster_a, PeerStatus::Unreachable, at(52)));
    manager.swept(&cluster_a, SweepTally { max_epoch: 3, promoted: 1, lost: 0, failed: 0 });
    assert_eq!(manager.phase(&cluster_a), FailoverPhase::Promoted { epoch: 3 });
    assert!(!manager.check(&cluster_a, PeerStatus::Unreachable, at(55)));
}

#[test]
fn every_grain_is_claimed_once() {
    let owned = |cluster: &str, epoch: u64| GrainOwnership {
        cluster_id: ClusterId::new(cluster),
        epoch,
        registered_at: SystemTime { unix_nanos: 0 },
    };
    let manager = manager("us");
    let claims = manager.claims(&vec![(grain("x"), owned("eu", 1)), (grain("y"), owned("eu", 6))]);
    assert_eq!(claims.len(), 2);
    assert_eq!((claims[0].grain_id.clone(), claims[0].epoch), (grain("x"), 2));
    assert_eq!((claims[1].grain_id.clone(), claims[1].epoch), (grain("y"), 7));
    assert!(claims.iter().all(|c| c.cluster_id == ClusterId::new("us")));
    let outcomes = vec![
        Err(DirectoryError::Unavailable("down".to_string())),
        Ok(owned("us", 7)),
        Ok(owned("asia", 9)),
        Ok(owned("us", 3)),
    ];
    assert_eq!(
        manager.tally(&outcomes),
        SweepTally { max_epoch: 7, promoted: 2, lost: 1, failed: 1 }
    );
}

#[test]
fn grains_with_slashes_have_their_own_owners() {
    let mut dir = InMemoryCrossClusterDirectory::new();
    let one = GrainId { grain_type: "a/b", key: "c".to_string() };
    let other = GrainId { grain_type: "a", key: "b/c".to_string() };
    dir.register(&one, &ClusterId::new("eu"), 5).unwrap();
    assert_eq!(dir.lookup(&other).unwrap(), None);
    let owner = dir.register(&other, &ClusterId::new("us"), 1).unwrap();
    assert_eq!(owner.cluster_id, ClusterId::new("us"));
    assert_eq!(dir.lookup(&one).unwrap().unwrap().cluster_id, ClusterId::new("eu"));
    dir.deregister(&other, &ClusterId::new("us")).unwrap();
    assert_eq!(dir.lookup(&one).unwrap().unwrap().epoch, 5);
}

#[test]
fn a_recovering_peer_is_not_taken_over() {
    let cluster_a = ClusterId::new("cluster-a");
    let mut manager = manager("cluster-b");
    manager.check(&cluster_a, PeerStatus::Unreachable, at(10));
    manager.check(&cluster_a, PeerStatus::Healthy, at(20));
    assert_eq!(manager.phase(&cluster_a), FailoverPhase::Monitoring);
    assert!(!manager.check(&cluster_a, PeerStatus::Unreachable, at(1000)));
    assert_eq!(
        manager.phase(&cluster_a),
        FailoverPhase::PrimaryUnreachable { since: at(1000) }
    );
}

#[test]
fn tallies_count_outcomes() {
    let us = ClusterId::new("us");
    let owned = |id: &str, epoch: u64| GrainOwnership {
        cluster_id: ClusterId::new(id),
        epoch,
        registered_at: SystemTime { unix_nanos: 0 },
    };
    let mut tally = SweepTally::new();
    tally.record(&us, &Ok(owned("us", 4)));
    tally.record(&us, &Ok(owned("eu", 9)));
    tally.record(&us, &Err(DirectoryError::Unavailable("down".to_string())));
    assert_eq!((tally.promoted, tally.lost, tally.failed), (1, 1, 1));
}

#[test]
fn a_promotion_claims_the_next_epoch() {
    let current = GrainOwnership {
        cluster_id: ClusterId::new("a"),
        epoch: 41,
        registered_at: SystemTime { unix_nanos: 0 },
    };
    assert_eq!(manager("b").promotion(&current), (ClusterId::new("b"), 42));
}

#[test]
fn the_default_check_interval_is_kept() {
    let config = FailoverConfig::default();
    assert_eq!(manager("b").check_interval(), config.check_interval);
    assert_eq!(config.grace_period, Duration::from_secs(30));
}

// Registrations by epoch.

fn test_grain(key: &str) -> GrainId {
    GrainId { grain_type: "TestGrain", key: key.to_string() }
}

#[test]
fn first_writer_wins_at_same_epoch() {
    let mut dir = InMemoryCrossClusterDirectory::new();
    let cluster_a = ClusterId::new("cluster-a");
    let cluster_b = ClusterId::new("cluster-b");
    let grain = test_grain("counter-1");

    let ownership = dir.register(&grain, &cluster_a, 1).unwrap();
    assert_eq!(ownership.cluster_id, cluster_a);
    assert_eq!(ownership.epoch, 1);

    let ownership = dir.register(&grain, &cluster_b, 1).unwrap();
    assert_eq!(ownership.cluster_id, cluster_a, "first writer should win");
    assert_eq!(ownership.epoch, 1);
}

#[test]
fn higher_epoch_reclaims_ownership() {
    let mut dir = InMemoryCrossClusterDirectory::new();
    let cluster_a = ClusterId::new("cluster-a");
    let cluster_b = ClusterId::new("cluster-b");
    let grain = test_grain("counter-2");

    dir.register(&grain, &cluster_a, 1).unwrap();
    let ownership = dir.register(&grain, &cluster_b, 2).unwrap();
    assert_eq!(ownership.cluster_id, cluster_b, "higher epoch should win");
    assert_eq!(ownership.epoch, 2);

    let lookup = dir.lookup(&grain).unwrap().unwrap();
    assert_eq!(lookup.cluster_id, cluster_b);
    assert_eq!(lookup.epoch, 2);
}

#[test]
fn stale_epoch_cannot_reclaim() {
    let mut dir = InMemoryCrossClusterDirectory::new();
    let cluster_a = ClusterId::new("cluster-a");
    let cluster_b = ClusterId::new("cluster-b");
    let grain = test_grain("counter-3");

    dir.register(&grain, &cluster_b, 2).unwrap();
    let ownership = dir.register(&grain, &cluster_a, 1).unwrap();
    assert_eq!(ownership.cluster_id, cluster_b, "stale epoch should not reclaim");
    assert_eq!(ownership.epoch, 2);
}

#[test]
fn deregister_only_works_for_owner() {
    let mut dir = InMemoryCrossClusterDirectory::new();
    let cluster_a = ClusterId::new("cluster-a");
    let cluster_b = ClusterId::new("cluster-b");
    let grain = test_grain("counter-4");

    dir.register(&grain, &cluster_a, 1).unwrap();

    dir.deregister(&grain, &cluster_b).unwrap();
    let ownership = dir.lookup(&grain).unwrap();
    assert!(ownership.is_some(), "B should not be able to deregister A's grain");
    assert_eq!(ownership.unwrap().cluster_id, cluster_a);

    dir.deregister(&grain, &cluster_a).unwrap();
    let ownership = dir.lookup(&grain).unwrap();
    assert!(ownership.is_none(), "A should be able to deregister its own grain");
}

#[test]
fn epoch_increases_through_successive_promotions() {
    let mut dir = InMemoryCrossClusterDirectory::new();
    let a = ClusterId::new("a");
    let b = ClusterId::new("b");
    let c = ClusterId::new("c");
    let grain = test_grain("counter-5");

    dir.register(&grain, &a, 1).unwrap();
    dir.register(&grain, &b, 2).unwrap();

    let ownership = dir.register(&grain, &c, 3).unwrap();
    assert_eq!(ownership.cluster_id, c);
    assert_eq!(ownership.epoch, 3);

    let ownership = dir.register(&grain, &a, 2).unwrap();
    assert_eq!(ownership.cluster_id, c, "epoch 2 should not beat epoch 3");
}

#[test]
fn registrations_note_their_time() {
    let mut dir = InMemoryCrossClusterDirectory::new();
    let a = ClusterId::new("a");
    let first = millis_to_systemtime(1_000);
    let owner = dir.register_at(&grain("g"), &a, 1, first);
    assert_eq!(owner.registered_at, first);
    let again = dir.register_at(&grain("g"), &a, 1, millis_to_systemtime(2_000));
    assert_eq!(again.registered_at, first);
}

#[test]
fn grains_of_two_types_have_their_own_owners() {
    let mut dir = InMemoryCrossClusterDirectory::new();
    dir.register(&grain("k"), &ClusterId::new("a"), 1).unwrap();
    dir.register(&test_grain("k"), &ClusterId::new("b"), 1).unwrap();
    assert_eq!(dir.lookup(&grain("k")).unwrap().unwrap().cluster_id, ClusterId::new("a"));
    assert_eq!(dir.lookup(&test_grain("k")).unwrap().unwrap().cluster_id, ClusterId::new("b"));
}

#[test]
fn renewing_needs_nothing() {
    let mut dir = InMemoryCrossClusterDirectory::new();
    assert_eq!(dir.renew(&grain("k"), &ClusterId::new("a")), Ok(()));
}

#[test]
fn directory_errors_have_texts() {
    let down = DirectoryError::Unavailable("down".to_string());
    assert!(down.to_string().contains("down"));
    let stale = DirectoryError::StaleEpoch { current: 3, requested: 2 };
    let text = stale.to_string();
    assert!(text.contains('3') && text.contains('2'), "{}", text);
}
