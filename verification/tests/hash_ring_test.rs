use orlando_cluster::hash_ring::{hash_key, ring_place};
use orlando_cluster::{
    HashBasedPlacement, HashRing, PlacementStrategy, PreferLocalPlacement, RandomPlacement,
    SiloAddress,
};

fn silo(id: &str, port: u16) -> SiloAddress {
    SiloAddress {
        host: "127.0.0.1".into(),
        port,
        silo_id: id.into(),
    }
}

#[test]
fn consistent_placement() {
    let mut ring = HashRing::new(150);
    ring.add(SiloAddress {
        host: "127.0.0.1".into(),
        port: 5001,
        silo_id: "silo-a".into(),
    });
    ring.add(SiloAddress {
        host: "127.0.0.1".into(),
        port: 5002,
        silo_id: "silo-b".into(),
    });

    // Same key always maps to same silo
    let first = ring.get("my-grain/key-1").unwrap().silo_id.clone();
    let second = ring.get("my-grain/key-1").unwrap().silo_id.clone();
    assert_eq!(first, second);
}

#[test]
fn distributes_across_silos() {
    let mut ring = HashRing::new(150);
    ring.add(SiloAddress {
        host: "127.0.0.1".into(),
        port: 5001,
        silo_id: "silo-a".into(),
    });
    ring.add(SiloAddress {
        host: "127.0.0.1".into(),
        port: 5002,
        silo_id: "silo-b".into(),
    });

    let mut a_count: u32 = 0;
    let mut b_count: u32 = 0;
    for i in 0..100 {
        let target = ring.get(&format!("grain/{}", i)).unwrap();
        if target.silo_id == "silo-a" {
            a_count += 1;
        } else {
            b_count += 1;
        }
    }

    // Both silos should get some grains (not all on one)
    assert!(a_count > 10, "silo-a got {a_count} grains, expected > 10");
    assert!(b_count > 10, "silo-b got {b_count} grains, expected > 10");
}

#[test]
fn remove_silo() {
    let mut ring = HashRing::new(150);
    let silo_a = SiloAddress {
        host: "127.0.0.1".into(),
        port: 5001,
        silo_id: "silo-a".into(),
    };
    let silo_b = SiloAddress {
        host: "127.0.0.1".into(),
        port: 5002,
        silo_id: "silo-b".into(),
    };
    ring.add(silo_a.clone());
    ring.add(silo_b);

    ring.remove(&silo_a);

    // All grains now go to silo-b
    for i in 0..20 {
        let target = ring.get(&format!("grain/{}", i)).unwrap();
        assert_eq!(target.silo_id, "silo-b");
    }
}

#[test]
fn hash_is_fnv1a_of_the_bytes() {
    assert_eq!(hash_key(""), 0xcbf29ce484222325);
    assert_eq!(hash_key("a"), 0xaf63dc4c8601ec8c);
    assert_eq!(hash_key("silo-a:0"), 0x1f7b8b13760ecf20);
    assert_eq!(hash_key("größe"), 0xb7450e1ef58140da);
}

#[test]
fn places_are_one_step_past_the_hash() {
    assert_eq!(ring_place(""), 0xaf64724c8602eb6e);
    assert_eq!(ring_place("a"), 0x89bc907b544c769);
    assert_eq!(ring_place("silo-a:0"), 0x8dbd31119b2b37ed);
    assert_eq!(ring_place("größe"), 0xeb97239b2a9ffedf);
}

#[test]
fn members_are_those_added_and_not_removed() {
    let mut ring = HashRing::new(30);
    ring.add(silo("silo-a", 1));
    ring.add(silo("silo-b", 2));
    ring.add(silo("silo-c", 3));
    ring.remove(&silo("silo-b", 2));
    ring.add(silo("silo-a", 9));
    let members = ring.members();
    assert_eq!(members.len(), 2);
    assert!(members.contains(&silo("silo-a", 9)), "the address last added counts");
    assert!(members.contains(&silo("silo-c", 3)));
    ring.remove(&silo("silo-c", 3));
    ring.remove(&silo("silo-a", 1));
    assert!(ring.members().is_empty());
    assert!(ring.is_empty());
}

#[test]
fn endpoint_is_host_and_port() {
    assert_eq!(silo("x", 5001).endpoint(), "127.0.0.1:5001");
    assert_eq!(silo("x", 0).endpoint(), "127.0.0.1:0");
    assert_eq!(silo("x", 65535).endpoint(), "127.0.0.1:65535");
}

#[test]
fn empty_ring_owns_nothing() {
    let ring = HashRing::new(150);
    assert!(ring.is_empty());
    assert!(ring.get("anything").is_none());
    assert!(ring.members().is_empty());
    let mut barren = HashRing::new(0);
    barren.add(silo("silo-a", 1));
    assert!(barren.is_empty(), "a silo without virtual nodes takes no position");
}

#[test]
fn members_are_listed_once() {
    let mut ring = HashRing::new(150);
    ring.add(silo("silo-a", 1));
    ring.add(silo("silo-b", 2));
    ring.add(silo("silo-a", 1));
    let members = ring.members();
    assert_eq!(members.len(), 2);
    assert!(members.contains(&silo("silo-a", 1)));
    assert!(members.contains(&silo("silo-b", 2)));
}

#[test]
fn a_joining_silo_moves_keys_only_to_itself() {
    let mut ring = HashRing::new(50);
    ring.add(silo("silo-a", 1));
    ring.add(silo("silo-b", 2));
    let before = ring.clone();
    ring.add(silo("silo-c", 3));
    let mut moved: u32 = 0;
    for i in 0..200 {
        let key = format!("k{}", i);
        let old = before.get(&key).unwrap();
        let new = ring.get(&key).unwrap();
        if old != new {
            assert_eq!(new.silo_id, "silo-c");
            moved += 1;
        }
    }
    assert!(moved > 0);
}

#[test]
fn removing_undoes_adding_a_silo() {
    let mut ring = HashRing::new(40);
    ring.add(silo("silo-a", 1));
    let before = ring.clone();
    ring.add(silo("silo-b", 2));
    assert!(ring != before);
    ring.remove(&silo("silo-b", 2));
    assert_eq!(ring, before);
}

#[test]
fn joining_order_makes_no_difference() {
    let mut one = HashRing::new(40);
    one.add(silo("silo-a", 1));
    one.add(silo("silo-b", 2));
    let mut other = HashRing::new(40);
    other.add(silo("silo-b", 2));
    other.add(silo("silo-a", 1));
    assert_eq!(one, other);
}

#[test]
fn a_silo_is_removed_by_its_identity_alone() {
    let mut ring = HashRing::new(10);
    ring.add(silo("silo-a", 1));
    ring.remove(&silo("silo-a", 9));
    assert!(ring.is_empty());
}

#[test]
fn placement_strategies() {
    let mut ring = HashRing::new(150);
    assert!(HashBasedPlacement.place("G", "k", "silo-a", &ring).is_none());
    assert!(PreferLocalPlacement.place("G", "k", "silo-a", &ring).is_none());
    assert!(RandomPlacement.place("G", "k", "silo-a", &ring).is_none());

    ring.add(silo("silo-a", 1));
    ring.add(silo("silo-b", 2));
    assert_eq!(
        HashBasedPlacement.place("G", "k", "silo-a", &ring).as_ref(),
        ring.get("G/k")
    );
    assert_eq!(
        PreferLocalPlacement.place("G", "k", "silo-b", &ring),
        Some(silo("silo-b", 2))
    );
    assert!(PreferLocalPlacement.place("G", "k", "silo-z", &ring).is_none());

    let mut seen_a: bool = false;
    let mut seen_b: bool = false;
    for _ in 0..200 {
        let target = RandomPlacement.place("G", "k", "silo-a", &ring).unwrap();
        if target.silo_id == "silo-a" {
            seen_a = true;
        }
        if target.silo_id == "silo-b" {
            seen_b = true;
        }
    }
    assert!(seen_a && seen_b, "both members are picked sooner or later");
    assert_eq!(RandomPlacement.place_at(&ring, 0), Some(ring.members()[0].clone()));
    assert!(RandomPlacement.place_at(&ring, 2).is_none());
}
