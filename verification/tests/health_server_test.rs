use orlando_cluster::health_server::{healthz, readyz, ring_joined};
use orlando_cluster::{HashRing, SiloAddress};

fn joined() -> HashRing {
    let mut ring = HashRing::new(150);
    ring.add(SiloAddress { host: "127.0.0.1".into(), port: 7001, silo_id: "s1".into() });
    ring
}

#[test]
fn healthz_always_returns_200() {
    assert_eq!(healthz().status, 200);
}

#[test]
fn readyz_503_when_ring_empty() {
    let ring = HashRing::new(150);
    assert!(!ring_joined(&ring));
    assert_eq!(readyz(&ring, None).status, 503);
}

#[test]
fn readyz_200_when_ring_has_member_and_no_probe() {
    let ring = joined();
    assert!(ring_joined(&ring));
    assert_eq!(readyz(&ring, None).status, 200);
}

#[test]
fn readyz_503_when_store_probe_fails() {
    let ring = joined();
    let answer = readyz(&ring, Some(Err("db unreachable".to_string())));
    assert_eq!(answer.status, 503);
}

#[test]
fn readyz_200_when_store_probe_passes() {
    assert_eq!(readyz(&joined(), Some(Ok(()))).status, 200);
}
