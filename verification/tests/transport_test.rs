use orlando_cluster::auth::Metadata;
use orlando_cluster::connection_pool::{
    connect_timeout, ClientTls, Connection, Service, TlsIdentity,
};
use orlando_cluster::error::{Code, Status};
use orlando_cluster::maps::StrMap;
use orlando_cluster::proto::{
    ForwardInvokeRequest, ForwardInvokeResponse, InvokeRequest, InvokeResponse,
};
use orlando_cluster::time::Duration;
use orlando_cluster::transport::{
    handler_response, hops_so_far, others_than, search_hit, InvokeAction, InvokeEvent,
    MAX_PAYLOAD_SIZE,
};
use orlando_cluster::{
    ClusterAuth, ClusterError, ClusterGatewayService, ClusterId, ConnectionPool,
    CrossClusterDirectory, DirectoryError, Encoding, GrainId, GrainTransportService, HashRing,
    InMemoryCrossClusterDirectory, MessageRegistry, SharedSecretAuth, SiloAddress,
};

fn silo(id: &str, port: u16) -> SiloAddress {
    SiloAddress { host: "127.0.0.1".into(), port, silo_id: id.into() }
}

fn registry() -> MessageRegistry {
    let mut registry = MessageRegistry::new();
    registry.register("Counter", "Increment", "t::Counter", 1, None, 42);
    registry
}

fn ring(ids: &[&str]) -> HashRing {
    let mut ring = HashRing::new(50);
    for (i, id) in ids.iter().enumerate() {
        ring.add(silo(id, 1 + i as u16));
    }
    ring
}

fn request(key: &str) -> InvokeRequest {
    InvokeRequest {
        grain_type: "Counter".to_string(),
        grain_key: key.to_string(),
        message_type: "Increment".to_string(),
        payload: vec![1, 2],
        encoding: 0,
        request_context: StrMap::new(),
        message_version: 1,
    }
}

fn grain(key: &str) -> GrainId {
    GrainId { grain_type: "Counter", key: key.to_string() }
}

fn here() -> GrainTransportService {
    GrainTransportService::new("here".to_string())
}

/// A key that the ring gives to the silo with that identity.
fn key_of(ring: &HashRing, id: &str) -> String {
    for i in 0..1000 {
        let key = format!("k{}", i);
        if ring.get(&format!("Counter/{}", key)).unwrap().silo_id == id {
            return key;
        }
    }
    panic!("no key for {}", id)
}

#[test]
fn strangers_are_refused_first() {
    let status = Status::new(Code::Unauthenticated, "no");
    let action = here().invoke(
        &ring(&["there"]),
        &registry(),
        &request("k"),
        InvokeEvent::Received(Err(status.clone())),
    );
    assert!(matches!(action, InvokeAction::Refuse(s) if s == status));
}

#[test]
fn payloads_have_a_limit() {
    let mut req = request("k");
    req.payload = vec![0; MAX_PAYLOAD_SIZE + 1];
    let action =
        here().invoke(&ring(&["here"]), &registry(), &req, InvokeEvent::Received(Ok(())));
    match action {
        InvokeAction::Refuse(status) => {
            assert_eq!(status.code, Code::InvalidArgument);
            assert_eq!(
                status.message,
                "payload size 67108865 exceeds maximum of 67108864 bytes"
            );
        }
        _ => panic!("too large"),
    }
    req.payload = vec![0; MAX_PAYLOAD_SIZE];
    let action =
        here().invoke(&ring(&["here"]), &registry(), &req, InvokeEvent::Received(Ok(())));
    assert!(matches!(action, InvokeAction::ProbeLocal(_)));
}

#[test]
fn calls_on_grains_of_another_silo_are_passed_on() {
    let ring = ring(&["here", "there"]);
    let key = key_of(&ring, "there");
    let mut req = request(&key);
    req.request_context.insert("trace".to_string(), "abc".to_string());
    assert_eq!(here().find_owner(&ring, "Counter", &key), Some("127.0.0.1:2".to_string()));
    match here().invoke(&ring, &registry(), &req, InvokeEvent::Received(Ok(()))) {
        InvokeAction::ForwardToSilo { endpoint, request } => {
            assert_eq!(endpoint, "127.0.0.1:2");
            assert_eq!(request.grain_key, key);
            assert_eq!(request.payload, req.payload);
            assert_eq!(request.message_version, 1);
            assert_eq!(hops_so_far(&request.request_context), 1);
            assert_eq!(request.request_context.get("trace"), Some(&"abc".to_string()));
            // At its owner it goes no further.
            let there = GrainTransportService::new("there".to_string());
            assert!(matches!(
                there.invoke(&ring, &registry(), &request, InvokeEvent::Received(Ok(()))),
                InvokeAction::ProbeLocal(_)
            ));
        }
        _ => panic!("another silo owns the grain"),
    }
}

#[test]
fn gateway_forwards_to_correct_silo() {
    // Any silo of the ring takes any call; each call ends at the silo that owns its grain.
    let ring = ring(&["silo-a", "silo-b", "silo-c"]);
    for i in 0..10 {
        let req = request(&format!("gateway-counter-{}", i));
        let owner = ring.get(&format!("Counter/{}", req.grain_key)).unwrap();
        for id in ["silo-a", "silo-b", "silo-c"] {
            let service = GrainTransportService::new(id.to_string());
            match service.invoke(&ring, &registry(), &req, InvokeEvent::Received(Ok(()))) {
                InvokeAction::ForwardToSilo { endpoint, .. } => {
                    assert_ne!(owner.silo_id, id);
                    assert_eq!(endpoint, owner.endpoint());
                }
                InvokeAction::ProbeLocal(_) => assert_eq!(owner.silo_id, id),
                _ => panic!("a call is passed on or served"),
            }
        }
    }
}

#[test]
fn hops_are_bounded() {
    let ring = ring(&["there"]);
    let mut req = request("k");
    for hops in 0..3 {
        match here().invoke(&ring, &registry(), &req, InvokeEvent::Received(Ok(()))) {
            InvokeAction::ForwardToSilo { request, .. } => {
                req = request;
                assert_eq!(hops_so_far(&req.request_context), hops + 1);
            }
            _ => panic!("hop {}", hops),
        }
    }
    match here().invoke(&ring, &registry(), &req, InvokeEvent::Received(Ok(()))) {
        InvokeAction::Refuse(status) => {
            assert_eq!(status.code, Code::Internal);
            assert!(status.message.starts_with("maximum forwarding hops (3"));
        }
        _ => panic!("three hops are enough"),
    }
}

#[test]
fn an_unreadable_hop_count_is_none() {
    let mut context: StrMap<String> = StrMap::new();
    assert_eq!(hops_so_far(&context), 0);
    context.insert("__orlando_hop_count".to_string(), "many".to_string());
    assert_eq!(hops_so_far(&context), 0);
    context.insert("__orlando_hop_count".to_string(), "4294967296".to_string());
    assert_eq!(hops_so_far(&context), 0);
    context.insert("__orlando_hop_count".to_string(), "7".to_string());
    assert_eq!(hops_so_far(&context), 7);
}

#[test]
fn a_grain_active_here_is_called_here() {
    let ring = ring(&["here", "there"]);
    let key = key_of(&ring, "here");
    let req = request(&key);
    match here().invoke(&ring, &registry(), &req, InvokeEvent::Received(Ok(()))) {
        InvokeAction::ProbeLocal(id) => assert_eq!(id, grain(&key)),
        _ => panic!("the ring gives the grain to this silo"),
    }
    assert!(matches!(
        here().invoke(&ring, &registry(), &req, InvokeEvent::LocalProbed(true)),
        InvokeAction::Dispatch(42)
    ));
}

#[test]
fn a_grain_active_elsewhere_is_called_there() {
    let ring = ring(&["here", "there"]);
    let req = request(&key_of(&ring, "here"));
    match here().invoke(&ring, &registry(), &req, InvokeEvent::LocalProbed(false)) {
        InvokeAction::SearchCluster(others) => assert_eq!(others, vec![silo("there", 2)]),
        _ => panic!("there is another silo to ask"),
    }
    let hit = search_hit(true, "127.0.0.1:2".to_string());
    match here().invoke(&ring, &registry(), &req, InvokeEvent::ClusterSearched(hit)) {
        InvokeAction::ForwardToSilo { endpoint, .. } => assert_eq!(endpoint, "127.0.0.1:2"),
        _ => panic!("the grain is active there"),
    }
    let miss = search_hit(false, "127.0.0.1:2".to_string());
    assert!(matches!(
        here().invoke(&ring, &registry(), &req, InvokeEvent::ClusterSearched(miss)),
        InvokeAction::Dispatch(42)
    ));
    assert_eq!(here().lookup_targets(&ring), others_than(&ring, "here"));
}

#[test]
fn a_sole_silo_asks_nobody() {
    let ring = ring(&["here"]);
    assert!(matches!(
        here().invoke(&ring, &registry(), &request("k"), InvokeEvent::LocalProbed(false)),
        InvokeAction::Dispatch(42)
    ));
}

#[test]
fn unknown_calls_are_answered_with_an_error() {
    let ring = ring(&["here"]);
    let mut req = request("k");
    req.grain_type = "Nobody".to_string();
    match here().invoke(&ring, &registry(), &req, InvokeEvent::Received(Ok(()))) {
        InvokeAction::Answer(response) => {
            assert_eq!(response.error, "unknown grain type: Nobody");
            assert!(response.payload.is_empty());
        }
        _ => panic!("nobody handles it"),
    }
}

#[test]
fn results_and_failures_are_answered() {
    let ring = ring(&["here", "there"]);
    let req = request("k");
    let done = InvokeEvent::Dispatched(Ok((vec![7], Encoding::Protobuf)));
    match here().invoke(&ring, &registry(), &req, done) {
        InvokeAction::Answer(response) => assert_eq!(
            response,
            InvokeResponse { payload: vec![7], error: String::new(), encoding: 1 }
        ),
        _ => panic!("a result is an answer"),
    }
    let reply = InvokeResponse { payload: vec![8], error: String::new(), encoding: 0 };
    match here().invoke(&ring, &registry(), &req, InvokeEvent::SiloAnswered(reply.clone())) {
        InvokeAction::Answer(response) => assert_eq!(response, reply),
        _ => panic!("a reply is an answer"),
    }
    for event in [
        InvokeEvent::SiloUnreachable("down".to_string()),
        InvokeEvent::SiloFailed("down".to_string()),
        InvokeEvent::GatewayUnreachable("down".to_string()),
        InvokeEvent::GatewayFailed("down".to_string()),
    ] {
        match here().invoke(&ring, &registry(), &req, event) {
            InvokeAction::Refuse(status) => assert!(status.message.contains("down")),
            InvokeAction::Answer(response) => assert!(response.error.contains("down")),
            _ => panic!("a failure ends the call"),
        }
    }
    let error = handler_response(Err(ClusterError::HandlerError("bad".to_string())), 1);
    assert!(error.error.contains("bad"));
    assert_eq!(error.encoding, 1);
}

fn clusters(local: &str, silo_id: &str, peer: &str, endpoint: &str) -> GrainTransportService {
    let mut peers: StrMap<String> = StrMap::new();
    peers.insert(peer.to_string(), endpoint.to_string());
    GrainTransportService::new(silo_id.to_string())
        .with_cross_cluster(ClusterId::new(local), peers)
}

#[test]
fn grain_call_dispatches_locally_on_owning_cluster() {
    let mut dir = InMemoryCrossClusterDirectory::new();
    let ring = ring(&["silo-a1"]);
    let a = clusters("cluster-a", "silo-a1", "cluster-b", "127.0.0.1:9");
    let req = request("my-counter");
    let id = match a.invoke(&ring, &registry(), &req, InvokeEvent::Received(Ok(()))) {
        InvokeAction::FindOwner(id) => id,
        _ => panic!("the directory is asked"),
    };
    assert_eq!(id, grain("my-counter"));
    let found = dir.lookup(&id);
    match a.invoke(&ring, &registry(), &req, InvokeEvent::OwnerFound(found)) {
        InvokeAction::RegisterOwner { grain_id, cluster_id, epoch } => {
            assert_eq!(grain_id, id);
            assert_eq!(cluster_id, ClusterId::new("cluster-a"));
            assert_eq!(epoch, 1);
            dir.register(&grain_id, &cluster_id, epoch).unwrap();
        }
        _ => panic!("nobody owns the grain"),
    }
    assert!(matches!(
        a.invoke(&ring, &registry(), &req, InvokeEvent::OwnerRegistered),
        InvokeAction::ProbeLocal(_)
    ));
    assert!(matches!(
        a.invoke(&ring, &registry(), &req, InvokeEvent::LocalProbed(false)),
        InvokeAction::Dispatch(42)
    ));
    let found = dir.lookup(&id);
    assert!(matches!(
        a.invoke(&ring, &registry(), &req, InvokeEvent::OwnerFound(found)),
        InvokeAction::ProbeLocal(_)
    ));
}

#[test]
fn grain_call_from_non_owner_forwards_to_owning_cluster() {
    let mut dir = InMemoryCrossClusterDirectory::new();
    let cluster_a_id = ClusterId::new("cluster-a");
    dir.register(&grain("shared-counter"), &cluster_a_id, 1).unwrap();

    let ring = ring(&["silo-b1"]);
    let b = clusters("cluster-b", "silo-b1", "cluster-a", "127.0.0.1:8");
    let req = request("shared-counter");
    let found = dir.lookup(&grain("shared-counter"));
    let forwarded = match b.invoke(&ring, &registry(), &req, InvokeEvent::OwnerFound(found)) {
        InvokeAction::ForwardToCluster { endpoint, request } => {
            assert_eq!(endpoint, "127.0.0.1:8");
            assert_eq!(request.source_cluster_id, "cluster-b");
            request
        }
        _ => panic!("cluster-a owns the grain"),
    };
    let gateway = ClusterGatewayService::new("cluster-a".to_string());
    assert_eq!(gateway.forward_invoke(&registry(), &forwarded), Ok(42));
    let answer = gateway.forward_answer(Ok((vec![17], Encoding::Bincode)), forwarded.encoding);
    match b.invoke(&ring, &registry(), &req, InvokeEvent::GatewayAnswered(answer)) {
        InvokeAction::Answer(response) => {
            assert_eq!(response.payload, vec![17]);
            assert!(response.error.is_empty());
        }
        _ => panic!("the gateway's answer is the answer"),
    }
}

#[test]
fn deregister_allows_new_owner() {
    let mut shared_dir = InMemoryCrossClusterDirectory::new();
    let cluster_a_id = ClusterId::new("cluster-a");
    let cluster_b_id = ClusterId::new("cluster-b");
    let grain_id = grain("handoff-counter");
    shared_dir.register(&grain_id, &cluster_a_id, 1).unwrap();
    let ownership = shared_dir.lookup(&grain_id).unwrap();
    assert_eq!(ownership.unwrap().cluster_id, cluster_a_id);

    shared_dir.deregister(&grain_id, &cluster_a_id).unwrap();
    let ownership = shared_dir.lookup(&grain_id).unwrap();
    assert!(ownership.is_none(), "grain should be deregistered");

    let b = clusters("cluster-b", "silo-b1", "cluster-a", "127.0.0.1:8");
    let req = request("handoff-counter");
    let found = shared_dir.lookup(&grain_id);
    match b.invoke(&ring(&["silo-b1"]), &registry(), &req, InvokeEvent::OwnerFound(found)) {
        InvokeAction::RegisterOwner { grain_id, cluster_id, epoch } => {
            shared_dir.register(&grain_id, &cluster_id, epoch).unwrap();
        }
        _ => panic!("nobody owns the grain"),
    }
    let ownership = shared_dir.lookup(&grain_id).unwrap();
    assert!(ownership.is_some(), "grain should be re-registered");
    assert_eq!(ownership.unwrap().cluster_id, cluster_b_id);
}

#[test]
fn grains_are_served_when_the_directory_is_down() {
    let a = clusters("cluster-a", "silo-a1", "cluster-b", "127.0.0.1:9");
    let down = InvokeEvent::OwnerFound(Err(DirectoryError::Unavailable("down".to_string())));
    assert!(matches!(
        a.invoke(&ring(&["silo-a1"]), &registry(), &request("k"), down),
        InvokeAction::ProbeLocal(_)
    ));
}

#[test]
fn an_owner_without_a_gateway_is_passed_over() {
    let mut dir = InMemoryCrossClusterDirectory::new();
    dir.register(&grain("k"), &ClusterId::new("unheard-of"), 1).unwrap();
    let a = clusters("cluster-a", "silo-a1", "cluster-b", "127.0.0.1:9");
    let found = InvokeEvent::OwnerFound(dir.lookup(&grain("k")));
    assert!(matches!(
        a.invoke(&ring(&["silo-a1"]), &registry(), &request("k"), found),
        InvokeAction::ProbeLocal(_)
    ));
}

#[test]
fn cluster_ping_responds() {
    let gateway = ClusterGatewayService::new("test-cluster".to_string());
    assert_eq!(gateway.cluster_ping().cluster_id, "test-cluster");
}

#[test]
fn gateways_check_what_they_are_sent() {
    let gateway = ClusterGatewayService::new("eu".to_string());
    let req = ForwardInvokeRequest {
        grain_type: "Counter".to_string(),
        grain_key: "k".to_string(),
        message_type: "Increment".to_string(),
        payload: Vec::new(),
        encoding: 0,
        request_context: StrMap::new(),
        source_cluster_id: "us".to_string(),
        message_version: 9,
    };
    let refused: ForwardInvokeResponse = gateway.forward_invoke(&registry(), &req).unwrap_err();
    assert_eq!(refused.error, "unsupported version of message Increment: 9 is newer than 1");
    let failed =
        gateway.forward_answer(Err(ClusterError::HandlerError("bad".to_string())), 0);
    assert!(failed.error.contains("bad"));
}

#[test]
fn only_the_token_passes() {
    let auth = SharedSecretAuth::new("secret");
    let with = |value: &[u8]| Metadata {
        entries: vec![("authorization".to_string(), value.to_vec())],
    };
    assert!(auth.authenticate(&with(b"secret")).is_ok());
    for value in [&b"secre"[..], b"secrets", b"Secret", b"", b"secre\xff"] {
        let status = auth.authenticate(&with(value)).unwrap_err();
        assert_eq!(status.code, Code::Unauthenticated);
    }
    assert_eq!(
        auth.authenticate(&Metadata::new()).unwrap_err().code,
        Code::Unauthenticated
    );
}

#[test]
fn requests_carry_the_token() {
    let pool = ConnectionPool::with_auth("secret".to_string());
    let request = pool.authorized_request(5u8);
    assert_eq!(request.inner, 5);
    assert!(SharedSecretAuth::new("secret").authenticate(&request.metadata).is_ok());
    assert!(SharedSecretAuth::new("other").authenticate(&request.metadata).is_err());
    let bare = ConnectionPool::new().authorized_request(5u8);
    assert_eq!(bare.metadata, Metadata::new());
    let unsendable = ConnectionPool::with_auth("a\nb".to_string()).authorized_request(5u8);
    assert_eq!(unsendable.metadata, Metadata::new());
}

#[test]
fn connections_are_reused() {
    let mut pool = ConnectionPool::new();
    assert_eq!(
        pool.get_transport("h:1"),
        Connection::Connect("http://h:1".to_string())
    );
    pool.opened(Service::Transport, "h:1", 7);
    assert_eq!(pool.get_transport("h:1"), Connection::Open(7));
    assert!(matches!(pool.get_transport("h:2"), Connection::Connect(_)));
    assert!(matches!(pool.get_membership("h:1"), Connection::Connect(_)));
    pool.opened(Service::Membership, "h:1", 8);
    pool.opened(Service::Gateway, "h:1", 9);
    assert_eq!(pool.get_membership("h:1"), Connection::Open(8));
    assert_eq!(pool.get_gateway("h:1"), Connection::Open(9));
    pool.remove("h:1");
    assert!(matches!(pool.get_transport("h:1"), Connection::Connect(_)));
    assert!(matches!(pool.get_membership("h:1"), Connection::Connect(_)));
    assert!(matches!(pool.get_gateway("h:1"), Connection::Connect(_)));
}

#[test]
fn secured_pools_connect_securely() {
    let tls = ClientTls {
        ca_pem: vec![1],
        identity: Some(TlsIdentity { cert_pem: vec![2], key_pem: vec![3] }),
    };
    let pool = ConnectionPool::with_tls(tls.clone());
    assert_eq!(
        pool.get_gateway("h:1"),
        Connection::Connect("https://h:1".to_string())
    );
    assert_eq!(pool.tls_config(), Some(&tls));
    let both = ConnectionPool::with_tls_and_auth(tls.clone(), "secret".to_string());
    assert_eq!(both.tls_config(), Some(&tls));
    assert_eq!(both.authorized_request(0u8).metadata.entries.len(), 1);
    assert!(ConnectionPool::new().tls_config().is_none());
    assert!(connect_timeout().at_least(Duration::from_secs(1)));
}
