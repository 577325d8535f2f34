use orlando_cluster::discovery::{catalog_members, members_of, CatalogEntry, CatalogReply};
use orlando_cluster::{
    ClusterError, ConsulMembershipProvider, DnsMembershipProvider, MembershipProvider,
    StaticSeedProvider,
};

#[test]
fn static_seed_provider_parses_addresses() {
    let provider = StaticSeedProvider::new(vec!["127.0.0.1:5001", "10.0.0.2:5002"]);
    let members = provider.get_members().unwrap();
    assert_eq!(members.len(), 2);
    assert_eq!(members[0].host, "127.0.0.1");
    assert_eq!(members[0].port, 5001);
    assert_eq!(members[1].host, "10.0.0.2");
    assert_eq!(members[1].port, 5002);
}

#[test]
fn static_seed_provider_skips_invalid() {
    let provider = StaticSeedProvider::new(vec!["valid:1234", "no-port", "also:bad"]);
    let members = provider.get_members().unwrap();
    assert_eq!(members.len(), 1);
    assert_eq!(members[0].host, "valid");
    assert_eq!(members[0].port, 1234);
}

#[test]
fn static_seed_provider_empty() {
    let provider = StaticSeedProvider::new(Vec::<&str>::new());
    let members = provider.get_members().unwrap();
    assert!(members.is_empty());
}

#[test]
fn the_last_colon_parts_host_and_port() {
    let provider = StaticSeedProvider::new(vec!["::1:65535", "h:65536", "h:+7", "h:", ":1"]);
    let members = provider.get_members().unwrap();
    let found: Vec<(String, u16)> =
        members.iter().map(|m| (m.host.clone(), m.port)).collect();
    assert_eq!(
        found,
        vec![("::1".to_string(), 65535), ("h".to_string(), 7), (String::new(), 1)]
    );
}

#[test]
fn dns_answers_become_members() {
    let provider = DnsMembershipProvider::new("silos.internal", 5001);
    assert_eq!(provider.query(), "silos.internal:5001");
    let members = provider
        .get_members(Ok(vec![("10.0.0.1".to_string(), 5001), ("10.0.0.2".to_string(), 5001)]))
        .unwrap();
    assert_eq!(members.len(), 2);
    assert_eq!(members[0].host, "10.0.0.1");
    assert_eq!(members[0].port, 5001);
    assert_eq!(members[1].host, "10.0.0.2");
}

#[test]
fn a_failed_dns_query_is_a_transport_error() {
    let provider = DnsMembershipProvider::new("silos.internal", 5001);
    let error = provider.get_members(Err("no such host".to_string())).unwrap_err();
    assert!(matches!(&error, ClusterError::Transport(text)
        if text.contains("no such host")));
}

#[test]
fn consul_url_ends_in_the_service() {
    let plain = ConsulMembershipProvider::new("http://consul:8500", "orlando");
    let slashed = ConsulMembershipProvider::new("http://consul:8500/", "orlando");
    assert_eq!(plain.url(), "http://consul:8500/v1/health/service/orlando?passing=true");
    assert_eq!(slashed.url(), plain.url());
}

#[test]
fn consul_catalog_is_read() {
    let provider = ConsulMembershipProvider::new("http://consul:8500", "orlando");
    let body = r#"[
        {"Node": {"Address": "10.0.0.9"},
         "Service": {"ID": "silo-a", "Address": "10.0.0.1", "Port": 5001}},
        {"Node": {"Address": "10.0.0.2"},
         "Service": {"ID": "silo-b", "Address": "", "Port": 5002}},
        {"Node": {}, "Service": {"ID": "silo-c", "Address": ""}}
    ]"#;
    let members = provider
        .get_members(CatalogReply::Answered(body.as_bytes().to_vec()))
        .unwrap();
    let ids: Vec<&str> = members.iter().map(|m| m.silo_id.as_str()).collect();
    assert!(ids.contains(&"silo-a"));
    assert!(ids.contains(&"silo-b"));
    assert_eq!(members[0].host, "10.0.0.1");
    assert_eq!(members[0].port, 5001);
    assert_eq!(members[1].host, "10.0.0.2");
    assert_eq!(members[1].port, 5002);
}

#[test]
fn consul_failures_are_transport_errors() {
    let provider = ConsulMembershipProvider::new("http://consul:8500", "orlando");
    let failed = provider.get_members(CatalogReply::Failed("refused".to_string()));
    assert!(matches!(failed, Err(ClusterError::Transport(text)) if text.contains("refused")));
    let refused = provider.get_members(CatalogReply::Refused("500".to_string()));
    assert!(matches!(refused, Err(ClusterError::Transport(text)) if text.contains("500")));
    let garbled = provider.get_members(CatalogReply::Answered(b"not json".to_vec()));
    let unparsed = ClusterError::Transport(
        "Consul response parse failed: error decoding response body".to_string(),
    );
    assert_eq!(garbled, Err(unparsed.clone()));
    assert_eq!(provider.get_members(CatalogReply::Unreadable), Err(unparsed));
}

#[test]
fn catalog_entries_fall_back() {
    let entries = vec![
        CatalogEntry {
            service_address: None,
            node_address: Some("node".to_string()),
            port: Some(1),
            service_id: Some("id".to_string()),
        },
        CatalogEntry { service_address: None, node_address: None, port: None, service_id: None },
    ];
    let silos = members_of(&entries);
    assert_eq!(silos[0].host, "node");
    assert_eq!(silos[0].port, 1);
    assert_eq!(silos[0].silo_id, "id");
}

#[test]
fn an_unparsed_catalog_is_an_error() {
    assert_eq!(
        catalog_members(Err("eof".to_string())),
        Err(ClusterError::Transport(
            "Consul response parse failed: error decoding response body".to_string()
        ))
    );
    assert_eq!(catalog_members(Ok(Vec::new())), Ok(Vec::new()));
}
