use orlando_cluster::message_registry::{decoded_message, encoded_result, Decoded, Encoded};
use orlando_cluster::{ClusterError, Encoding, MessageRegistry};

fn registry() -> MessageRegistry {
    let mut registry = MessageRegistry::new();
    registry.register("TestGrain", "TestMsg", "tests::TestGrain", 0, None, 11);
    registry.register("TestGrain", "TestMsgV2", "tests::TestGrain", 2, None, 22);
    registry
}

#[test]
fn default_version_zero_dispatch_succeeds() {
    let mut registry = MessageRegistry::new();
    registry.register("TestGrain", "TestMsg", "tests::TestGrain", 0, None, 11);
    match registry.dispatch("TestGrain", "TestMsg", 0) {
        Err(ClusterError::UnsupportedMessageVersion(..)) => {
            panic!("version 0 should not be rejected")
        }
        other => assert_eq!(other, Ok(11)),
    }
}

#[test]
fn newer_version_than_supported_returns_error() {
    let registry = registry();
    match registry.dispatch("TestGrain", "TestMsgV2", 5) {
        Err(ClusterError::UnsupportedMessageVersion(name, got, supported)) => {
            assert_eq!(name, "TestMsgV2");
            assert_eq!(got, 5);
            assert_eq!(supported, 2);
        }
        other => panic!("expected UnsupportedMessageVersion, got {:?}", other),
    }
}

#[test]
fn older_version_than_supported_is_accepted() {
    let registry = registry();
    match registry.dispatch("TestGrain", "TestMsgV2", 1) {
        Err(ClusterError::UnsupportedMessageVersion(..)) => {
            panic!("older version should be accepted for backward compatibility")
        }
        other => assert_eq!(other, Ok(22)),
    }
}

#[test]
fn unknown_types_are_told_apart() {
    let registry = registry();
    assert_eq!(
        registry.dispatch("Nobody", "TestMsg", 0),
        Err(ClusterError::UnknownGrainType("Nobody".to_string()))
    );
    assert_eq!(
        registry.dispatch("TestGrain", "Nothing", 0),
        Err(ClusterError::UnknownMessageType("Nothing".to_string()))
    );
}

#[test]
fn a_message_of_another_grain_is_unknown() {
    let mut registry = registry();
    registry.register("Other", "OtherMsg", "tests::Other", 3, None, 44);
    assert_eq!(
        registry.dispatch("TestGrain", "OtherMsg", 0),
        Err(ClusterError::UnknownMessageType("TestGrain::OtherMsg".to_string()))
    );
    assert_eq!(
        registry.dispatch("TestGrain", "OtherMsg", 4),
        Err(ClusterError::UnsupportedMessageVersion("OtherMsg".to_string(), 4, 3))
    );
}

#[test]
fn a_later_registration_replaces_the_handler() {
    let mut registry = registry();
    registry.register("TestGrain", "TestMsg", "tests::TestGrain", 4, None, 33);
    assert_eq!(registry.dispatch("TestGrain", "TestMsg", 4), Ok(33));
    assert_eq!(registry.dispatch("TestGrain", "TestMsgV2", 2), Ok(22));
}

#[test]
fn names_of_two_rust_types_collide() {
    let registry = registry();
    assert!(registry.collides("TestGrain", "other::TestGrain"));
    assert!(!registry.collides("TestGrain", "tests::TestGrain"));
    assert!(!registry.collides("Other", "other::TestGrain"));
}

#[test]
fn grain_types_are_resolved() {
    let registry = registry();
    assert_eq!(registry.grain_type_str("TestGrain"), Some("TestGrain"));
    assert_eq!(registry.grain_type_str("Nobody"), None);
    assert_eq!(registry.resolve_grain_type("TestGrain"), "TestGrain");
    let made = format!("No{}", "body");
    assert_eq!(registry.resolve_grain_type(&made), "Nobody");
}

#[test]
fn pinned_grains_keep_their_clusters() {
    let mut registry = registry();
    registry.register("Pinned", "TestMsg", "tests::Pinned", 0, Some(&["eu", "us"]), 1);
    assert_eq!(registry.allowed_clusters("Pinned"), Some(&["eu", "us"][..]));
    assert_eq!(registry.allowed_clusters("TestGrain"), None);
}

#[test]
fn decoding_failures_are_told_apart() {
    assert_eq!(decoded_message(Decoded::Bincode(Ok(5u8)), "M"), Ok(5));
    assert_eq!(decoded_message(Decoded::Protobuf(Some(6u8)), "M"), Ok(6));
    let bad: Result<u8, ClusterError> =
        decoded_message(Decoded::Bincode(Err("short".to_string())), "M");
    assert_eq!(bad, Err(ClusterError::Deserialization("short".to_string())));
    let none: Result<u8, ClusterError> = decoded_message(Decoded::Protobuf(None), "M");
    assert!(none.is_err());
}

#[test]
fn results_carry_their_encoding() {
    assert_eq!(
        encoded_result(Encoded::Bincode(Ok(vec![1])), "M"),
        Ok((vec![1], Encoding::Bincode))
    );
    assert_eq!(
        encoded_result(Encoded::Protobuf(Some(vec![2])), "M"),
        Ok((vec![2], Encoding::Protobuf))
    );
    assert_eq!(
        encoded_result(Encoded::Bincode(Err("big".to_string())), "M"),
        Err(ClusterError::Serialization("big".to_string()))
    );
    assert!(encoded_result(Encoded::Protobuf(None), "M").is_err());
}

#[test]
fn default_encoding_is_bincode() {
    let encoding = Encoding::from_proto(0);
    assert_eq!(encoding, Encoding::Bincode);
    let encoding = Encoding::from_proto(99);
    assert_eq!(encoding, Encoding::Bincode);
}

#[test]
fn encodings_survive_the_wire() {
    for encoding in [Encoding::Bincode, Encoding::Protobuf] {
        assert_eq!(Encoding::from_proto(encoding.to_proto()), encoding);
    }
    assert_eq!(Encoding::Protobuf.to_proto(), 1);
}

#[test]
fn cluster_errors_have_texts() {
    assert_eq!(
        ClusterError::UnknownGrainType("G".to_string()).to_string(),
        "unknown grain type: G"
    );
    assert_eq!(
        ClusterError::UnknownMessageType("M".to_string()).to_string(),
        "unknown message type: M"
    );
    assert_eq!(
        ClusterError::UnsupportedMessageVersion("M".to_string(), 5, 2).to_string(),
        "unsupported version of message M: 5 is newer than 2"
    );
    for error in [
        ClusterError::Transport("x".to_string()),
        ClusterError::Serialization("x".to_string()),
        ClusterError::Deserialization("x".to_string()),
        ClusterError::HandlerError("x".to_string()),
    ] {
        assert!(error.to_string().ends_with("x"), "{}", error.to_string());
    }
    assert!(!ClusterError::NoSiloAvailable.to_string().is_empty());
    let encoding = ClusterError::UnsupportedEncoding("e".to_string(), "M".to_string());
    assert!(encoding.to_string().contains("M"));
}
