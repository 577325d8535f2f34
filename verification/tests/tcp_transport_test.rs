use orlando_cluster::maps::StrMap;
use orlando_cluster::proto::InvokeResponse;
use orlando_cluster::tcp_transport::{
    answer_fields, bind_error, call_fields, closed_error, connect_error, decode_request,
    decode_response, decoded_answer, decoded_call, encode_request, encode_response,
    encoded_frame, CallPhase, CallStep, TcpAction, TcpConnectionPool, TcpEvent,
    TcpInvokeRequest, TcpInvokeResponse, TcpTransportClient, TcpTransportServer,
    MAX_FRAME_LENGTH,
};
use orlando_cluster::{ClusterError, Encoding, HashRing, MessageRegistry, SiloAddress};

fn request() -> TcpInvokeRequest {
    let mut context: StrMap<String> = StrMap::new();
    context.insert("trace".to_string(), "abc".to_string());
    context.insert("user".to_string(), "dan".to_string());
    TcpInvokeRequest {
        request_id: 7,
        grain_type: "Counter".to_string(),
        grain_key: "k".to_string(),
        message_type: "Increment".to_string(),
        payload: vec![1, 2, 3],
        context,
    }
}

#[test]
fn tcp_round_trip_unknown_grain() {
    let registry = MessageRegistry::new();
    let ring = HashRing::new(10);
    let server = TcpTransportServer::new("test-silo".to_string());

    let mut client = TcpTransportClient::new("127.0.0.1:9000".to_string());
    let (sent, phase) = client.invoke(
        "NonExistentGrain".to_string(),
        "key-1".to_string(),
        "SomeMessage".to_string(),
        vec![1, 2, 3],
        StrMap::new(),
    );
    assert_eq!(phase, CallPhase::Connect);
    let frame = encode_request(&sent).unwrap();
    let received = decode_request(&frame).unwrap();
    assert_eq!(received, sent);

    let response = match server.dispatch(&ring, &registry, &received, TcpEvent::Received) {
        TcpAction::Answer(response) => response,
        _ => panic!("an unknown grain type is answered at once"),
    };
    let frame = encode_response(&response).unwrap();
    let response = decode_response(&frame).unwrap();
    assert_eq!(response.request_id, sent.request_id);
    assert!(!response.success, "should fail because grain type is unknown");
    assert!(
        response.error.as_deref().unwrap_or("").contains("unknown grain type"),
        "error should mention unknown grain type, got: {:?}",
        response.error
    );
}

#[test]
fn tcp_pool_returns_same_client() {
    let mut pool = TcpConnectionPool::new();
    let c1: u64 = pool.get_client("127.0.0.1:9999");
    let c2: u64 = pool.get_client("127.0.0.1:9999");
    assert_eq!(c1, c2);
}

#[test]
fn tcp_pool_different_endpoints() {
    let mut pool = TcpConnectionPool::new();
    let c1: u64 = pool.get_client("127.0.0.1:9999");
    let c2: u64 = pool.get_client("127.0.0.1:8888");
    assert_ne!(c1, c2);
}

#[test]
fn a_removed_endpoint_gets_a_new_client() {
    let mut pool = TcpConnectionPool::new();
    let c1: u64 = pool.get_client("a:1");
    let other: u64 = pool.get_client("b:1");
    pool.remove("a:1");
    assert_ne!(pool.get_client("a:1"), c1);
    assert_eq!(pool.get_client("b:1"), other);
}

#[test]
fn frames_carry_requests_and_responses() {
    let sent = request();
    let frame = encode_request(&sent).unwrap();
    assert_ne!(frame, sent.payload);
    assert_eq!(decode_request(&frame).unwrap(), sent);
    for response in [
        TcpInvokeResponse { request_id: 1, success: true, payload: vec![9], error: None },
        TcpInvokeResponse {
            request_id: u64::MAX,
            success: false,
            payload: Vec::new(),
            error: Some("no".to_string()),
        },
    ] {
        let frame = encode_response(&response).unwrap();
        assert_eq!(decode_response(&frame).unwrap(), response);
    }
}

#[test]
fn frames_are_bincode() {
    let response =
        TcpInvokeResponse { request_id: 5, success: true, payload: vec![8, 9], error: None };
    let expected: Vec<u8> = bincode::serde::encode_to_vec(
        (5u64, true, vec![8u8, 9u8], None::<String>),
        bincode::config::standard(),
    )
    .unwrap();
    assert_eq!(encode_response(&response).unwrap(), expected);
    assert_eq!(expected, vec![5, 1, 2, 8, 9, 0]);
}

#[test]
fn garbled_frames_are_refused() {
    assert!(matches!(
        decode_request(&vec![255, 255]),
        Err(ClusterError::Deserialization(_))
    ));
    assert!(matches!(decode_response(&Vec::new()), Err(ClusterError::Deserialization(_))));
}

#[test]
fn frames_that_claim_too_much_are_refused() {
    let mut call: Vec<u8> = vec![0, 253];
    call.extend(vec![255; 8]);
    assert!(matches!(decode_request(&call), Err(ClusterError::Deserialization(_))));
    let mut answer: Vec<u8> = vec![0, 0, 0, 1, 253];
    answer.extend(vec![255; 8]);
    assert!(matches!(decode_response(&answer), Err(ClusterError::Deserialization(_))));
}

#[test]
fn frames_of_any_allowed_length_come_back() {
    let mut sent = request();
    sent.payload = vec![7; MAX_FRAME_LENGTH - 100];
    let frame = encode_request(&sent).unwrap();
    assert!(frame.len() > MAX_FRAME_LENGTH - 100 && frame.len() <= MAX_FRAME_LENGTH);
    assert_eq!(decode_request(&frame).unwrap(), sent);
    let mut many = request();
    many.payload = Vec::new();
    many.context = StrMap::new();
    for i in 0..2000 {
        many.context.insert(format!("k{}", i), String::new());
    }
    let frame = encode_request(&many).unwrap();
    assert_eq!(decode_request(&frame).unwrap(), many);
}

#[test]
fn calls_on_remote_grains_are_passed_on() {
    let mut ring = HashRing::new(10);
    ring.add(SiloAddress { host: "h".into(), port: 5, silo_id: "other".into() });
    let server = TcpTransportServer::new("here".to_string());
    let registry = MessageRegistry::new();
    let req = request();
    match server.dispatch(&ring, &registry, &req, TcpEvent::Received) {
        TcpAction::Forward { endpoint, request } => {
            assert_eq!(endpoint, "h:5");
            assert_eq!(request.grain_type, "Counter");
            assert_eq!(request.payload, vec![1, 2, 3]);
        }
        _ => panic!("the ring gives the grain to another silo"),
    }
    let reply = InvokeResponse { payload: vec![4], error: String::new(), encoding: 0 };
    match server.dispatch(&ring, &registry, &req, TcpEvent::Forwarded(Ok(reply))) {
        TcpAction::Answer(response) => {
            assert_eq!(
                response,
                TcpInvokeResponse { request_id: 7, success: true, payload: vec![4], error: None }
            );
        }
        _ => panic!("a reply is an answer"),
    }
    match server.dispatch(&ring, &registry, &req, TcpEvent::Forwarded(Err("lost".to_string()))) {
        TcpAction::Answer(response) => {
            assert!(!response.success);
            assert!(response.error.unwrap().contains("lost"));
        }
        _ => panic!("a failure is an answer"),
    }
}

#[test]
fn local_calls_reach_the_handler() {
    let mut ring = HashRing::new(10);
    ring.add(SiloAddress { host: "h".into(), port: 5, silo_id: "here".into() });
    let mut registry = MessageRegistry::new();
    registry.register("Counter", "Increment", "t::Counter", 0, None, 77);
    let server = TcpTransportServer::new("here".to_string());
    let req = request();
    assert!(matches!(
        server.dispatch(&ring, &registry, &req, TcpEvent::Received),
        TcpAction::Dispatch(77)
    ));
    let done = TcpEvent::Dispatched(Ok((vec![6], Encoding::Bincode)));
    match server.dispatch(&ring, &registry, &req, done) {
        TcpAction::Answer(response) => {
            assert!(response.success);
            assert_eq!(response.payload, vec![6]);
            assert_eq!(response.request_id, 7);
        }
        _ => panic!("a result is an answer"),
    }
    let failed = TcpEvent::Dispatched(Err(ClusterError::HandlerError("bad".to_string())));
    match server.dispatch(&ring, &registry, &req, failed) {
        TcpAction::Answer(response) => {
            assert!(!response.success);
            assert!(response.error.unwrap().contains("bad"));
        }
        _ => panic!("an error is an answer"),
    }
}

#[test]
fn a_broken_connection_is_made_once_more() {
    let mut client = TcpTransportClient::new("h:1".to_string());
    assert_eq!(client.endpoint(), "h:1");
    let call = |client: &mut TcpTransportClient| {
        client.invoke(
            "G".to_string(),
            "k".to_string(),
            "M".to_string(),
            Vec::new(),
            StrMap::new(),
        )
    };
    let (first, phase) = call(&mut client);
    assert_eq!(phase, CallPhase::Connect);
    assert_eq!(client.advance(CallPhase::Connect, true), CallStep::Next(CallPhase::Send));
    assert_eq!(client.advance(CallPhase::Send, true), CallStep::Done);
    let (second, phase) = call(&mut client);
    assert_eq!(second.request_id, first.request_id + 1);
    assert_eq!(phase, CallPhase::Send);
    assert_eq!(client.advance(CallPhase::Send, false), CallStep::Next(CallPhase::Reconnect));
    assert_eq!(
        client.advance(CallPhase::Reconnect, true),
        CallStep::Next(CallPhase::Resend)
    );
    assert_eq!(client.advance(CallPhase::Resend, false), CallStep::Fail);
    let mut fresh = TcpTransportClient::new("h:1".to_string());
    call(&mut fresh);
    assert_eq!(fresh.advance(CallPhase::Connect, false), CallStep::Fail);
}

#[test]
fn transport_errors_name_the_place() {
    assert!(connect_error("h:1", "refused").to_string().contains("h:1"));
    assert!(connect_error("h:1", "refused").to_string().contains("refused"));
    assert!(bind_error("in use").to_string().contains("in use"));
    assert!(matches!(closed_error(), ClusterError::Transport(_)));
}

#[test]
fn fields_make_up_calls_and_answers() {
    let sent = request();
    let fields = call_fields(&sent);
    assert_eq!(fields.5[0], ("trace".to_string(), "abc".to_string()));
    assert_eq!(decoded_call(Ok(fields)), Ok(sent));
    let twice = vec![
        ("k".to_string(), "first".to_string()),
        ("k".to_string(), "second".to_string()),
    ];
    let call = decoded_call(Ok((
        1,
        "G".to_string(),
        "k".to_string(),
        "M".to_string(),
        Vec::new(),
        twice,
    )))
    .unwrap();
    assert_eq!(call.context.get("k"), Some(&"second".to_string()));
    let answer =
        TcpInvokeResponse { request_id: 1, success: true, payload: vec![9], error: None };
    assert_eq!(decoded_answer(Ok(answer_fields(&answer))), Ok(answer));
    assert_eq!(
        decoded_call(Err("short".to_string())),
        Err(ClusterError::Deserialization("short".to_string()))
    );
    assert_eq!(
        decoded_answer(Err("short".to_string())),
        Err(ClusterError::Deserialization("short".to_string()))
    );
    assert_eq!(encoded_frame(Ok(vec![1])), Ok(vec![1]));
    assert_eq!(
        encoded_frame(Err("big".to_string())),
        Err(ClusterError::Serialization("big".to_string()))
    );
}
