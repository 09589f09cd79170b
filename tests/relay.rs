use http_proxy::relay::{Phase, Relay, RelayAction, RelayEvent};

fn sent_bytes(a: RelayAction) -> Vec<u8> {
    match a {
        RelayAction::SendToBackend(b) | RelayAction::SendToClient(b) | RelayAction::SendAndClose(b) => b,
        other => panic!("expected a send, got {:?}", other),
    }
}

#[test]
fn unreachable_backend_gets_client_a_502() {
    let mut relay = Relay::new();
    let a = relay.step(RelayEvent::ClientData(b"GET /x HTTP/1.1\r\nHost: a\r\n\r\n".to_vec()));
    assert!(matches!(a, RelayAction::ConnectBackend));
    let a = relay.step(RelayEvent::BackendUnavailable);
    let bytes = match a {
        RelayAction::SendAndClose(b) => b,
        other => panic!("expected a closing send, got {:?}", other),
    };
    assert!(bytes.starts_with(b"HTTP/1.1 502 Bad Gateway"));
    assert!(bytes.ends_with(b"\r\n\r\nBackend unavailable"));
    assert_eq!(relay.phase, Phase::Closed);
    assert!(matches!(relay.step(RelayEvent::Sent), RelayAction::Close));
}

#[test]
fn pipelined_keep_alive_requests_are_answered_in_order() {
    let mut relay = Relay::new();
    let first = b"GET /a HTTP/1.1\r\nConnection: keep-alive\r\n\r\n".to_vec();
    let second = b"GET /b HTTP/1.1\r\nConnection: keep-alive\r\n\r\n".to_vec();
    let third = b"GET /c HTTP/1.1\r\nConnection: close\r\n\r\n".to_vec();
    let mut both = first.clone();
    both.extend_from_slice(&second);

    assert!(matches!(relay.step(RelayEvent::ClientData(both)), RelayAction::ConnectBackend));
    assert_eq!(sent_bytes(relay.step(RelayEvent::BackendConnected)), first);
    assert!(matches!(relay.step(RelayEvent::Sent), RelayAction::ReadBackend));
    let a = relay.step(RelayEvent::BackendData(b"HTTP/1.1 200 OK\r\nContent-Length: 1\r\n\r\nA".to_vec()));
    assert!(matches!(&a, RelayAction::SendToClient(_)));
    assert_eq!(sent_bytes(a), b"HTTP/1.1 200 OK\r\nContent-Length: 1\r\n\r\nA".to_vec());

    // the second request is already buffered and reuses the backend connection
    let a = relay.step(RelayEvent::Sent);
    assert!(matches!(&a, RelayAction::SendToBackend(_)));
    assert_eq!(sent_bytes(a), second);
    assert!(matches!(relay.step(RelayEvent::Sent), RelayAction::ReadBackend));
    assert!(matches!(relay.step(RelayEvent::BackendData(b"HTTP/1.1 200 OK\r\nCont".to_vec())), RelayAction::ReadBackend));
    let a = relay.step(RelayEvent::BackendData(b"ent-Length: 1\r\n\r\nB".to_vec()));
    assert!(matches!(&a, RelayAction::SendToClient(_)));
    assert_eq!(relay.phase, Phase::AwaitRequest);

    assert!(matches!(relay.step(RelayEvent::Sent), RelayAction::ReadClient));
    let a = relay.step(RelayEvent::ClientData(third.clone()));
    assert_eq!(sent_bytes(a), third);
    relay.step(RelayEvent::Sent);
    let a = relay.step(RelayEvent::BackendData(b"HTTP/1.1 200 OK\r\nContent-Length: 1\r\n\r\nC".to_vec()));
    assert!(matches!(a, RelayAction::SendAndClose(_)));
    assert_eq!(relay.phase, Phase::Closed);
}

#[test]
fn partial_request_asks_for_more() {
    let mut relay = Relay::new();
    assert!(matches!(relay.step(RelayEvent::ClientData(b"GET /x HT".to_vec())), RelayAction::ReadClient));
    assert!(matches!(relay.step(RelayEvent::ClientData(b"TP/1.1\r\n\r\n".to_vec())), RelayAction::ConnectBackend));
    assert_eq!(relay.pending, b"GET /x HTTP/1.1\r\n\r\n".to_vec());
}

#[test]
fn malformed_request_gets_a_400() {
    let mut relay = Relay::new();
    let bytes = sent_bytes(relay.step(RelayEvent::ClientData(b"GET / HTTP/1.1\r\nbad header\r\n\r\n".to_vec())));
    assert_eq!(bytes, b"HTTP/1.1 400 Bad Request\r\nConnection: close\r\nContent-Length: 0\r\n\r\n".to_vec());
    assert_eq!(relay.phase, Phase::Closed);
}

#[test]
fn unframeable_backend_response_gets_a_502() {
    let mut relay = Relay::new();
    relay.step(RelayEvent::ClientData(b"GET / HTTP/1.1\r\n\r\n".to_vec()));
    relay.step(RelayEvent::BackendConnected);
    relay.step(RelayEvent::Sent);
    let bytes = sent_bytes(relay.step(RelayEvent::BackendData(b"HTTP/1.0 200 OK\r\n\r\nrest".to_vec())));
    assert!(bytes.starts_with(b"HTTP/1.1 502 Bad Gateway"));
}

#[test]
fn backend_closing_early_gets_a_502() {
    let mut relay = Relay::new();
    relay.step(RelayEvent::ClientData(b"GET / HTTP/1.1\r\n\r\n".to_vec()));
    relay.step(RelayEvent::BackendConnected);
    relay.step(RelayEvent::Sent);
    let bytes = sent_bytes(relay.step(RelayEvent::BackendClosed));
    assert!(bytes.starts_with(b"HTTP/1.1 502 Bad Gateway"));
}

#[test]
fn fault_or_client_close_ends_the_relay() {
    let mut relay = Relay::new();
    assert!(matches!(relay.step(RelayEvent::ClientClosed), RelayAction::Close));
    assert_eq!(relay.phase, Phase::Closed);
    let mut relay = Relay::new();
    relay.step(RelayEvent::ClientData(b"GET / HTTP/1.1\r\n\r\n".to_vec()));
    relay.step(RelayEvent::BackendConnected);
    assert!(matches!(relay.step(RelayEvent::Fault), RelayAction::Close));
    assert_eq!(relay.phase, Phase::Closed);
}

#[test]
fn http_1_0_request_closes_after_its_response() {
    let mut relay = Relay::new();
    relay.step(RelayEvent::ClientData(b"GET / HTTP/1.0\r\n\r\n".to_vec()));
    relay.step(RelayEvent::BackendConnected);
    relay.step(RelayEvent::Sent);
    let a = relay.step(RelayEvent::BackendData(b"HTTP/1.1 200 OK\r\nContent-Length: 0\r\n\r\n".to_vec()));
    assert!(matches!(a, RelayAction::SendAndClose(_)));
}
