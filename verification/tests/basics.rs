use std::sync::Arc;

use ya_relay_client::assoc::AssocMap;
use ya_relay_client::config::{ClientBuilder, FailFast, Surroundings, DEFAULT_BIND_URL};
use ya_relay_client::direct_session::{DirectSession, NodeEntry, RawSession};
use ya_relay_client::encryption::{
    Aes256GcmSivEncryption, Encryption, NullEncryption, SessionEncryption,
};
use ya_relay_client::error::{
    EncryptionError, ProtocolError, RequestError, SessionError, SessionInitError, TcpError,
    TcpTransitionError, TransitionError,
};
use ya_relay_client::expire::{
    next_cleanup, time_until, timeout_relay_slots, timeout_sessions,
};
use ya_relay_client::metrics::{
    metric_session_closed, metric_session_established, register_metrics, MetricKind,
};
use ya_relay_client::model::{
    Identity, IpAddr, NodeId, PublicKey, SessionHandle, SessionId, SocketAddr, TransportType,
};
use ya_relay_client::requests::{ReqFingerprint, RequestHistory, REQ_DEDUPLICATE_BUF_SIZE};
use ya_relay_client::routing_session::{NodeRouting, RoutingSender};
use ya_relay_client::session_layer::{Closed, ConnectionMethod};
use ya_relay_client::session_state::{InitState, RelayedState, ReverseState, SessionState};
use ya_relay_client::tcp_registry::TcpState;
use ya_relay_client::text::{push_decimal_list, push_hex_list, push_signed};

fn key(n: u128) -> PublicKey {
    PublicKey { x_high: n, x_low: 0, y_high: 0, y_low: 0 }
}

fn addr(port: u16) -> SocketAddr {
    SocketAddr { ip: IpAddr::V4(0x7f00_0001), port }
}

fn node(n: u32) -> NodeId {
    NodeId { high: 0, low: n }
}

#[test]
fn node_ids_are_twenty_bytes() {
    let id = NodeId { high: 0xf3a6a007194f987ad3f6db45da2f3f7a, low: 0xb1332c86 };
    let bytes = id.to_bytes();
    assert_eq!(bytes.len(), 20);
    assert_eq!((bytes[0], bytes[15], bytes[16], bytes[19]), (0xf3, 0x7a, 0xb1, 0x86));
    assert_eq!(NodeId::try_from_bytes(&bytes), Some(id));
    assert_eq!(NodeId::try_from_bytes(&vec![0; 19]), None);
    assert_eq!(id.to_text(), "0xf3a6a007194f987ad3f6db45da2f3f7ab1332c86");
    assert_eq!(NodeId::default().to_text(), "0x0000000000000000000000000000000000000000");
}

#[test]
fn session_ids_are_sixteen_bytes() {
    let id = SessionId { value: 0x0102030405060708090a0b0c0d0e0f10 };
    assert_eq!(id.to_bytes(), (1..17).collect::<Vec<u8>>());
    assert_eq!(SessionId::try_from_bytes(&id.to_bytes()), Some(id));
    assert_eq!(SessionId::try_from_bytes(&vec![0; 17]), None);
    let mut text = String::new();
    id.push_text(&mut text);
    assert_eq!(text, "0102030405060708090a0b0c0d0e0f10");
}

#[test]
fn addresses_have_texts() {
    let v4 = |ip: u32, port, text: &str| {
        assert_eq!(SocketAddr { ip: IpAddr::V4(ip), port }.to_text(), text);
    };
    v4(0, 0, "0.0.0.0:0");
    v4(0x7f00_0001, 8000, "127.0.0.1:8000");
    v4(0xffff_ffff, 65535, "255.255.255.255:65535");
    let v6 = |ip: u128, port, text: &str| {
        let ip = IpAddr::V6 { ip, flowinfo: 0, scope_id: 0 };
        assert_eq!(SocketAddr { ip, port }.to_text(), text);
    };
    let zone = |scope_id| SocketAddr {
        ip: IpAddr::V6 { ip: (0xfe80 << 112) | 1, flowinfo: 5, scope_id },
        port: 80,
    };
    assert_eq!(zone(3).to_text(), "[fe80::1%3]:80");
    assert_eq!(zone(0).to_text(), "[fe80::1]:80");
    assert_ne!(zone(3), zone(4));
    v6(0, 1, "[::]:1");
    v6(1, 1, "[::1]:1");
    v6(0xfe80 << 112, 7, "[fe80::]:7");
    v6(0x20010db8_00000000_00010000_00000001, 443, "[2001:db8::1:0:0:1]:443");
    v6(0x00010002_00030004_00050006_00070008, 9, "[1:2:3:4:5:6:7:8]:9");
    v6(0x00010000_00000004_00000000_00000008, 9, "[1:0:0:4::8]:9");
    v6(0x00010000_00030004_00050006_00070008, 9, "[1:0:3:4:5:6:7:8]:9");
    v6(0x0000ffff_c0a80001, 80, "[::ffff:192.168.0.1]:80");
    v6(0xc0a80001, 80, "[::c0a8:1]:80");
    v6(u128::MAX, 80, "[ffff:ffff:ffff:ffff:ffff:ffff:ffff:ffff]:80");
}

#[test]
fn numbers_show_as_std_shows_them() {
    for n in [0i64, 7, -7, 10, i64::MAX, i64::MIN] {
        let mut text = String::new();
        push_signed(&mut text, n);
        assert_eq!(text, format!("{}", n));
    }
    for bytes in [vec![], vec![0u8], vec![1, 2, 255]] {
        let mut text = String::new();
        push_decimal_list(&mut text, &bytes);
        assert_eq!(text, format!("{:?}", bytes));
        let mut text = String::new();
        push_hex_list(&mut text, &bytes);
        assert_eq!(text, format!("{:x?}", bytes));
    }
}

#[test]
fn errors_have_texts() {
    let m = || "m".to_string();
    let texts = vec![
        (SessionError::Internal(m()), "Internal error: m"),
        (SessionError::BadResponse(m()), "Bad Response error: m"),
        (SessionError::BadRequest(m()), "Bad Request: m"),
        (SessionError::Network(m()), "Network error: m"),
        (SessionError::Timeout(m()), "Timeout: m"),
        (SessionError::Aborted(m()), "Aborted: m"),
        (SessionError::NotFound(m()), "Not Found: m"),
        (SessionError::Relay(m()), "Relay error: m"),
        (SessionError::Unexpected(m()), "Unexpected error: m"),
        (SessionError::ProgrammingError(m()), "Programming error: m"),
        (SessionError::NotApplicable(m()), "m"),
        (SessionError::Generic(m()), "m"),
        (
            SessionError::Protocol(ProtocolError::InvalidResponse(m())),
            "Protocol error: Protocol invalid response: m",
        ),
        (
            SessionError::Protocol(ProtocolError::InvalidChallenge(m())),
            "Protocol error: Invalid challenge: m",
        ),
        (
            SessionError::Protocol(ProtocolError::RecoverId(m())),
            "Protocol error: Failed to recover NodeId from request: m",
        ),
        (
            SessionError::Protocol(ProtocolError::SessionNotFound(SessionId { value: 10 })),
            "Protocol error: Unknown SessionId: 0000000000000000000000000000000a",
        ),
    ];
    for (error, text) in texts {
        assert_eq!(error.to_text(), text);
        assert_eq!(error.clone(), error);
    }
    let invalid = ProtocolError::InvalidSessionId(Arc::new(vec![1, 255]), m()).to_text();
    assert!(invalid.starts_with("Request with invalid SessionId [1, ff]"));
    assert_eq!(
        TransitionError::InvalidTransition(
            SessionState::Outgoing(InitState::Ready),
            SessionState::Closed
        )
        .to_text(),
        "State transition not allowed from: Outgoing-Ready to Closed"
    );
    assert_eq!(
        TransitionError::NodeNotFound(node(1)).to_text(),
        "Can't change state: Node 0x0000000000000000000000000000000000000001 not found"
    );
    assert_eq!(
        SessionInitError::P2P(node(1), SessionError::Generic(m())).to_text(),
        "Failed to init p2p session with 0x0000000000000000000000000000000000000001: m"
    );
    assert_eq!(
        SessionInitError::Relay(addr(7477), SessionError::Generic(m())).to_text(),
        "Failed to init relay server (127.0.0.1:7477) session: m"
    );
    assert_eq!(RequestError::Generic(m()).to_text(), "Request failed: m");
    assert_eq!(EncryptionError::Generic(m()).to_text(), "m");
    assert_eq!(TcpError::Generic(m()).to_text(), "m");
    assert_eq!(TcpError::ProgrammingError(m()).to_text(), "Programming error: m");
    assert_eq!(TcpError::Closed.to_text(), "Connection closed");
    assert_eq!(TcpTransitionError::ProgrammingError.to_text(), "Channel not found");
    assert!(TcpTransitionError::InvalidTransition(TcpState::Closed, TcpState::Closed)
        .to_text()
        .starts_with("State transition not allowed from: "));
}

#[test]
fn states_have_names() {
    assert_eq!(SessionState::Incoming(InitState::ConnectIntent).to_text(), "Incoming-ConnectIntent");
    assert_eq!(
        SessionState::ReverseConnection(ReverseState::InProgress(InitState::Initializing)).to_text(),
        "Reverse-Initializing"
    );
    assert_eq!(
        SessionState::ReverseConnection(ReverseState::Awaiting).to_text(),
        "Reverse-Awaiting"
    );
    assert_eq!(SessionState::Relayed(RelayedState::Ready).to_text(), "Relayed-Ready");
    assert_eq!(SessionState::RestartConnect.to_text(), "RestartConnect");
}

#[test]
fn repeated_requests_are_remembered_for_a_while() {
    let mut history = RequestHistory::new();
    let record = |history: &mut RequestHistory, request_id| {
        history.record_duplicate(ReqFingerprint { from: addr(1), session_id: vec![1], request_id })
    };
    record(&mut history, 5);
    assert!(history.is_request_duplicate(&addr(1), &vec![1], 5));
    assert!(!history.is_request_duplicate(&addr(2), &vec![1], 5));
    assert!(!history.is_request_duplicate(&addr(1), &vec![2], 5));
    assert!(!history.is_request_duplicate(&addr(1), &vec![1], 6));
    for id in 0..REQ_DEDUPLICATE_BUF_SIZE as u64 - 1 {
        record(&mut history, 100 + id);
    }
    assert!(history.is_request_duplicate(&addr(1), &vec![1], 5));
    record(&mut history, 1000);
    assert!(!history.is_request_duplicate(&addr(1), &vec![1], 5));
}

#[test]
fn sessions_expire_after_silence() {
    let seen = vec![
        (SessionHandle { number: 1 }, 100),
        (SessionHandle { number: 2 }, 400),
        (SessionHandle { number: 3 }, 300),
    ];
    let timeouts = timeout_sessions(&seen, 200, 350);
    assert_eq!(timeouts.expired, vec![SessionHandle { number: 1 }]);
    assert_eq!(timeouts.next_expiration, 500);
    // Exactly at the limit a session is still alive.
    assert!(timeout_sessions(&seen, 200, 300).expired.is_empty());
    assert_eq!(timeout_sessions(&vec![], 200, 300).next_expiration, 500);
    assert_eq!(time_until(500, 350), 150);
    assert_eq!(time_until(300, 350), 0);
    assert_eq!(time_until(i128::MAX, -1), u64::MAX);
    assert_eq!(next_cleanup(3, 5), 3);
    assert_eq!(next_cleanup(7, 5), 5);
}

#[test]
fn relayed_nodes_expire_later() {
    let seen = vec![(node(1), Some(1)), (node(2), Some(2)), (node(3), None)];
    let timeouts = timeout_relay_slots(&seen, 1000, 3001);
    assert_eq!(timeouts.expired, vec![node(1), node(3)]);
    assert_eq!(timeouts.next_expiration, 4000);
    let timeouts = timeout_relay_slots(&seen, 1000, 3000);
    assert_eq!(timeouts.expired, vec![node(3)]);
    assert_eq!(timeouts.next_expiration, 3000);
}

#[test]
fn metrics_are_registered_and_described() {
    let catalog = register_metrics();
    assert_eq!(catalog.names.len(), 12);
    assert!(matches!(catalog.names[0].kind, MetricKind::Counter));
    assert_eq!(catalog.names[0].name, "ya-relay.packet.tcp.outgoing.size");
    assert_eq!(catalog.names[11].name, "ya-relay.client.public-address");

    let (kind, count) = metric_session_established(node(1), ConnectionMethod::Relay);
    assert_eq!((kind.name, kind.value), ("ya-relay.client.session.type", 3));
    assert_eq!((count.name, count.node), ("ya-relay.client.session.established", node(1)));
    let raw = RawSession { id: SessionId { value: 1 }, remote: addr(1) };
    let (kind, count) = metric_session_closed(&Closed { disconnect: Some(raw), target: node(2) });
    assert_eq!(kind.unwrap().value, 0);
    assert_eq!((count.name, count.node), ("ya-relay.client.session.closed", node(2)));
    assert!(metric_session_closed(&Closed { disconnect: None, target: node(2) }).0.is_none());
}

fn surroundings() -> Surroundings {
    Surroundings {
        identity: Ok((node(1), key(2))),
        max_transmission_unit: Ok(1280),
        srv_addr: Ok(addr(7477)),
    }
}

#[test]
fn configuration_has_defaults() {
    let config = ClientBuilder::from_url("udp://127.0.0.1:7477".to_string())
        .build_config(surroundings())
        .ok()
        .unwrap();
    assert_eq!(config.bind_url, DEFAULT_BIND_URL);
    assert_eq!(config.bind_url, url::Url::parse("udp://0.0.0.0:0").unwrap().to_string());
    assert_eq!(config.session_expiration, 25_000);
    assert_eq!(config.session_request_timeout, 3_000);
    assert_eq!(config.challenge_request_timeout, 8_000);
    assert_eq!(config.incoming_session_timeout, 16_000);
    assert!(!config.auto_connect);
    let config = ClientBuilder::from_url("udp://127.0.0.1:7477".to_string())
        .connect(FailFast::Yes)
        .listen("udp://127.0.0.1:5".to_string())
        .expire_session_after(9)
        .build_config(surroundings())
        .ok()
        .unwrap();
    assert!(config.auto_connect && config.auto_connect_fail_fast);
    assert_eq!((config.bind_url.as_str(), config.session_expiration), ("udp://127.0.0.1:5", 9));
}

#[test]
fn configuration_needs_its_surroundings() {
    let build = |from| {
        ClientBuilder::from_url("udp://127.0.0.1:7477".to_string()).build_config(from).err()
    };
    let mut from = surroundings();
    from.identity = Err("keys".to_string());
    from.srv_addr = Err("address".to_string());
    assert_eq!(build(from), Some("keys".to_string()));
    let mut from = surroundings();
    from.max_transmission_unit = Err("unit".to_string());
    from.srv_addr = Err("address".to_string());
    assert_eq!(build(from), Some("unit".to_string()));
    let mut from = surroundings();
    from.srv_addr = Err("address".to_string());
    assert_eq!(build(from), Some("address".to_string()));
}

fn routing(encryption: SessionEncryption) -> NodeRouting {
    let identity = Identity { node_id: node(2), public_key: key(2) };
    let entry = NodeEntry { default_id: identity, identities: vec![identity] };
    NodeRouting::new(3, entry, SessionHandle { number: 1 }, encryption, vec![node(2)], 1)
}

#[test]
fn routings_encrypt_what_they_send() {
    let raw = RawSession { id: SessionId { value: 1 }, remote: addr(1) };
    let identity = Identity { node_id: node(2), public_key: key(2) };
    let session = DirectSession::new(node(2), &vec![identity], raw).ok().unwrap();
    let plain = routing(SessionEncryption::Plain(NullEncryption {}));
    let packet = plain.send(Some(&session), vec![1, 2], TransportType::Reliable).ok().unwrap();
    assert_eq!((packet.payload, packet.encrypted, packet.slot), (vec![1, 2], false, 0));

    let aes = || SessionEncryption::Aes256GcmSiv(Aes256GcmSivEncryption::new([5; 32]));
    let packet = routing(aes()).send(Some(&session), vec![1, 2], TransportType::Unreliable);
    let packet = packet.ok().unwrap();
    assert!(packet.encrypted);
    assert!(packet.payload != vec![1, 2]);
    assert_eq!(aes().decrypt(packet.payload).ok(), Some(vec![1, 2]));

    let closed = routing(aes()).send(None, vec![1], TransportType::Reliable).err();
    assert_eq!(
        closed,
        Some(SessionError::Unexpected("Routing session closed unexpectedly.".to_string()))
    );
    let relay = DirectSession::new_relay(NodeId::default(), raw);
    let refused = routing(SessionEncryption::Plain(NullEncryption {}))
        .send(Some(&relay), vec![1], TransportType::Reliable)
        .err();
    assert_eq!(
        refused,
        Some(SessionError::Network(
            "Sending packet to p2p routing session: Internal error: Session with [0x0000000000000000000000000000000000000000] doesn't allow to forward packets for [0x0000000000000000000000000000000000000002]".to_string()
        ))
    );
    let sender = RoutingSender::from_node_routing(node(2), &plain);
    assert_eq!((sender.target(), sender.routing), (node(2), Some(3)));
    assert_eq!(RoutingSender::empty(node(4)).routing, None);
}

#[test]
fn association_lists_are_maps() {
    let mut map: AssocMap<u32, &str> = AssocMap::new();
    assert!(map.is_empty());
    assert_eq!(map.insert(1, "a"), None);
    assert_eq!(map.insert(1, "b"), Some("a"));
    assert_eq!(map.insert(2, "c"), None);
    assert_eq!(map.len(), 2);
    assert_eq!(map.get(&1), Some(&"b"));
    assert_eq!(map.keys(), vec![1, 2]);
    assert_eq!(map.remove(&1), Some("b"));
    assert_eq!(map.remove(&1), None);
    assert!(map.contains_key(&2));
    map.clear();
    assert_eq!(map.get(&2), None);
}
