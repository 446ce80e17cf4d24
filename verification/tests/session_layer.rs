use ya_relay_client::config::{ClientBuilder, Surroundings};
use ya_relay_client::connect::{
    ConnectAction, ConnectEvent, ConnectStep, Connecting, DirectAction, DirectAttempt,
    ResolveAction, ResolveEvent, ReverseAction, ReverseAttempt, ReverseEvent, ReverseStep,
    ServerAction,
};
use ya_relay_client::direct_session::{Forward, NodeEntry};
use ya_relay_client::dispatch::Origin;
use ya_relay_client::encryption::{
    Aes256GcmSivEncryption, NullEncryption, SessionEncryption,
};
use ya_relay_client::error::{ProtocolError, SessionError, SessionInitError};
use ya_relay_client::model::{
    Identity, IpAddr, NodeId, NodeInfo, PublicKey, SessionHandle, SessionId, SessionType,
    SocketAddr, TransportType,
};
use ya_relay_client::network_view::{NodeSnapshot, SessionLock, SessionPermit};
use ya_relay_client::routing_session::RoutingSender;
use ya_relay_client::session_control::{InfoQuery, InfoReply, Sending};
use ya_relay_client::session_events::{
    By, ControlAction, ControlKind, Disconnected, ForwardAction, IncomingForward, RequestAction,
    RequestKind, ReverseConnection, SessionDispatch,
};
use ya_relay_client::session_initializer::{
    IncomingAction, IncomingEvent, IncomingHandshake, Recovered, SessionRequest,
};
use ya_relay_client::session_layer::{ConnectionMethod, SessionLayer, SessionRegistrationInfo};
use ya_relay_client::session_state::{InitState, ReverseState, SessionState};

const STAGES: [InitState; 6] = [
    InitState::Initializing,
    InitState::ChallengeHandshake,
    InitState::HandshakeResponse,
    InitState::ChallengeVerified,
    InitState::SessionRegistered,
    InitState::Ready,
];

fn addr(port: u16) -> SocketAddr {
    SocketAddr { ip: IpAddr::V4(0x7f00_0001), port }
}

fn node(n: u32) -> NodeId {
    NodeId { high: 0, low: n }
}

fn key() -> PublicKey {
    PublicKey { x_high: 0, x_low: 0, y_high: 0, y_low: 0 }
}

fn identity(n: u32) -> Identity {
    Identity { node_id: node(n), public_key: key() }
}

fn plain() -> SessionEncryption {
    SessionEncryption::Plain(NullEncryption {})
}

fn fresh_layer() -> SessionLayer {
    SessionLayer::new(
        ClientBuilder::from_url("udp://127.0.0.1:7477".to_string())
            .build_config(Surroundings {
                identity: Ok((node(1), key())),
                max_transmission_unit: Ok(1280),
                srv_addr: Ok(addr(7477)),
            })
            .ok()
            .unwrap(),
    )
}

fn layer() -> SessionLayer {
    let mut layer = fresh_layer();
    layer.spawned(addr(1000), vec![31, 32]);
    layer
}

fn permit(layer: &mut SessionLayer, id: NodeId, addrs: Vec<SocketAddr>) -> SessionPermit {
    match layer.registry.lock_outgoing(id, &addrs, 0) {
        SessionLock::Permit(permit) => permit,
        SessionLock::Wait(_) => panic!("expected a permit"),
    }
}

fn registration(port: u16, ids: &[u32]) -> SessionRegistrationInfo {
    SessionRegistrationInfo {
        addr: addr(port),
        id: SessionId { value: port as u128 },
        node_id: if ids.is_empty() { NodeId::default() } else { node(ids[0]) },
        identities: ids.iter().map(|n| identity(*n)).collect(),
        encryption: plain(),
    }
}

/// A session with a node that is established in the view of the network as well.
fn establish(layer: &mut SessionLayer, port: u16, ids: &[u32]) -> SessionHandle {
    establish_with(layer, port, ids, plain())
}

fn establish_with(
    layer: &mut SessionLayer,
    port: u16,
    ids: &[u32],
    encryption: SessionEncryption,
) -> SessionHandle {
    let id = if ids.is_empty() { NodeId::default() } else { node(ids[0]) };
    let mut permit = permit(layer, id, vec![addr(port)]);
    for stage in STAGES {
        permit.registry.transition_outgoing(&mut layer.registry, stage).unwrap();
    }
    let info = SessionRegistrationInfo { encryption, ..registration(port, ids) };
    let session = layer.register_session(info, &permit.owner()).unwrap();
    permit.collect_results(Ok(session)).unwrap();
    let state = permit.final_state();
    assert!(SessionPermit::release(permit.registry, &mut layer.registry, state).is_none());
    session
}

fn info(ids: &[u32], endpoints: Vec<SocketAddr>, slot: u32) -> NodeInfo {
    NodeInfo {
        identities: ids.iter().map(|n| identity(*n)).collect(),
        authenticated_identities: vec![],
        slot,
        endpoints,
        supported_encryption: vec![],
        session_key: None,
    }
}

fn session_request() -> SessionRequest {
    SessionRequest { identities: vec![], challenge_req: None, challenge_resp: None }
}

#[test]
fn sessions_need_a_socket_and_their_own_identity() {
    let mut closed = fresh_layer();
    let owner = NodeSnapshot { id: node(2), index: 0, generation: 1 };
    assert_eq!(
        closed.register_session(registration(1, &[2]), &owner),
        Err("Network sink not initialized".to_string())
    );
    let mut layer = layer();
    let mut wrong = registration(1, &[2]);
    wrong.identities = vec![identity(3)];
    assert_eq!(
        layer.register_session(wrong, &owner),
        Err("Registering session for node [0x0000000000000000000000000000000000000002]: DirectSession constructor expects default id on identities list.".to_string())
    );
}

#[test]
fn registered_sessions_are_found_under_all_ids() {
    let mut layer = layer();
    let session = establish(&mut layer, 5, &[2, 3]);
    assert!(layer.is_open(&session));
    assert_eq!(layer.find_session(addr(5)), Some(session));
    assert_eq!(layer.remote_id(&addr(5)), Some(node(2)));
    assert_eq!(layer.sessions(), vec![(addr(5), session)]);
    assert!(layer.is_p2p(node(3)));
    let mut ids = layer.list_connected();
    ids.sort();
    assert_eq!(ids, vec![node(2), node(3)]);
    let sender = layer.get_node_routing(node(3)).unwrap();
    assert_eq!(sender.route(&layer), node(2));
    assert_eq!(sender.session_id(&layer), SessionId { value: 5 });
    assert_eq!(sender.session_type(&layer), SessionType::P2P);
    assert_eq!(layer.default_id(node(2)), Some(node(2)));
    assert_eq!(layer.default_id(node(9)), None);
    assert_eq!(layer.get_server_session(), None);
    let server = establish(&mut layer, 7477, &[]);
    assert_eq!(layer.get_server_session(), Some(server));
    assert_eq!(layer.origin(addr(5)), Origin::Session(session));
    assert_eq!(layer.origin(addr(6)), Origin::Unknown);
    let leased = layer.init_protocol.as_mut().unwrap().lease_temporary_session(addr(6), SessionId { value: 1 });
    assert_eq!(layer.origin(addr(6)), Origin::Temporary(leased));
}

#[test]
fn a_new_session_replaces_the_one_with_the_same_address() {
    let mut layer = layer();
    let first = establish(&mut layer, 5, &[2]);
    let owner = NodeSnapshot { id: node(2), index: 0, generation: 1 };
    let second = layer.register_session(registration(5, &[2]), &owner).unwrap();
    assert!(!layer.is_open(&first));
    assert!(layer.is_open(&second));
    assert_eq!(layer.find_session(addr(5)), Some(second));
}

#[test]
fn closing_a_session_leaves_nothing_of_it() {
    let mut layer = layer();
    let session = establish(&mut layer, 5, &[2, 3]);
    let closed = layer.close_session(session, 1).unwrap();
    assert_eq!(closed.target, node(2));
    assert_eq!(closed.disconnect.unwrap().remote, addr(5));
    assert!(!layer.is_open(&session));
    assert_eq!(layer.find_session(addr(5)), None);
    assert_eq!(layer.get_node_routing(node(3)), None);
    let again = establish(&mut layer, 5, &[2, 3]);
    assert!(again != session);
    assert_eq!(layer.disconnect(node(2), 1).unwrap().target, node(2));
    assert!(!layer.is_open(&again));
    // There is nothing left to close.
    assert_eq!(
        layer.disconnect(node(2), 1),
        Err(SessionError::Internal("State transition not allowed from: Closed to Closing".to_string()))
    );
}

#[test]
fn losing_the_server_forgets_nodes_behind_it() {
    let mut layer = layer();
    let server = establish(&mut layer, 7477, &[]);
    layer.registry.update_entry(&info(&[2, 3], vec![], 33), 0).unwrap();
    let mut relayed = permit(&mut layer, node(2), vec![]);
    layer.begin_relayed_connection(&relayed).unwrap();
    assert_eq!(layer.try_relayed_connection(&relayed, Ok(server), plain()), Ok(server));
    relayed.collect_results(Ok(server)).unwrap();
    let state = relayed.final_state();
    assert!(SessionPermit::release(relayed.registry, &mut layer.registry, state).is_none());
    let sender = layer.get_node_routing(node(3)).unwrap();
    assert_eq!(sender.session_type(&layer), SessionType::Relay);
    assert_eq!(sender.route(&layer), NodeId::default());
    assert!(!layer.is_p2p(node(2)));
    match sender.send(&layer, vec![1], TransportType::Reliable) {
        Sending::Done(Ok(packet)) => assert_eq!((packet.slot, packet.payload), (33, vec![1])),
        _ => panic!("expected a packet"),
    }
    layer.unregister_session(server);
    assert_eq!(layer.get_node_routing(node(2)), None);
    assert!(layer.registry.get_entry(node(2)).is_none());
    assert!(matches!(
        sender.send(&layer, vec![1], TransportType::Reliable),
        Sending::Connect(packet) if packet == vec![1]
    ));
    assert_eq!(
        sender.send_connected(&layer, vec![1], TransportType::Reliable).err(),
        Some(SessionError::Unexpected("Routing session closed unexpectedly.".to_string()))
    );
}

#[test]
fn own_addresses_are_filtered_out() {
    let mut layer = layer();
    layer.set_public_addr(Some(addr(77)));
    assert_eq!(layer.get_public_addr(), Some(addr(77)));
    assert_eq!(layer.get_local_addr(), Some(addr(1000)));
    assert_eq!(
        layer.filter_own_addresses(&vec![addr(1000), addr(5), addr(77), addr(6)]),
        vec![addr(5), addr(6)]
    );
}

#[test]
fn information_is_asked_for_where_needed() {
    let mut layer = layer();
    assert!(matches!(layer.query_node_info(node(2), 0), InfoQuery::Ask));
    let failures = vec![
        (
            InfoReply::NoServer(SessionError::Timeout("late".to_string())),
            "Failed to get relay server session: Timeout: late",
        ),
        (InfoReply::NotFound("e".to_string()), "Failed to find Node on relay server: e"),
        (InfoReply::Malformed("e".to_string()), "Failed to convert NodeInfo: e"),
    ];
    for (reply, text) in failures {
        assert_eq!(layer.node_info_received(reply, 0).err(), Some(text.to_string()));
    }
    let found = layer.node_info_received(InfoReply::Found(info(&[2], vec![], 4)), 0);
    assert_eq!(found.ok().unwrap().slot, 4);
    assert!(matches!(layer.query_node_info(node(2), 0), InfoQuery::Known(i) if i.slot == 4));
}

#[test]
fn shutdown_closes_all_sessions() {
    let mut layer = layer();
    establish(&mut layer, 5, &[2]);
    establish(&mut layer, 6, &[3]);
    let stopped = layer.begin_shutdown();
    assert_eq!(stopped.tasks, vec![31, 32]);
    assert!(stopped.handshakes.is_empty());
    assert!(layer.close_next().is_some());
    assert!(layer.close_next().is_some());
    assert!(layer.close_next().is_none());
    layer.end_shutdown();
    assert!(layer.sessions().is_empty());
    assert!(layer.list_connected().is_empty());
}

#[test]
fn initializations_can_be_aborted() {
    let mut layer = layer();
    assert_eq!(
        layer.abort_initializations(addr(5)).err(),
        Some(SessionError::NotFound("Can't find `NodeView` by addr 127.0.0.1:5".to_string()))
    );
    let permit = permit(&mut layer, node(2), vec![addr(5)]);
    permit.registry.register_abortable(&mut layer.registry, 12);
    let leased = layer.init_protocol.as_mut().unwrap().lease_temporary_session(addr(5), SessionId { value: 1 });
    let aborted = layer.abort_initializations(addr(5)).ok().unwrap();
    assert_eq!(aborted.initializations, vec![12]);
    assert_eq!(aborted.disconnect, Ok(Some(leased)));
}

#[test]
fn requests_for_a_way_to_a_node_run_through_their_steps() {
    let mut layer = layer();
    let mut request = Connecting::new(node(2), vec![ConnectionMethod::Direct]);
    assert!(matches!(
        layer.session_filtered_connection_methods(&mut request, ConnectEvent::Begin, 0),
        ConnectAction::QueryInfo
    ));
    let found = info(&[2], vec![addr(5)], 3);
    let permit = match layer.session_filtered_connection_methods(
        &mut request,
        ConnectEvent::Info(Ok(found.duplicate())),
        0,
    ) {
        ConnectAction::Resolve { permit, dont_use } => {
            assert_eq!(dont_use, vec![ConnectionMethod::Direct]);
            permit
        }
        _ => panic!("expected a permit"),
    };
    assert_eq!(request.step, ConnectStep::Establishing(node(2)));
    // Someone else has to wait meanwhile.
    let mut second =
        Connecting { step: ConnectStep::Querying, ..Connecting::new(node(2), vec![]) };
    assert!(matches!(
        layer.session_filtered_connection_methods(&mut second, ConnectEvent::Info(Ok(found)), 0),
        ConnectAction::Wait(_)
    ));
    for stage in STAGES {
        permit.registry.transition_outgoing(&mut layer.registry, stage).unwrap();
    }
    let session = layer.register_session(registration(5, &[2]), &permit.owner()).unwrap();
    assert!(matches!(
        layer.session_filtered_connection_methods(&mut request, ConnectEvent::Established(Ok(session)), 0),
        ConnectAction::Finish { result: Ok(sender), watch: Some(s) }
            if sender.target == node(2) && s == session
    ));
    let mut third = Connecting::new(node(2), vec![]);
    assert!(matches!(
        layer.session_filtered_connection_methods(&mut third, ConnectEvent::Begin, 0),
        ConnectAction::AwaitConnected(_)
    ));
    assert!(matches!(
        layer.session_filtered_connection_methods(&mut third, ConnectEvent::Connected(Ok(())), 0),
        ConnectAction::Finish { result: Ok(_), watch: None }
    ));
    assert!(matches!(
        layer.session_filtered_connection_methods(&mut third, ConnectEvent::Begin, 0),
        ConnectAction::Ignore
    ));
}

#[test]
fn requests_for_a_way_to_a_node_fail_for_their_reasons() {
    let mut layer = layer();
    let mut fails = |event| {
        let mut request =
            Connecting { step: ConnectStep::Querying, ..Connecting::new(node(2), vec![]) };
        match layer.session_filtered_connection_methods(&mut request, event, 0) {
            ConnectAction::Finish { result: Err(e), .. } => e,
            _ => panic!("expected a failure"),
        }
    };
    assert_eq!(
        fails(ConnectEvent::Info(Err("e".to_string()))),
        SessionError::NotFound(
            "Error querying node 0x0000000000000000000000000000000000000002: e".to_string()
        )
    );
    assert_eq!(
        fails(ConnectEvent::Info(Ok(info(&[], vec![], 3)))),
        SessionError::Unexpected(
            "No default id from relay response for [0x0000000000000000000000000000000000000002]".to_string()
        )
    );
    assert_eq!(
        fails(ConnectEvent::Info(Ok(info(&[1], vec![], 3)))),
        SessionError::BadRequest(
            "Remote id [0x0000000000000000000000000000000000000001] belongs to this node.".to_string()
        )
    );
    assert_eq!(
        layer.await_connected(node(2)).err(),
        Some(SessionError::Internal(
            "Entry for Node [0x0000000000000000000000000000000000000002] not found, despite it should exits.".to_string()
        ))
    );
}

#[test]
fn the_server_session_is_shared() {
    let mut layer = layer();
    let permit = match layer.server_session(0) {
        ServerAction::Establish { permit, node_id, addr: a } => {
            assert_eq!((node_id, a), (NodeId::default(), addr(7477)));
            permit
        }
        _ => panic!("expected to establish"),
    };
    assert!(matches!(layer.server_session(0), ServerAction::Wait(_)));
    let session = layer.register_session(registration(7477, &[]), &permit.owner()).unwrap();
    assert_eq!(
        layer.try_server_session(Ok(session), Ok(vec![None, Some(addr(55)), Some(addr(56))])),
        Ok((session, true))
    );
    assert_eq!(layer.get_public_addr(), Some(addr(55)));
    assert!(matches!(layer.server_session(0), ServerAction::Ready(s) if s == session));
    let failed = || SessionError::Timeout("late".to_string());
    assert!(layer
        .try_server_session(Err(SessionInitError::Relay(addr(7477), failed())), Ok(vec![]))
        .is_err());
    let refused = SessionLayer::server_established(Err(failed()));
    assert_eq!(refused.result, Err(SessionError::Generic("Timeout: late".to_string())));
    assert_eq!(refused.watch, None);
    let ready = SessionLayer::server_established(Ok(session));
    assert_eq!((ready.result, ready.watch), (Ok(session), Some(session)));
    assert_eq!(
        fresh_layer().try_server_session(Ok(session), Ok(vec![])),
        Err(SessionError::Internal("`SessionProtocol` empty (not initialized?)".to_string()))
    );
}

#[test]
fn ways_to_a_node_are_tried_in_order() {
    let mut layer = layer();
    let permit = permit(&mut layer, node(2), vec![addr(5)]);
    let none = vec![];
    assert!(matches!(
        layer.resolve(node(2), &permit, &none, ResolveEvent::Begin),
        ResolveAction::Try(ConnectionMethod::Direct)
    ));
    assert!(matches!(
        layer.resolve(node(2), &permit, &none, ResolveEvent::Failed(ConnectionMethod::Direct)),
        ResolveAction::Try(ConnectionMethod::Reverse)
    ));
    assert_eq!(permit.registry.state(&layer.registry), SessionState::RestartConnect);
    assert!(matches!(
        layer.resolve(node(2), &permit, &none, ResolveEvent::Failed(ConnectionMethod::Reverse)),
        ResolveAction::Try(ConnectionMethod::Relay)
    ));
    assert!(matches!(
        layer.resolve(node(2), &permit, &none, ResolveEvent::Failed(ConnectionMethod::Relay)),
        ResolveAction::Finish { result: Err(SessionError::Generic(text)), established: None }
            if text == "All attempts to establish session with node [0x0000000000000000000000000000000000000002] failed"
    ));
    let only_direct = vec![ConnectionMethod::Reverse, ConnectionMethod::Relay];
    assert!(matches!(
        layer.resolve(node(2), &permit, &only_direct, ResolveEvent::Failed(ConnectionMethod::Direct)),
        ResolveAction::Finish { result: Err(_), .. }
    ));
    let session = SessionHandle { number: 4 };
    assert!(matches!(
        layer.resolve(node(2), &permit, &none, ResolveEvent::Succeeded(ConnectionMethod::Reverse, session)),
        ResolveAction::Finish { result: Ok(s), established: Some(ConnectionMethod::Reverse) } if s == session
    ));
}

#[test]
fn direct_attempts_try_each_address_once() {
    let mut layer = layer();
    let without = permit(&mut layer, node(3), vec![]);
    assert_eq!(
        layer.try_direct_session(node(3), &without).err(),
        Some(SessionError::NotApplicable(
            "Node [0x0000000000000000000000000000000000000003] has no public endpoints.".to_string()
        ))
    );
    let permit = permit(&mut layer, node(2), vec![addr(5), addr(6)]);
    let mut attempt: DirectAttempt = layer.try_direct_session(node(2), &permit).ok().unwrap();
    let failed = || Some(Err(SessionInitError::P2P(node(2), SessionError::Timeout("late".to_string()))));
    assert!(matches!(attempt.step(None), DirectAction::Init(a) if a == addr(5)));
    assert!(matches!(attempt.step(failed()), DirectAction::Init(a) if a == addr(6)));
    assert!(matches!(
        attempt.step(failed()),
        DirectAction::Finish(Err(SessionError::Generic(text)))
            if text == "All attempts to establish direct session with node [0x0000000000000000000000000000000000000002] failed"
    ));
    assert!(matches!(
        attempt.step(Some(Ok(SessionHandle { number: 3 }))),
        DirectAction::Finish(Ok(_))
    ));
}

#[test]
fn reverse_connections_are_asked_for_in_steps() {
    let mut layer = layer();
    let permit = permit(&mut layer, node(2), vec![]);
    let start = || ReverseAttempt { node_id: node(2), step: ReverseStep::Begin };
    let mut attempt = start();
    assert!(matches!(
        layer.try_reverse_connection(&mut attempt, &permit, ReverseEvent::Begin),
        ReverseAction::Finish(Err(SessionError::NotApplicable(text)))
            if text == "We don't have public endpoints."
    ));
    layer.set_public_addr(Some(addr(77)));
    let mut attempt = start();
    assert!(matches!(
        layer.try_reverse_connection(&mut attempt, &permit, ReverseEvent::Begin),
        ReverseAction::GetServer(_)
    ));
    assert_eq!(
        permit.registry.state(&layer.registry),
        SessionState::ReverseConnection(ReverseState::Awaiting)
    );
    let server = SessionHandle { number: 3 };
    assert!(matches!(
        layer.try_reverse_connection(&mut attempt, &permit, ReverseEvent::Server(Ok(server))),
        ReverseAction::Request { server: s, node_id } if s == server && node_id == node(2)
    ));
    assert!(matches!(
        layer.try_reverse_connection(&mut attempt, &permit, ReverseEvent::Requested(Ok(()))),
        ReverseAction::AwaitHandshake(3_000)
    ));
    let mut unheard = ReverseAttempt { node_id: node(2), step: attempt.step };
    assert!(matches!(
        layer.try_reverse_connection(&mut unheard, &permit, ReverseEvent::NoHandshake("elapsed".to_string())),
        ReverseAction::Finish(Err(SessionError::Timeout(text)))
            if text == "Timeout (3s) elapsed when waiting for `ReverseConnection` handshake. elapsed"
    ));
    assert!(matches!(
        layer.try_reverse_connection(&mut attempt, &permit, ReverseEvent::Handshake(Ok(()))),
        ReverseAction::AwaitFinish(13_000)
    ));
    assert!(matches!(
        layer.try_reverse_connection(&mut attempt, &permit, ReverseEvent::NotFinished),
        ReverseAction::Finish(Err(SessionError::Timeout(text)))
            if text == "Not able to setup ReverseConnection within timeout with node: [0x0000000000000000000000000000000000000002]"
    ));
}

#[test]
fn requests_to_connect_back_are_followed_directly() {
    let mut layer = layer();
    let message = |bytes, endpoints| ReverseConnection { node_id: bytes, endpoints };
    assert_eq!(
        layer.on_reverse_connection(addr(7477), &message(vec![1, 2], vec![]), 0).err(),
        Some("ReverseConnection with invalid NodeId: [1, 2]. Invalid NodeId length".to_string())
    );
    assert_eq!(
        layer.on_reverse_connection(addr(7477), &message(node(2).to_bytes(), vec![]), 0).err(),
        Some("Got ReverseConnection for Node [0x0000000000000000000000000000000000000002] from 127.0.0.1:7477 with no endpoints to connect to.".to_string())
    );
    let request = layer
        .on_reverse_connection(addr(7477), &message(node(2).to_bytes(), vec![Some(addr(5)), None]), 0)
        .ok()
        .unwrap()
        .unwrap();
    assert_eq!(request.node_id, node(2));
    assert_eq!(request.dont_use, vec![ConnectionMethod::Reverse, ConnectionMethod::Relay]);
    assert!(layer
        .on_reverse_connection(addr(7477), &message(node(2).to_bytes(), vec![Some(addr(5))]), 0)
        .ok()
        .unwrap()
        .is_none());
    assert_eq!(
        SessionLayer::reverse_connection_resolved(node(2), Err(SessionError::Timeout("late".to_string()))),
        Err("Failed to resolve ReverseConnection. node_id=0x0000000000000000000000000000000000000002 error=Timeout: late".to_string())
    );
}

#[test]
fn repeated_requests_are_dropped() {
    let mut layer = layer();
    assert!(matches!(
        layer.on_request(vec![1], 7, Some(RequestKind::Ping), addr(5)),
        RequestAction::Pong { request_id: 7, to, .. } if to == addr(5)
    ));
    assert!(matches!(
        layer.on_request(vec![1], 7, Some(RequestKind::Ping), addr(5)),
        RequestAction::Nothing
    ));
    assert!(matches!(
        layer.on_request(vec![1], 7, Some(RequestKind::Ping), addr(6)),
        RequestAction::Pong { .. }
    ));
    assert!(matches!(
        layer.on_request(vec![1], 8, Some(RequestKind::Other), addr(5)),
        RequestAction::Nothing
    ));
    assert!(matches!(layer.on_request(vec![1], 9, None, addr(5)), RequestAction::Nothing));
}

#[test]
fn handshake_requests_take_or_await_the_lock() {
    let mut layer = layer();
    let first = layer.dispatch_session(vec![], 1, addr(5), session_request(), Ok(node(2)), 0);
    assert!(matches!(first, Ok(SessionDispatch::NewSession(_))));
    let second = layer.dispatch_session(vec![], 2, addr(5), session_request(), Ok(node(2)), 0);
    assert!(matches!(second, Ok(SessionDispatch::InProgress(_))));
    let id = SessionId { value: 9 };
    let unknown = layer.dispatch_session(id.to_bytes(), 3, addr(5), session_request(), Ok(node(2)), 0);
    assert!(matches!(
        unknown,
        Err(SessionError::Protocol(ProtocolError::SessionNotFound(i))) if i == id
    ));
    layer.init_protocol.as_mut().unwrap().begin_incoming(id, addr(5), 1);
    let known = layer.dispatch_session(id.to_bytes(), 3, addr(5), session_request(), Ok(node(2)), 0);
    assert!(matches!(known, Ok(SessionDispatch::Continued)));
    assert!(layer
        .dispatch_session(vec![], 4, addr(6), session_request(), Err("no".to_string()), 0)
        .is_err());
}

#[test]
fn only_the_own_session_is_closed_by_its_id() {
    let mut layer = layer();
    let session = establish(&mut layer, 5, &[2]);
    let own = SessionId { value: 5 }.to_bytes();
    let other = SessionId { value: 99 }.to_bytes();
    assert_eq!(
        layer.on_disconnected(vec![1], addr(5), By::SessionId(own.clone()), 0).err(),
        Some("Invalid SessionId length".to_string())
    );
    let _ = layer.on_disconnected(own.clone(), addr(6), By::SessionId(own.clone()), 0);
    assert!(layer.is_open(&session));
    let _ = layer.on_disconnected(own.clone(), addr(5), By::SessionId(other), 0);
    assert!(layer.is_open(&session));
    let r = layer.on_disconnected(own.clone(), addr(5), By::SessionId(own), 0);
    assert!(matches!(r, Ok(Disconnected::Session(Ok(_)))));
    assert!(!layer.is_open(&session));
}

#[test]
fn lost_slots_stop_forwarding() {
    let mut layer = layer();
    let server = establish(&mut layer, 7477, &[]);
    let entry = NodeEntry { default_id: node(2), identities: vec![node(2)] };
    layer.register_forward(server, entry, 33);
    let id = SessionId { value: 7477 }.to_bytes();
    let r = layer.on_disconnected(id.clone(), addr(7477), By::Slot(34), 0);
    assert!(matches!(r, Ok(Disconnected::Nothing)));
    let r = layer.on_disconnected(id.clone(), addr(7477), By::Slot(33), 0);
    assert!(matches!(r, Ok(Disconnected::Node(n, _)) if n == node(2)));
    assert!(layer.sessions.get(&server).unwrap().get_by_slot(33).is_none());
    assert_eq!(layer.remove_forward(server, 33).is_err(), true);
}

#[test]
fn control_messages_change_forwarding() {
    let mut layer = layer();
    let session = establish(&mut layer, 5, &[2]);
    let id = SessionId { value: 5 }.to_bytes();
    assert!(matches!(
        layer.on_control(id.clone(), Some(ControlKind::PauseForwarding), addr(5), 0),
        ControlAction::Forwarding { session: s, paused: true } if s == session
    ));
    assert!(layer.sessions.get(&session).unwrap().wait_for_resume());
    layer.on_control(id.clone(), Some(ControlKind::ResumeForwarding), addr(5), 0);
    assert!(!layer.sessions.get(&session).unwrap().wait_for_resume());
    assert!(matches!(
        layer.on_control(id.clone(), Some(ControlKind::PauseForwarding), addr(6), 0),
        ControlAction::Nothing
    ));
    assert!(matches!(layer.on_control(id, None, addr(5), 0), ControlAction::Nothing));
}

#[test]
fn packets_wait_for_the_end_of_an_incoming_handshake() {
    let mut layer = layer();
    let other = establish(&mut layer, 6, &[3]);
    let permit = match layer.registry.lock_incoming(node(2), &vec![addr(5)], 0) {
        SessionLock::Permit(permit) => permit,
        SessionLock::Wait(_) => panic!("expected a permit"),
    };
    let id = SessionId { value: 5 };
    let mut handshake = IncomingHandshake::new(addr(5), permit.registry, id, 3, false);
    let proven = Recovered { node_id: node(2), identities: vec![identity(2)], session_key: None };
    layer.init_session_handler(&mut handshake, IncomingEvent::Begin);
    layer.init_session_handler(&mut handshake, IncomingEvent::ChallengeSent(true));
    layer.init_session_handler(&mut handshake, IncomingEvent::Request(Some(4)));
    layer.init_session_handler(&mut handshake, IncomingEvent::Validated(Ok(proven)));
    assert!(matches!(
        layer.init_session_handler(&mut handshake, IncomingEvent::Solved(Ok(()))),
        IncomingAction::Register { .. }
    ));
    let session = layer.register_session(registration(5, &[2]), &permit.owner()).unwrap();
    assert!(!layer.sessions.get(&session).unwrap().wait_for_resume());
    assert!(matches!(
        layer.init_session_handler(&mut handshake, IncomingEvent::Registered(Ok(session))),
        IncomingAction::Respond { session: s, request_id: 4 } if s == session
    ));
    assert!(layer.sessions.get(&session).unwrap().wait_for_resume());
    assert!(!layer.sessions.get(&other).unwrap().wait_for_resume());
    assert!(matches!(
        layer.init_session_handler(&mut handshake, IncomingEvent::Responded(true)),
        IncomingAction::AwaitResume(s) if s == session
    ));
    assert!(layer.sessions.get(&session).unwrap().wait_for_resume());
    layer.on_control(id.to_bytes(), Some(ControlKind::ResumeForwarding), addr(5), 0);
    assert!(!layer.sessions.get(&session).unwrap().wait_for_resume());
    assert!(matches!(
        layer.init_session_handler(&mut handshake, IncomingEvent::Resumed),
        IncomingAction::Finish(s) if s == session
    ));
}

fn forward(slot: u32, reliable: bool) -> IncomingForward {
    IncomingForward {
        session_id: SessionId { value: 5 },
        slot,
        reliable,
        encrypted: false,
        payload: vec![1, 2],
        encoded_len: 20,
    }
}

#[test]
fn payloads_are_handed_on_under_the_id_of_their_sender() {
    let mut layer = layer();
    let session = establish(&mut layer, 5, &[2]);
    let direct = layer.sessions.get(&session);
    match layer.on_forward(forward(0, false), addr(5), direct) {
        ForwardAction::Deliver { packet, counters } => {
            assert_eq!((packet.node_id, packet.transport), (node(2), TransportType::Unreliable));
            assert_eq!(packet.payload, vec![1, 2]);
            assert_eq!((counters.0.value, counters.1.value), (20, 1));
        }
        _ => panic!("expected a payload"),
    }
    let (pending, owner) = match layer.on_forward(forward(9, true), addr(5), direct) {
        ForwardAction::Resolve { forward, owner, dont_use } => {
            assert_eq!(dont_use, vec![ConnectionMethod::Reverse, ConnectionMethod::Direct]);
            (forward, owner)
        }
        _ => panic!("expected a question for the sender"),
    };
    assert_eq!((pending.slot, owner), (9, node(2)));
    assert!(matches!(
        layer.on_forward(forward(0, true), addr(6), None),
        ForwardAction::SendDisconnect { to, .. } if to == addr(6)
    ));
    // The payload is handed on though the session has ended meanwhile.
    layer.close_session(session, 0).ok().unwrap();
    match layer.forward_resolved(pending, owner, Ok(node(3))) {
        Ok(ForwardAction::Deliver { packet, counters }) => {
            assert_eq!((packet.node_id, packet.transport), (node(3), TransportType::Reliable));
            assert_eq!((counters.0.node, counters.0.relay), (node(3), node(2)));
        }
        _ => panic!("expected a payload"),
    }
    let late = SessionError::Timeout("late".to_string());
    assert_eq!(
        layer.forward_resolved(forward(9, true), owner, Err(late)).err(),
        Some("Failed to resolve node with slot 9. Timeout: late".to_string())
    );
}

fn aes(secret: u8) -> SessionEncryption {
    SessionEncryption::Aes256GcmSiv(Aes256GcmSivEncryption::new([secret; 32]))
}

/// What a node that agreed on an encryption with node 2 sends there.
fn sealed(encryption: SessionEncryption, payload: Vec<u8>, transport: TransportType) -> Forward {
    let mut layer = layer();
    let session = establish_with(&mut layer, 5, &[2], encryption);
    let sender = layer.get_node_routing(node(2)).unwrap();
    assert_eq!(sender.route_session(&layer), Some(session));
    match sender.send(&layer, payload, transport) {
        Sending::Done(Ok(packet)) => packet,
        _ => panic!("expected a packet"),
    }
}

fn arrived(packet: Forward, slot: u32) -> IncomingForward {
    IncomingForward {
        session_id: SessionId { value: 7 },
        slot,
        reliable: packet.reliable,
        encrypted: packet.encrypted,
        payload: packet.payload,
        encoded_len: 100,
    }
}

#[test]
fn what_is_sent_is_handed_on_at_the_other_node() {
    for encryption in [plain(), aes(7)] {
        let mut there = layer();
        let session = establish_with(&mut there, 7, &[3], encryption);
        let direct = there.sessions.get(&session);
        for transport in
            [TransportType::Unreliable, TransportType::Reliable, TransportType::Transfer]
        {
            let packet = sealed(encryption, vec![9, 8, 7], transport);
            assert_eq!(packet.encrypted, matches!(encryption, SessionEncryption::Aes256GcmSiv(_)));
            assert_eq!(packet.payload == vec![9, 8, 7], !packet.encrypted);
            match there.on_forward(arrived(packet, 0), addr(7), direct) {
                ForwardAction::Deliver { packet, counters } => {
                    assert_eq!((packet.node_id, packet.payload), (node(3), vec![9, 8, 7]));
                    assert_eq!(
                        packet.transport == TransportType::Unreliable,
                        transport == TransportType::Unreliable
                    );
                    assert_eq!(counters.0.value, 100);
                }
                _ => panic!("expected a payload"),
            }
        }
        let packet = sealed(encryption, vec![4], TransportType::Reliable);
        match there.forward_resolved(arrived(packet, 9), NodeId::default(), Ok(node(3))) {
            Ok(ForwardAction::Deliver { packet, .. }) => {
                assert_eq!((packet.node_id, packet.payload), (node(3), vec![4]));
            }
            _ => panic!("expected a payload"),
        }
    }
}

#[test]
fn packets_that_can_not_be_decrypted_are_dropped() {
    let mut there = layer();
    let session = establish_with(&mut there, 7, &[3], aes(8));
    let direct = there.sessions.get(&session);
    let dropped = |action| match action {
        ForwardAction::Discard { sender, reason } => (sender, reason),
        _ => panic!("expected nothing to be handed on"),
    };
    let foreign = arrived(sealed(aes(7), vec![1], TransportType::Reliable), 0);
    assert_eq!(
        dropped(there.on_forward(foreign, addr(7), direct)),
        (node(3), "aead::Error".to_string())
    );
    let short = IncomingForward { encrypted: true, ..forward(0, true) };
    assert_eq!(
        dropped(there.on_forward(short, addr(7), direct)).1,
        "Encrypted payload is too short: expected at least 28 bytes, got 2"
    );
    let unknown = arrived(sealed(aes(8), vec![1], TransportType::Reliable), 9);
    let action = there.forward_resolved(unknown, NodeId::default(), Ok(node(4)));
    assert_eq!(
        dropped(action.ok().unwrap()).1,
        "No routing to decrypt a packet from [0x0000000000000000000000000000000000000004]"
    );
}

#[test]
fn handshakes_of_others_get_a_deadline() {
    let mut closed = fresh_layer();
    assert_eq!(
        closed.begin_incoming(SessionId { value: 9 }, addr(5), 1),
        Err(SessionError::Internal("`SessionProtocol` empty (not initialized?)".to_string()))
    );
    let mut layer = layer();
    assert_eq!(layer.begin_incoming(SessionId { value: 9 }, addr(5), 1), Ok(16_000));
    let protocol = layer.init_protocol.as_mut().unwrap();
    assert_eq!((protocol.incoming_len(), protocol.handles_len()), (1, 1));
}

#[test]
fn senders_without_a_routing_connect_first() {
    let layer = layer();
    let sender = RoutingSender::empty(node(2));
    assert!(matches!(
        sender.send(&layer, vec![7], TransportType::Unreliable),
        Sending::Connect(packet) if packet == vec![7]
    ));
}

#[test]
fn failed_attempt_leaves_nothing_behind() {
    let mut layer = layer();
    let mut permit = permit(&mut layer, node(2), vec![addr(20), addr(21)]);
    permit.registry.register_abortable(&mut layer.registry, 77);
    for stage in STAGES {
        permit.registry.transition_outgoing(&mut layer.registry, stage).unwrap();
    }
    let session = layer.register_session(registration(20, &[2]), &permit.owner()).unwrap();
    layer
        .init_protocol
        .as_mut()
        .unwrap()
        .lease_temporary_session(addr(21), SessionId { value: 5 });
    let error = SessionError::Timeout("too late".to_string());
    assert!(permit.collect_results(Err(error)).is_err());
    let state = permit.final_state();
    let released = SessionPermit::async_drop(permit.registry, &mut layer, state);

    let cleaned = released.first.unwrap();
    assert!(released.again.is_none());
    assert_eq!(cleaned.aborted.len(), 2);
    let first = cleaned.aborted[0].as_ref().ok().unwrap();
    assert_eq!(first.initializations, vec![77]);
    assert!(matches!(first.disconnect, Ok(None)));
    let second = cleaned.aborted[1].as_ref().ok().unwrap();
    assert!(second.initializations.is_empty());
    match &second.disconnect {
        Ok(Some(raw)) => assert_eq!((raw.id.value, raw.remote), (5, addr(21))),
        _ => panic!("expected a temporary session"),
    }
    assert_eq!(cleaned.closed.disconnect.unwrap().remote, addr(20));
    assert!(!layer.is_open(&session));
    assert!(layer.get_node_routing(node(2)).is_none());
    assert!(layer.registry.get_entry(node(2)).is_none());
    assert!(matches!(
        permit.registry.state(&layer.registry),
        SessionState::FailedEstablish(SessionError::Timeout(_))
    ));
}

#[test]
fn established_session_survives_its_permit() {
    let mut layer = layer();
    let mut permit = permit(&mut layer, node(2), vec![addr(20)]);
    permit.registry.register_abortable(&mut layer.registry, 77);
    for stage in STAGES {
        permit.registry.transition_outgoing(&mut layer.registry, stage).unwrap();
    }
    let session = layer.register_session(registration(20, &[2]), &permit.owner()).unwrap();
    assert!(permit.collect_results(Ok(session)).is_ok());
    let state = permit.final_state();
    let released = SessionPermit::async_drop(permit.registry, &mut layer, state);
    assert!(released.first.is_none() && released.again.is_none());
    assert!(layer.is_open(&session));
    assert!(permit.registry.abort_initialization(&mut layer.registry).is_empty());
}

#[test]
fn outcome_that_does_not_fit_becomes_a_failure() {
    let mut layer = layer();
    let mut permit = permit(&mut layer, node(2), vec![addr(20)]);
    let session = layer.register_session(registration(20, &[2]), &permit.owner()).unwrap();
    assert!(permit.collect_results(Ok(session)).is_ok());
    let state = permit.final_state();
    let released = SessionPermit::async_drop(permit.registry, &mut layer, state);
    assert!(released.first.is_none());
    assert_eq!(released.again.unwrap().closed.target, node(2));
    assert!(!layer.is_open(&session));
    match permit.registry.state(&layer.registry) {
        SessionState::FailedEstablish(SessionError::ProgrammingError(text)) => {
            assert!(text.starts_with("Failed to transition to state: "))
        }
        _ => panic!("expected a failure"),
    }
}
