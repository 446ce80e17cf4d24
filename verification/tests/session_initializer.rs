use ya_relay_client::config::{ClientBuilder, ClientConfig, Surroundings};
use ya_relay_client::error::{ProtocolError, RequestError, SessionError, SessionInitError};
use ya_relay_client::model::{
    Identity, IpAddr, NodeId, PublicKey, SessionHandle, SessionId, SocketAddr,
};
use ya_relay_client::network_view::{NetworkView, NetworkViewConfig, NodeView, SessionLock};
use ya_relay_client::session_events::{RequestAction, RequestKind};
use ya_relay_client::session_initializer::{
    heavy_threads, init_p2p_session, init_server_session, list_crypto, prepare_session_request,
    ChallengeRequest, IncomingAction, IncomingEvent, IncomingHandshake, OutgoingAction,
    OutgoingEvent, OutgoingHandshake, Recovered, SessionInitializer, SessionRequest, TaskOutcome,
    MAX_INCOMING_HANDSHAKES,
};
use ya_relay_client::session_layer::SessionLayer;

fn addr(port: u16) -> SocketAddr {
    SocketAddr { ip: IpAddr::V4(0x7f00_0001), port }
}

fn node(n: u32) -> NodeId {
    NodeId { high: 0, low: n }
}

fn key(n: u128) -> PublicKey {
    PublicKey { x_high: n, x_low: 0, y_high: 0, y_low: 0 }
}

fn identity(n: u32) -> Identity {
    Identity { node_id: node(n), public_key: key(n as u128) }
}

fn id(value: u128) -> SessionId {
    SessionId { value }
}

fn config() -> ClientConfig {
    ClientBuilder::from_url("udp://127.0.0.1:7477".to_string())
        .build_config(Surroundings {
            identity: Ok((node(1), key(1))),
            max_transmission_unit: Ok(1280),
            srv_addr: Ok(addr(7477)),
        })
        .ok()
        .unwrap()
}

fn setup() -> SessionLayer {
    let mut layer = SessionLayer::new(config());
    layer.spawned(addr(1000), vec![]);
    layer
}

fn protocol(layer: &mut SessionLayer) -> &mut SessionInitializer {
    layer.init_protocol.as_mut().unwrap()
}

fn empty() -> SessionRequest {
    SessionRequest { identities: vec![], challenge_req: None, challenge_resp: None }
}

fn hello() -> Option<RequestKind> {
    Some(RequestKind::Session(empty()))
}

fn is_some(action: RequestAction) -> bool {
    match action {
        RequestAction::Nothing => false,
        _ => true,
    }
}

#[test]
fn unknown_continuations_never_create_tasks_or_handshake_slots() {
    let mut layer = setup();
    let remote = addr(12345);
    for request_id in 0..10_000u64 {
        let session_id = id(request_id as u128 + 1).to_bytes();
        assert!(!is_some(layer.on_request(session_id, request_id, hello(), remote)));
    }
    assert!(protocol(&mut layer).is_idle());
}

#[test]
fn known_continuations_are_delivered_without_spawning_or_waiting() {
    let mut layer = setup();
    let session = id(77);
    let remote = addr(12345);
    let foreign = addr(12346);
    protocol(&mut layer).begin_incoming(session, remote, 1);
    assert!(!is_some(layer.on_request(session.to_bytes(), 0, hello(), foreign)));
    assert!(protocol(&mut layer).next_request(&session).is_none());
    for request_id in 1..10_000 {
        assert!(!is_some(layer.on_request(session.to_bytes(), request_id, hello(), remote)));
    }
    assert_eq!(protocol(&mut layer).next_request(&session).unwrap().0, 1);
    assert!(protocol(&mut layer).next_request(&session).is_none());
    assert_eq!(protocol(&mut layer).admitted_len(), 0);
}

#[test]
fn repeated_hello_reserves_one_slot_before_spawning() {
    let mut layer = setup();
    let from = addr(12345);
    assert!(is_some(layer.on_request(vec![], 0, hello(), from)));
    for request_id in 1..10_000 {
        assert!(!is_some(layer.on_request(vec![], request_id, hello(), from)));
    }
    assert_eq!(protocol(&mut layer).admitted_len(), 1);
    assert_eq!(protocol(&mut layer).incoming_len(), 0);
    assert_eq!(protocol(&mut layer).handles_len(), 0);
    layer.release_admission(from);
    assert_eq!(protocol(&mut layer).admitted_len(), 0);
    assert!(protocol(&mut layer).is_idle());
    assert!(is_some(layer.on_request(vec![], 10_000, hello(), from)));
}

#[test]
fn changing_ports_cannot_exceed_global_handshake_admission_limit() {
    let mut layer = setup();
    let mut pending = Vec::new();
    for port in 10000..11000 {
        // Equal request ids from distinct endpoints must not collide in deduplication.
        if is_some(layer.on_request(vec![], 1, hello(), addr(port))) {
            pending.push(addr(port));
        }
    }
    assert_eq!(pending.len(), MAX_INCOMING_HANDSHAKES);
    assert_eq!(protocol(&mut layer).admitted_len(), MAX_INCOMING_HANDSHAKES);
    for from in pending {
        layer.release_admission(from);
    }
    assert_eq!(protocol(&mut layer).admitted_len(), 0);
}

#[test]
fn temporary_session_is_reused_until_last_attempt_releases_it() {
    let mut layer = setup();
    let protocol = protocol(&mut layer);
    let remote = addr(12345);
    let first = protocol.lease_temporary_session(remote, id(1));
    let second = protocol.lease_temporary_session(remote, id(2));
    assert_eq!(first, second);
    for fresh in 0..10_000 {
        assert_eq!(protocol.temporary_session(remote, id(fresh)), first);
    }
    assert_eq!(protocol.tmp_len(), 1);
    protocol.release_temporary_session(&remote);
    assert!(protocol.get_temporary_session(&remote).is_some());
    protocol.release_temporary_session(&remote);
    assert!(protocol.get_temporary_session(&remote).is_none());
}

#[test]
fn handshake_queue_is_bounded_and_bound_to_source() {
    let mut layer = setup();
    let protocol = protocol(&mut layer);
    let session = id(77);
    let remote = addr(12345);
    let foreign = addr(12346);
    protocol.begin_incoming(session, remote, 1);
    assert_eq!(
        protocol.try_continue_session(session, 0, foreign, empty()),
        Err(SessionError::Protocol(ProtocolError::SessionNotFound(session)))
    );
    assert!(protocol.next_request(&session).is_none());
    protocol.try_continue_session(session, 1, remote, empty()).unwrap();
    for request_id in 2..10_000 {
        assert_eq!(
            protocol.try_continue_session(session, request_id, remote, empty()),
            Err(SessionError::Internal("Failed to send Request to channel".to_string()))
        );
    }
    assert_eq!(protocol.next_request(&session).unwrap().0, 1);
    assert!(protocol.next_request(&session).is_none());
    protocol.finish_incoming(&session);
    assert!(protocol.is_idle());
}

#[test]
fn malformed_session_id_does_not_reserve_a_handshake_slot() {
    let mut layer = setup();
    for len in [1usize, 15, 17, 128] {
        assert!(!is_some(layer.on_request(vec![0; len], len as u64, hello(), addr(12345))));
    }
    assert_eq!(protocol(&mut layer).admitted_len(), 0);
}

#[test]
fn repeated_hello_does_not_extend_deadline_or_leave_handles() {
    let mut layer = setup();
    let from = addr(12345);
    let session = id(5);
    assert!(is_some(layer.on_request(vec![], 0, hello(), from)));
    protocol(&mut layer).begin_incoming(session, from, 9);
    protocol(&mut layer).lease_temporary_session(from, id(6));
    assert_eq!(protocol(&mut layer).incoming_len(), 1);
    for request_id in 1..10_000 {
        assert!(!is_some(layer.on_request(vec![], request_id, hello(), from)));
    }
    let (result, told) =
        protocol(&mut layer).new_session(from, session, TaskOutcome::TimedOut, id(7));
    assert!(matches!(result, Err(SessionError::Timeout(_))));
    assert_eq!(told.unwrap().id, id(6));
    protocol(&mut layer).release_temporary_session(&from);
    layer.release_admission(from);
    assert!(protocol(&mut layer).is_idle());
}

#[test]
fn cancelling_an_active_handshake_releases_all_owned_slots() {
    let mut layer = setup();
    let from = addr(12345);
    let session = id(5);
    assert!(is_some(layer.on_request(vec![], 0, hello(), from)));
    protocol(&mut layer).begin_incoming(session, from, 9);
    protocol(&mut layer).lease_temporary_session(from, id(6));
    assert_eq!(protocol(&mut layer).incoming_len(), 1);
    let (result, _) =
        protocol(&mut layer).new_session(from, session, TaskOutcome::Aborted, id(7));
    assert_eq!(result, Err(SessionError::Internal("Aborted".to_string())));
    protocol(&mut layer).release_temporary_session(&from);
    layer.release_admission(from);
    assert!(protocol(&mut layer).is_idle());
}

#[test]
fn shutdown_hands_out_tasks() {
    let mut protocol = SessionInitializer::with_cpus(4);
    protocol.begin_incoming(id(5), addr(1), 9);
    assert!(protocol.take_up(addr(1)));
    assert!(!protocol.take_up(addr(1)));
    assert_eq!(protocol.shutdown(), vec![(id(5), 9)]);
    assert!(protocol.is_idle());
}

#[test]
fn challenges_leave_processors_for_other_work() {
    assert_eq!(heavy_threads(1), 1);
    let here = SessionInitializer::new();
    assert_eq!(here.simultaneous_challenges(), heavy_threads(num_cpus::get()));
    assert_eq!(
        SessionInitializer::with_cpus(8).simultaneous_challenges(),
        heavy_threads(8)
    );
    assert!(heavy_threads(64) < 64);
}

#[test]
fn request_holds_a_challenge_only_where_one_is_wanted() {
    let challenge = || ChallengeRequest { challenge: vec![1, 2], difficulty: 3 };
    let known = || Ok(vec![Ok(identity(2)), Ok(identity(3))]);
    let with = prepare_session_request(known(), challenge(), true).unwrap();
    assert_eq!(with.challenge_req.unwrap().difficulty, 3);
    assert_eq!(with.identities, vec![identity(2), identity(3)]);
    assert!(with.challenge_resp.is_none());
    let without = prepare_session_request(known(), challenge(), false).unwrap();
    assert!(without.challenge_req.is_none());
    assert_eq!(without.identities, vec![identity(2), identity(3)]);
    assert!(without.challenge_resp.is_none());
}

#[test]
fn request_says_why_an_identity_is_missing() {
    let prepare = |keys| {
        let challenge = ChallengeRequest { challenge: vec![1, 2], difficulty: 3 };
        prepare_session_request(keys, challenge, true).err()
    };
    assert_eq!(
        prepare(Err("locked".to_string())),
        Some(SessionError::Internal("Failed to query identities: locked".to_string()))
    );
    assert_eq!(
        prepare(Ok(vec![Ok(identity(2)), Err("first".to_string()), Err("second".to_string())])),
        Some(SessionError::Internal("first".to_string()))
    );
    assert_eq!(prepare(Ok(vec![])), None);
}

#[test]
fn missing_aliases_are_left_out() {
    let known = list_crypto(Ok(node(1)), Ok(vec![Some(node(2)), None, Some(node(3))]));
    assert_eq!(known, Ok(vec![node(1), node(2), node(3)]));
    assert_eq!(
        list_crypto(Err("no default".to_string()), Ok(vec![Some(node(2))])),
        Err("no default".to_string())
    );
    assert_eq!(
        list_crypto(Ok(node(1)), Err("no aliases".to_string())),
        Err("no aliases".to_string())
    );
}

fn locked(view: &mut NetworkView, outgoing: bool) -> NodeView {
    let lock = if outgoing {
        view.lock_outgoing(node(2), &vec![addr(1)], 0)
    } else {
        view.lock_incoming(node(2), &vec![addr(1)], 0)
    };
    match lock {
        SessionLock::Permit(permit) => permit.registry,
        SessionLock::Wait(_) => panic!("expected a permit"),
    }
}

fn recovered(n: u32, ids: Vec<Identity>) -> Recovered {
    Recovered { node_id: node(n), identities: ids, session_key: None }
}

#[test]
fn outgoing_handshake_runs_through_its_stages() {
    let mut view = NetworkView::new(NetworkViewConfig::default());
    let node_view = locked(&mut view, true);
    let mut h = OutgoingHandshake::new(&config(), addr(1), node_view, true);
    assert!(matches!(
        h.init_session(&mut view, OutgoingEvent::Begin),
        OutgoingAction::Prepare { challenge: true }
    ));
    assert!(matches!(
        h.init_session(&mut view, OutgoingEvent::Prepared(Ok(()))),
        OutgoingAction::SendSession { timeout: 3000 }
    ));
    assert!(matches!(
        h.init_session(&mut view, OutgoingEvent::SessionReceived(Ok((id(5).to_bytes(), true)))),
        OutgoingAction::Solve
    ));
    assert!(matches!(
        h.init_session(&mut view, OutgoingEvent::Solved(Ok(()))),
        OutgoingAction::SendSolution { id: i, timeout: 8000 } if i == id(5)
    ));
    assert!(matches!(
        h.init_session(&mut view, OutgoingEvent::ReplyReceived(Ok(id(5).to_bytes()))),
        OutgoingAction::Validate { expected } if expected == node(2)
    ));
    assert!(matches!(
        h.init_session(&mut view, OutgoingEvent::Validated(Ok(recovered(3, vec![identity(3), identity(2)])))),
        OutgoingAction::Register { addr: a, id: i, .. } if a == addr(1) && i == id(5)
    ));
    let session = SessionHandle { number: 8 };
    assert!(matches!(
        h.init_session(&mut view, OutgoingEvent::Registered(Ok(session))),
        OutgoingAction::SendResume(s) if s == session
    ));
    assert!(matches!(
        h.init_session(&mut view, OutgoingEvent::Resumed(Ok(()))),
        OutgoingAction::Finish(s) if s == session
    ));
    assert!(matches!(
        h.init_session(&mut view, OutgoingEvent::Begin),
        OutgoingAction::Ignore
    ));
}

#[test]
fn outgoing_handshake_refuses_wrong_answers() {
    let begun = |view: &mut NetworkView| {
        let node_view = locked(view, true);
        let mut h = OutgoingHandshake::new(&config(), addr(1), node_view, true);
        h.init_session(view, OutgoingEvent::Begin);
        h.init_session(view, OutgoingEvent::Prepared(Ok(())));
        h
    };
    let fail = |action| match action {
        OutgoingAction::Fail { error, disconnect } => (error.to_text(), disconnect),
        _ => panic!("expected a failure"),
    };
    let mut view = NetworkView::new(NetworkViewConfig::default());
    let mut h = begun(&mut view);
    let (text, disconnect) = fail(
        h.init_session(&mut view, OutgoingEvent::SessionReceived(Ok((vec![1; 15], true)))),
    );
    assert!(text.contains("Invalid SessionId length"));
    assert!(!disconnect);

    let mut view = NetworkView::new(NetworkViewConfig::default());
    let mut h = begun(&mut view);
    h.init_session(&mut view, OutgoingEvent::SessionReceived(Ok((id(5).to_bytes(), true))));
    h.init_session(&mut view, OutgoingEvent::Solved(Ok(())));
    let (text, disconnect) = fail(h.init_session(
        &mut view,
        OutgoingEvent::ReplyReceived(Ok(vec![1, 2])),
    ));
    assert!(text.contains(
        "Session id mismatch: 00000000000000000000000000000005 (expected) vs [1, 2] (response)"
    ));
    assert!(disconnect);

    let mut view = NetworkView::new(NetworkViewConfig::default());
    let mut h = begun(&mut view);
    h.init_session(&mut view, OutgoingEvent::SessionReceived(Ok((id(5).to_bytes(), true))));
    h.init_session(&mut view, OutgoingEvent::Solved(Ok(())));
    h.init_session(&mut view, OutgoingEvent::ReplyReceived(Ok(id(5).to_bytes())));
    let (text, disconnect) = fail(h.init_session(
        &mut view,
        OutgoingEvent::Validated(Ok(recovered(3, vec![identity(3)]))),
    ));
    assert!(text.contains("Remote node id mismatch"));
    assert!(disconnect);

    let mut view = NetworkView::new(NetworkViewConfig::default());
    let mut h = begun(&mut view);
    let (text, _) = fail(h.init_session(
        &mut view,
        OutgoingEvent::SessionReceived(Err(RequestError::Generic("unreachable".to_string()))),
    ));
    assert!(text.contains("unreachable"));
}

#[test]
fn relay_server_need_not_prove_its_identity() {
    let mut view = NetworkView::new(NetworkViewConfig::default());
    let node_view = match view.lock_outgoing(NodeId::default(), &vec![addr(7477)], 0) {
        SessionLock::Permit(permit) => permit.registry,
        SessionLock::Wait(_) => panic!("expected a permit"),
    };
    let mut h = OutgoingHandshake::new(&config(), addr(7477), node_view, false);
    h.init_session(&mut view, OutgoingEvent::Begin);
    h.init_session(&mut view, OutgoingEvent::Prepared(Ok(())));
    h.init_session(&mut view, OutgoingEvent::SessionReceived(Ok((id(5).to_bytes(), true))));
    h.init_session(&mut view, OutgoingEvent::Solved(Ok(())));
    match h.init_session(&mut view, OutgoingEvent::ReplyReceived(Ok(id(5).to_bytes()))) {
        OutgoingAction::Register { recovered, .. } => {
            assert_eq!(recovered.node_id, NodeId::default());
            assert!(recovered.identities.is_empty());
        }
        _ => panic!("expected a registration"),
    }
}

#[test]
fn attempts_name_the_node_that_they_failed_for() {
    let failed = || Err(SessionError::Timeout("late".to_string()));
    let late = || SessionError::Timeout("late".to_string());
    assert_eq!(
        init_p2p_session(node(2), Ok(SessionHandle { number: 1 })),
        Ok(SessionHandle { number: 1 })
    );
    assert_eq!(
        init_p2p_session(node(2), failed()),
        Err(SessionInitError::P2P(node(2), late()))
    );
    assert_eq!(
        init_server_session(addr(7477), failed()),
        Err(SessionInitError::Relay(addr(7477), late()))
    );
}

#[test]
fn incoming_handshake_runs_through_its_stages() {
    let mut view = NetworkView::new(NetworkViewConfig::default());
    let node_view = locked(&mut view, false);
    let mut h = IncomingHandshake::new(addr(1), node_view, id(5), 3, true);
    assert!(matches!(
        h.init_session_handler(&mut view, IncomingEvent::Begin),
        IncomingAction::SendChallenge(3)
    ));
    assert!(matches!(
        h.init_session_handler(&mut view, IncomingEvent::ChallengeSent(true)),
        IncomingAction::AwaitRequest { solve: true }
    ));
    assert!(matches!(
        h.init_session_handler(&mut view, IncomingEvent::Request(Some(4))),
        IncomingAction::Validate
    ));
    assert!(matches!(
        h.init_session_handler(&mut view, IncomingEvent::Validated(Ok(recovered(2, vec![identity(2)])))),
        IncomingAction::AwaitSolution
    ));
    assert!(matches!(
        h.init_session_handler(&mut view, IncomingEvent::Solved(Ok(()))),
        IncomingAction::Register { addr: a, id: i, recovered: r }
            if a == addr(1) && i == id(5) && r.node_id == node(2)
    ));
    let session = SessionHandle { number: 8 };
    assert!(matches!(
        h.init_session_handler(&mut view, IncomingEvent::Registered(Ok(session))),
        IncomingAction::Respond { session: s, request_id: 4 } if s == session
    ));
    assert!(matches!(
        h.init_session_handler(&mut view, IncomingEvent::Responded(true)),
        IncomingAction::AwaitResume(s) if s == session
    ));
    assert!(matches!(
        h.init_session_handler(&mut view, IncomingEvent::Resumed),
        IncomingAction::Finish(s) if s == session
    ));
}

#[test]
fn incoming_handshake_fails_for_its_reasons() {
    let fail = |action| match action {
        IncomingAction::Fail(error) => error,
        _ => panic!("expected a failure"),
    };
    let mut view = NetworkView::new(NetworkViewConfig::default());
    let node_view = locked(&mut view, false);
    let mut h = IncomingHandshake::new(addr(1), node_view, id(5), 3, false);
    h.init_session_handler(&mut view, IncomingEvent::Begin);
    assert_eq!(
        fail(h.init_session_handler(&mut view, IncomingEvent::ChallengeSent(false))),
        SessionError::Network("Request failed: Failed to send challenge".to_string())
    );

    let mut view = NetworkView::new(NetworkViewConfig::default());
    let node_view = locked(&mut view, false);
    let mut h = IncomingHandshake::new(addr(1), node_view, id(5), 3, false);
    h.init_session_handler(&mut view, IncomingEvent::Begin);
    h.init_session_handler(&mut view, IncomingEvent::ChallengeSent(true));
    assert_eq!(
        fail(h.init_session_handler(&mut view, IncomingEvent::Request(None))),
        SessionError::Timeout("Gave up waiting for Session messages from peer.".to_string())
    );

    let mut view = NetworkView::new(NetworkViewConfig::default());
    let node_view = locked(&mut view, false);
    let mut h = IncomingHandshake::new(addr(1), node_view, id(5), 3, false);
    h.init_session_handler(&mut view, IncomingEvent::Begin);
    h.init_session_handler(&mut view, IncomingEvent::ChallengeSent(true));
    h.init_session_handler(&mut view, IncomingEvent::Request(Some(4)));
    assert_eq!(
        fail(h.init_session_handler(&mut view, IncomingEvent::Validated(Err("bad".to_string())))),
        SessionError::Protocol(ProtocolError::InvalidChallenge("bad".to_string()))
    );

    // A handshake can't start without the right to do so.
    let mut view = NetworkView::new(NetworkViewConfig::default());
    let node_view = view.guard(node(2), &vec![addr(1)], 0);
    let mut h = IncomingHandshake::new(addr(1), node_view, id(5), 3, false);
    fail(h.init_session_handler(&mut view, IncomingEvent::Begin));
}
