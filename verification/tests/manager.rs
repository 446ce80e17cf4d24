use ya_relay_client::config::{ClientBuilder, ClientConfig, Surroundings};
use ya_relay_client::direct_session::RawSession;
use ya_relay_client::expire::expired_sessions;
use ya_relay_client::manager_connect::{
    ChannelHeard, ChannelNext, DirectEvent, DirectNext, DirectTry, ForwardHeard, ForwardNext, OptimalEvent, OptimalNext,
    Resolution, ReverseHeard, ReverseNext, ReverseWait, ServerEvent, ServerNext, ServerStep,
};
use ya_relay_client::manager_events::{ControlHandled, ForwardHandled, RequestHandled};
use ya_relay_client::manager_init::{
    prepare_challenge_request, InitAction, InitEvent, InitStep, Initialization,
};
use ya_relay_client::model::{
    Identity, IpAddr, NodeId, PublicKey, SessionId, SocketAddr, FORWARD_SLOT_ID,
};
use ya_relay_client::registry::NodesRegistry;
use ya_relay_client::session_events::{By, ControlKind, IncomingForward, RequestKind, ReverseConnection};
use ya_relay_client::session_guard::{ConnectError, GuardedSessions};
use ya_relay_client::session_initializer::ChallengeRequest;
use ya_relay_client::session_manager::{Lane, SessionManager};
use ya_relay_client::transport_layer::ForwardSender;

fn node(n: u32) -> NodeId {
    NodeId { high: 0, low: n }
}

fn addr(port: u16) -> SocketAddr {
    SocketAddr { ip: IpAddr::V4(0x7f00_0001), port }
}

fn session(id: u128, port: u16) -> RawSession {
    RawSession { id: SessionId { value: id }, remote: addr(port) }
}

fn identity(n: u32) -> Identity {
    Identity { node_id: node(n), public_key: PublicKey { x_high: n as u128, x_low: 0, y_high: 0, y_low: 0 } }
}

fn config() -> ClientConfig {
    ClientBuilder::from_url("udp://127.0.0.1:7477".to_string())
        .build_config(Surroundings {
            identity: Ok((node(1), identity(1).public_key)),
            max_transmission_unit: Ok(1280),
            srv_addr: Ok(addr(7477)),
        })
        .ok()
        .unwrap()
}

fn spawned() -> SessionManager {
    let mut manager = SessionManager::new(config());
    manager.spawn(addr(1000), 5, 6);
    manager
}

fn forward(slot: u32, reliable: bool) -> IncomingForward {
    IncomingForward {
        session_id: SessionId { value: 9 },
        slot,
        reliable,
        encrypted: false,
        payload: vec![1, 2, 3],
        encoded_len: 10,
    }
}

#[test]
fn registry_finds_added_nodes_by_id_and_slot() {
    let mut registry = NodesRegistry::new();
    let relayed = registry.add_node(node(2), session(1, 7477), 33);
    let direct = registry.add_node(node(3), session(2, 3000), FORWARD_SLOT_ID);
    assert!(!relayed.is_p2p());
    assert!(direct.is_p2p());
    assert_eq!(registry.resolve_node(node(2)), Ok(relayed));
    assert_eq!(registry.resolve_slot(33), Ok(relayed));
    assert_eq!(registry.get_node_by_slot(33), Ok(relayed));
    assert_eq!(registry.get_node(node(3)), Ok(direct));
    assert_eq!(
        registry.resolve_slot(0),
        Err("NodeEntry for slot 0 not found.".to_string())
    );
    let mut nodes = registry.list_nodes();
    nodes.sort();
    assert_eq!(nodes, vec![node(2), node(3)]);
}

#[test]
fn registry_tells_what_it_did_not_find() {
    let mut registry = NodesRegistry::default();
    assert_eq!(
        registry.resolve_node(node(255)),
        Err("NodeEntry for node id 0x00000000000000000000000000000000000000ff not found.".to_string())
    );
    registry.add_slot_for_node(node(255), 12);
    assert_eq!(
        registry.resolve_slot(12),
        Err("NodeEntry for node id 0x00000000000000000000000000000000000000ff not found.".to_string())
    );
    assert_eq!(
        registry.get_node_by_slot(12),
        Err("NodeEntry for slot 12 not found.".to_string())
    );
}

#[test]
fn registry_removes_a_node_with_its_slot() {
    let mut registry = NodesRegistry::new();
    registry.add_node(node(2), session(1, 7477), 33);
    registry.add_node(node(3), session(1, 7477), 34);
    registry.add_node(node(4), session(2, 3000), 0);
    let mut using = registry.nodes_using_session(session(1, 1));
    using.sort();
    assert_eq!(using, vec![node(2), node(3)]);
    registry.remove_node(node(2));
    registry.remove_node(node(9));
    assert!(registry.resolve_slot(33).is_err());
    assert!(registry.resolve_node(node(2)).is_err());
    assert!(registry.resolve_slot(34).is_ok());
    assert_eq!(registry.nodes_using_session(session(1, 1)), vec![node(3)]);
}

#[test]
fn guard_hands_out_one_lock_per_node() {
    let mut guarded = GuardedSessions::new();
    assert_eq!(guarded.guard_initialization(node(2), &vec![addr(1), addr(2)], 10), 10);
    assert_eq!(guarded.guard_initialization(node(2), &vec![], 11), 10);
    assert_eq!(guarded.guard_initialization(node(3), &vec![addr(5), addr(2)], 12), 10);
    assert_eq!(guarded.guard_initialization(node(3), &vec![addr(5)], 13), 13);
    assert_eq!(guarded.stop_guarding(node(2)), Some(10));
    assert_eq!(guarded.stop_guarding(node(2)), None);
    assert_eq!(guarded.guard_initialization(node(4), &vec![addr(1)], 14), 14);
}

#[test]
fn guard_lets_one_attempt_through() {
    let mut guarded = GuardedSessions::new();
    assert!(!guarded.try_access_unguarded(node(2)));
    assert_eq!(
        guarded.register_waiting_for_node(node(2)).map(|a| a.lock),
        Err("Programming error. Waiting for node [0x0000000000000000000000000000000000000002] to connect, without calling `guard_initialization` earlier.".to_string())
    );
    guarded.guard_initialization(node(2), &vec![addr(1)], 10);
    assert_eq!(guarded.notify_first_message(node(2)), Some(10));
    assert!(!guarded.try_access_unguarded(node(2)));
    let awaiting = guarded.register_waiting_for_node(node(2)).unwrap();
    assert_eq!(awaiting.lock, 10);
    assert!(guarded.try_access_unguarded(node(2)));
    assert!(!guarded.try_access_unguarded(node(2)));
    assert!(matches!(
        awaiting.wait_for_connection(None),
        Err(ConnectError::Drop(text)) if text == "Channel error while waiting for connection"
    ));
    assert!(matches!(awaiting.wait_for_connection(Some(Ok(session(1, 1)))), Ok(_)));
}

#[test]
fn guard_keeps_one_temporary_session_per_address() {
    let mut guarded = GuardedSessions::new();
    guarded.guard_initialization(node(2), &vec![addr(1)], 10);
    let first = guarded.temporary_session(addr(1), SessionId { value: 1 });
    let second = guarded.temporary_session(addr(1), SessionId { value: 2 });
    assert_eq!(first, second);
    assert_eq!(guarded.get_temporary_session(&addr(1)), Some(first));
    guarded.temporary_session(addr(2), SessionId { value: 3 });
    guarded.stop_guarding(node(2));
    assert_eq!(guarded.get_temporary_session(&addr(1)), None);
    assert!(guarded.get_temporary_session(&addr(2)).is_some());
    guarded.shutdown();
    assert_eq!(guarded.get_temporary_session(&addr(2)), None);
}

#[test]
fn manager_needs_a_sink_to_add_sessions() {
    let mut manager = SessionManager::new(config());
    let missing = Err("Network sink not initialized".to_string());
    assert_eq!(manager.add_session(addr(1), SessionId { value: 1 }, node(2), &vec![]), missing);
    assert_eq!(
        manager.add_incoming_session(addr(1), SessionId { value: 1 }, node(2), &vec![]),
        missing
    );
    assert_eq!(manager.temporary_session(addr(1), SessionId { value: 1 }), missing);
    manager.spawn(addr(1000), 5, 6);
    assert_eq!(
        manager.add_session(addr(1), SessionId { value: 1 }, node(2), &vec![]),
        Ok(session(1, 1))
    );
    // The session that an address has stays.
    assert_eq!(
        manager.add_session(addr(1), SessionId { value: 2 }, node(2), &vec![]),
        Ok(session(2, 1))
    );
    assert_eq!(manager.find_session(addr(1)), Some(session(1, 1)));
    assert_eq!(manager.get_session(addr(2)), None);
    assert_eq!(manager.get_server_session(), None);
    assert_eq!(manager.sessions(), vec![(addr(1), session(1, 1))]);
}

#[test]
fn manager_knows_incoming_nodes_under_all_ids() {
    let mut manager = spawned();
    manager
        .add_incoming_session(
            addr(1),
            SessionId { value: 1 },
            node(2),
            &vec![identity(2), identity(20)],
        )
        .unwrap();
    assert!(manager.is_p2p(&node(2)));
    assert!(!manager.is_p2p(&node(20)));
    assert_eq!(manager.remote_id(&addr(1)), Some(node(2)));
    assert_eq!(manager.alias(&node(20)), Some(node(2)));
    assert_eq!(manager.alias(&node(2)), None);
    assert_eq!(manager.list_identities(), vec![node(20), node(2)]);
    assert_eq!(
        manager.assert_not_connected(&vec![addr(3), addr(1)]),
        Err("already connected to 127.0.0.1:1".to_string())
    );
    assert_eq!(manager.assert_not_connected(&vec![addr(3)]), Ok(()));
    manager.remove_node(node(2));
    assert!(!manager.is_p2p(&node(2)));
    assert_eq!(manager.remote_id(&addr(1)), None);
    assert!(manager.find_session(addr(1)).is_some());
}

#[test]
fn closing_the_server_session_removes_nodes_behind_it() {
    let mut manager = spawned();
    manager.add_session(addr(7477), SessionId { value: 1 }, node(0), &vec![]).unwrap();
    manager.registry.add_node(node(2), session(1, 7477), 33);
    manager.registry.add_node(node(3), session(1, 7477), 34);
    manager.add_incoming_session(addr(4), SessionId { value: 2 }, node(4), &vec![]).unwrap();
    assert!(matches!(
        manager.forward_unreliable(node(2), ForwardSender { number: 8 }),
        ForwardNext::Spawn { .. }
    ));
    let (closed, removed) = manager.drop_server_session().unwrap();
    assert_eq!(closed, session(1, 7477));
    assert_eq!(removed.len(), 2);
    let of_two = removed.iter().find(|r| r.node_id == node(2)).unwrap();
    assert_eq!(of_two.unreliable, Some(ForwardSender { number: 8 }));
    assert_eq!(of_two.reliable, None);
    assert!(manager.registry.resolve_node(node(2)).is_err());
    assert!(manager.registry.resolve_node(node(4)).is_ok());
    assert!(manager.drop_server_session().is_none());

    let removed = manager.close_session(session(2, 4));
    assert_eq!(removed.len(), 1);
    assert_eq!(removed[0].node_id, node(4));
    assert!(manager.registry.resolve_node(node(4)).is_err());
}

#[test]
fn fast_lanes_end_with_the_server_session() {
    let mut manager = spawned();
    manager.add_session(addr(7477), SessionId { value: 1 }, node(0), &vec![]).unwrap();
    manager.fast_lane.insert(Lane { from: addr(7477), slot: 3 }, ());
    manager.close_session(session(9, 9));
    assert_eq!(manager.fast_lane.len(), 1);
    let (_, removed) = manager.drop_server_session().unwrap();
    assert!(removed.is_empty());
    assert!(manager.fast_lane.is_empty());
}

#[test]
fn channel_is_made_though_its_node_was_removed_meanwhile() {
    let mut manager = spawned();
    manager.registry.add_node(node(2), session(4, 4), 0);
    let entry = match manager.forward(node(2), ForwardHeard::Begin) {
        ForwardNext::Lock(entry) => entry,
        _ => panic!("expected a request for the lock"),
    };
    manager.remove_node(node(2));
    let tx = ForwardSender { number: 1 };
    match manager.forward(node(2), ForwardHeard::Connected { node: entry, result: Ok(()), tx }) {
        ForwardNext::Spawn { node: used, tx } => assert_eq!((used.id, tx.number), (node(2), 1)),
        _ => panic!("expected a channel"),
    }
}

#[test]
fn manager_shuts_down_in_two_steps() {
    let mut manager = spawned();
    manager.temporary_session(addr(3), SessionId { value: 1 }).unwrap();
    assert_eq!(manager.begin_shutdown(), (true, vec![5, 6]));
    assert_eq!(manager.begin_shutdown(), (false, vec![]));
    assert!(manager.shutdown());
    assert!(!manager.shutdown());
    assert_eq!(manager.dispatcher(addr(3)), None);
    assert!(manager.out_stream().is_err());
}

#[test]
fn initialization_stores_the_session() {
    let mut manager = spawned();
    manager.guarded.guard_initialization(node(2), &vec![addr(1)], 10);
    let mut init = Initialization::new(addr(1), true, Some(node(2)));
    let (action, notify) = init.init_session(
        &mut manager,
        InitEvent::Begin { fresh: SessionId { value: 77 }, prepared: Ok(()) },
    );
    assert!(matches!(action, InitAction::SendSession { session: s, timeout: 3000 } if s == session(77, 1)));
    assert_eq!(notify, None);
    assert_eq!(manager.dispatcher(addr(1)), Some(session(77, 1)));
    let id = SessionId { value: 5 };
    let (action, notify) =
        init.init_session(&mut manager, InitEvent::SessionReceived(Ok((id.to_bytes(), true))));
    assert!(matches!(action, InitAction::Solve));
    assert_eq!(notify, Some(10));
    let (action, _) = init.init_session(&mut manager, InitEvent::Solved(Ok(())));
    assert!(matches!(action, InitAction::SendSolution { id: i, timeout: 8000 } if i == id));
    let (action, _) = init.init_session(
        &mut manager,
        InitEvent::ReplyReceived {
            reply: Ok(id.to_bytes()),
            recovered: Ok((node(20), vec![identity(20), identity(2)])),
        },
    );
    assert!(matches!(action, InitAction::Resume(s) if s == session(5, 1)));
    let (action, _) = init.init_session(&mut manager, InitEvent::Resumed(Ok(())));
    assert!(matches!(action, InitAction::Finish(s) if s == session(5, 1)));
    assert_eq!(init.step, InitStep::Done);
    assert_eq!(manager.find_session(addr(1)), Some(session(5, 1)));
    assert!(manager.init_p2p_session(addr(1), node(2), Ok(session(5, 1))).is_ok());
    assert!(manager.is_p2p(&node(2)));
    let (action, _) = init.init_session(&mut manager, InitEvent::Solved(Ok(())));
    assert!(matches!(action, InitAction::Ignore));
}

#[test]
fn initialization_needs_all_identities() {
    let prepare = |keys, challenge| {
        let own = ChallengeRequest { challenge: vec![1, 2], difficulty: 3 };
        prepare_challenge_request(keys, own, challenge)
    };
    let request = prepare(Ok(vec![Ok(identity(1)), Ok(identity(2))]), true).ok().unwrap();
    assert_eq!(request.identities, vec![identity(1), identity(2)]);
    assert_eq!(request.challenge_req.unwrap().challenge, vec![1, 2]);
    assert!(request.challenge_resp.is_none());
    let unasked = prepare(Ok(vec![Ok(identity(1))]), false).ok().unwrap();
    assert!(unasked.challenge_req.is_none());
    match prepare(Err("locked".to_string()), true) {
        Err(ConnectError::Drop(e)) => assert_eq!(e, "Failed to query identities: locked"),
        _ => panic!("expected to give up"),
    }
    match prepare(Ok(vec![Ok(identity(1)), Err("no key".to_string())]), true) {
        Err(ConnectError::Retry(e)) => assert_eq!(e, "no key"),
        _ => panic!("expected to try again"),
    }
}

fn fails(action: InitAction, retry: bool, disconnects: bool, text: &str) {
    match action {
        InitAction::Fail { error: ConnectError::Retry(e), disconnect } => {
            assert!(retry);
            assert_eq!((e.as_str(), disconnect), (text, disconnects));
        }
        InitAction::Fail { error: ConnectError::Drop(e), disconnect } => {
            assert!(!retry);
            assert_eq!((e.as_str(), disconnect), (text, disconnects));
        }
        _ => panic!("expected a failure"),
    }
}

fn awaiting_reply(manager: &mut SessionManager) -> Initialization {
    let mut init = Initialization::new(addr(1), true, Some(node(2)));
    init.init_session(
        manager,
        InitEvent::Begin { fresh: SessionId { value: 77 }, prepared: Ok(()) },
    );
    init.init_session(
        manager,
        InitEvent::SessionReceived(Ok((SessionId { value: 5 }.to_bytes(), true))),
    );
    init.init_session(manager, InitEvent::Solved(Ok(())));
    init
}

#[test]
fn initialization_fails_for_its_reasons() {
    let mut manager = SessionManager::new(config());
    let begin = || InitEvent::Begin { fresh: SessionId { value: 77 }, prepared: Ok(()) };
    let mut init = Initialization::new(addr(1), true, None);
    let (action, _) = init.init_session(&mut manager, begin());
    fails(action, true, false, "Network sink not initialized");

    let mut manager = spawned();
    let mut init = Initialization::new(addr(1), true, None);
    let (action, _) = init.init_session(
        &mut manager,
        InitEvent::Begin {
            fresh: SessionId { value: 77 },
            prepared: Err(ConnectError::Drop("no keys".to_string())),
        },
    );
    fails(action, false, false, "no keys");

    let mut init = Initialization::new(addr(1), true, None);
    init.init_session(&mut manager, begin());
    let (action, _) =
        init.init_session(&mut manager, InitEvent::SessionReceived(Ok((vec![1; 15], true))));
    fails(action, true, false, "Invalid SessionId length");

    let mut init = Initialization::new(addr(1), true, None);
    init.init_session(&mut manager, begin());
    let (action, _) =
        init.init_session(&mut manager, InitEvent::SessionReceived(Ok((vec![1; 16], false))));
    fails(
        action,
        true,
        false,
        "Expected ChallengeRequest while initializing session with 127.0.0.1:1",
    );

    let mut init = awaiting_reply(&mut manager);
    let (action, _) = init.init_session(
        &mut manager,
        InitEvent::ReplyReceived { reply: Ok(vec![1, 2]), recovered: Err("no".to_string()) },
    );
    fails(
        action,
        false,
        true,
        "[0x0000000000000000000000000000000000000001] init session id mismatch: 00000000000000000000000000000005 vs [1, 2] (response)",
    );

    let id = SessionId { value: 5 };
    let mut init = awaiting_reply(&mut manager);
    let (action, _) = init.init_session(
        &mut manager,
        InitEvent::ReplyReceived { reply: Ok(id.to_bytes()), recovered: Err("bad".to_string()) },
    );
    fails(action, false, true, "bad while initializing session with 127.0.0.1:1");

    let mut init = awaiting_reply(&mut manager);
    let (action, _) = init.init_session(
        &mut manager,
        InitEvent::ReplyReceived {
            reply: Ok(id.to_bytes()),
            recovered: Ok((node(3), vec![identity(3)])),
        },
    );
    fails(
        action,
        false,
        true,
        "remote node id mismatch: 0x0000000000000000000000000000000000000002 vs 0x0000000000000000000000000000000000000003 (response)",
    );
    assert_eq!(manager.find_session(addr(1)), None);
}

#[test]
fn server_session_is_initialized_once() {
    let mut manager = spawned();
    let (step, next) = manager.server_session(ServerStep::Start, ServerEvent::Begin { lock: 3 });
    assert!(matches!(next, ServerNext::Lock(3)));
    let (_, next) = manager.server_session(ServerStep::Start, ServerEvent::Begin { lock: 4 });
    assert!(matches!(next, ServerNext::Lock(3)));
    let (step, next) = manager.server_session(step, ServerEvent::Locked);
    assert!(matches!(next, ServerNext::InitServerSession(a) if a == addr(7477)));
    let established = manager.init_server_session(addr(7477), Ok(session(1, 7477)));
    let (step, next) = manager.server_session(step, ServerEvent::Initialized(established));
    assert!(matches!(next, ServerNext::Established { notify: Some(3), .. }));
    let (step, next) = manager.server_session(
        step,
        ServerEvent::Endpoints(Ok(vec![None, Some(addr(555)), Some(addr(556))])),
    );
    assert!(matches!(next, ServerNext::Finish(Ok(s)) if s == session(1, 7477)));
    assert_eq!(step, ServerStep::Done);
    assert_eq!(manager.get_public_addr(), Some(addr(555)));

    let (step, _) = manager.server_session(ServerStep::Start, ServerEvent::Begin { lock: 5 });
    let (_, next) = manager.server_session(step, ServerEvent::Locked);
    assert!(matches!(next, ServerNext::Finish(Ok(s)) if s == session(1, 7477)));
}

#[test]
fn failed_server_session_tells_why() {
    let mut manager = spawned();
    let failed = manager.init_server_session(addr(7477), Err(ConnectError::Drop("gone".to_string())));
    let (step, next) = manager.server_session(ServerStep::Initializing, ServerEvent::Initialized(failed));
    assert_eq!(step, ServerStep::Done);
    assert!(matches!(
        next,
        ServerNext::Failed { error, notify: None } if error == "Failed to init relay server session: gone"
    ));
}

#[test]
fn resolve_filters_addresses_and_refuses_this_node() {
    let mut manager = spawned();
    manager.set_public_addr(Some(addr(9)));
    let endpoints = vec![Some(addr(1000)), None, Some(addr(5)), Some(addr(9))];
    let resolving = manager.resolve(&node(2).to_bytes(), &endpoints, 10).unwrap();
    assert_eq!(resolving.node_id, node(2));
    assert_eq!(resolving.addrs, vec![addr(5)]);
    assert_eq!(resolving.lock, 10);
    assert_eq!(manager.resolve(&node(2).to_bytes(), &vec![], 11).unwrap().lock, 10);
    assert_eq!(
        manager.resolve(&node(1).to_bytes(), &endpoints, 12).err(),
        Some("Remote id belongs to this node.".to_string())
    );
    assert_eq!(
        manager.resolve(&vec![1, 2], &endpoints, 12).err(),
        Some("Invalid NodeId length".to_string())
    );
    assert_eq!(manager.resolve_locked(node(2)), None);
    assert_eq!(manager.resolved(node(2)), Some(10));
    assert_eq!(manager.resolved(node(2)), None);
}

#[test]
fn nodes_are_reached_directly_or_through_the_server() {
    let mut manager = spawned();
    let reached = manager.try_resolve(node(2), 33, Ok(session(1, 5)));
    assert!(matches!(reached, Resolution::Finish(Ok(entry)) if entry.is_p2p() && entry.id == node(2)));
    assert_eq!(manager.registry.resolve_slot(33).unwrap().id, node(2));

    let retry = || Err(ConnectError::Retry("unreachable".to_string()));
    assert!(matches!(manager.try_resolve(node(3), 34, retry()), Resolution::ServerSession));
    assert!(matches!(
        manager.try_resolve(node(3), 0, retry()),
        Resolution::Finish(Err(ConnectError::Retry(text)))
            if text == "Failed to establish p2p connection with [0x0000000000000000000000000000000000000003] and relay Server won't be used, since slot = 0."
    ));
    assert!(matches!(
        manager.try_resolve(node(3), 34, Err(ConnectError::Drop("bad".to_string()))),
        Resolution::Finish(Err(ConnectError::Drop(text))) if text == "bad"
    ));
    assert!(matches!(
        manager.resolve_through_server(node(3), 34, Err("no server".to_string())),
        Err(ConnectError::Retry(text)) if text == "no server"
    ));
    let entry = manager.resolve_through_server(node(3), 34, Ok(session(9, 7477)));
    assert!(matches!(entry, Ok(e) if e.slot == 34));
    assert_eq!(manager.resolve_locked(node(3)).unwrap().session, session(9, 7477));
}

#[test]
fn direct_attempts_follow_the_addresses() {
    let mut manager = spawned();
    let mut attempt = DirectTry {
        node_id: node(2),
        addrs: vec![addr(1), addr(2)],
        next: 0,
        try_reverse: true,
    };
    let retry = || DirectEvent::Attempted(Err(ConnectError::Retry("no".to_string())));
    assert!(matches!(
        attempt.try_direct_session(&manager, DirectEvent::Begin),
        DirectNext::InitP2p(a) if a == addr(1)
    ));
    assert!(matches!(
        attempt.try_direct_session(&manager, retry()),
        DirectNext::InitP2p(a) if a == addr(2)
    ));
    let all_failed = "All attempts to establish direct session with node [0x0000000000000000000000000000000000000002] failed";
    assert!(matches!(
        attempt.try_direct_session(&manager, retry()),
        DirectNext::Finish(Err(ConnectError::Retry(text))) if text == all_failed
    ));
    manager.set_public_addr(Some(addr(9)));
    assert!(matches!(attempt.try_direct_session(&manager, retry()), DirectNext::Reverse));
    assert!(matches!(
        attempt.try_direct_session(&manager, DirectEvent::Reversed(Err("no".to_string()))),
        DirectNext::Finish(Err(ConnectError::Retry(text))) if text == all_failed
    ));
    assert!(matches!(
        attempt.try_direct_session(&manager, DirectEvent::Attempted(Err(ConnectError::Drop("bad".to_string())))),
        DirectNext::Finish(Err(ConnectError::Drop(_)))
    ));
}

#[test]
fn reverse_connection_waits_in_stages() {
    let mut manager = spawned();
    let (step, next) = manager.try_reverse_connection(node(2), ReverseWait::Start, ReverseHeard::Begin);
    assert_eq!(step, ReverseWait::Done);
    assert!(matches!(next, ReverseNext::Finish(Err(_))));

    manager.guarded.guard_initialization(node(2), &vec![], 10);
    let (step, next) = manager.try_reverse_connection(node(2), ReverseWait::Start, ReverseHeard::Begin);
    assert!(matches!(next, ReverseNext::ServerSession));
    let (step, next) = manager.try_reverse_connection(node(2), step, ReverseHeard::Server(Ok(())));
    assert!(matches!(next, ReverseNext::Request));
    let (step, next) = manager.try_reverse_connection(node(2), step, ReverseHeard::Requested(Ok(())));
    assert!(matches!(next, ReverseNext::AwaitFirstMessage { awaiting: a, timeout: 3000 } if a.lock == 10));
    let (waiting, next) =
        manager.try_reverse_connection(node(2), step, ReverseHeard::FirstMessage(Ok(())));
    assert!(matches!(next, ReverseNext::AwaitConnection { awaiting: a, timeout: 13_000 } if a.lock == 10));
    let (_, next) =
        manager.try_reverse_connection(node(2), waiting, ReverseHeard::Connection(Some(Some(Ok(session(1, 1))))));
    assert!(matches!(next, ReverseNext::Finish(Ok(s)) if s == session(1, 1)));
    let (_, next) = manager.try_reverse_connection(node(2), waiting, ReverseHeard::Connection(None));
    assert!(matches!(
        next,
        ReverseNext::Finish(Err(text))
            if text == "Not able to setup ReverseConnection within timeout with node: [0x0000000000000000000000000000000000000002]"
    ));
    assert!(manager.guarded.try_access_unguarded(node(2)));
}

#[test]
fn optimal_session_tells_where_it_failed() {
    let mut manager = spawned();
    assert!(matches!(
        manager.optimal_session(node(2), OptimalEvent::Begin),
        OptimalNext::ServerSession
    ));
    let failures = vec![
        (
            OptimalEvent::Server(Err("e".to_string())),
            "Failed to get relay server session: e",
        ),
        (
            OptimalEvent::Found(Err("e".to_string())),
            "Failed to find Node on relay server: e",
        ),
        (
            OptimalEvent::Identified(Err("e".to_string())),
            "Unable to get identity from Node info: e",
        ),
        (OptimalEvent::Resolved(Err("e".to_string())), "Failed to resolve session: e"),
    ];
    for (event, text) in failures {
        match manager.optimal_session(node(2), event) {
            OptimalNext::Finish(Err(e)) => assert_eq!(e, text),
            _ => panic!("expected a failure"),
        }
    }
    manager.registry.add_node(node(2), session(4, 4), 0);
    assert!(matches!(
        manager.optimal_session(node(2), OptimalEvent::Begin),
        OptimalNext::Finish(Ok(s)) if s == session(4, 4)
    ));
}

#[test]
fn channels_are_made_once() {
    let mut manager = spawned();
    assert!(matches!(
        manager.forward(node(2), ForwardHeard::Begin),
        ForwardNext::Finish(Err(_))
    ));
    manager.registry.add_node(node(2), session(4, 4), 0);
    let entry = match manager.forward(node(2), ForwardHeard::Begin) {
        ForwardNext::Lock(entry) => entry,
        _ => panic!("expected a request for the lock"),
    };
    assert_eq!((entry.id, entry.session), (node(2), session(4, 4)));
    assert!(matches!(
        manager.forward(node(2), ForwardHeard::Locked { node: entry, was_locked: true }),
        ForwardNext::Connect(_)
    ));
    assert!(matches!(
        manager.forward(
            node(2),
            ForwardHeard::Connected {
                node: entry,
                result: Err("no".to_string()),
                tx: ForwardSender { number: 1 }
            }
        ),
        ForwardNext::Finish(Err(_))
    ));
    assert!(matches!(
        manager.forward(
            node(2),
            ForwardHeard::Connected {
                node: entry,
                result: Ok(()),
                tx: ForwardSender { number: 1 }
            }
        ),
        ForwardNext::Spawn { .. }
    ));
    assert!(matches!(
        manager.forward(node(2), ForwardHeard::Begin),
        ForwardNext::Finish(Ok(ForwardSender { number: 1 }))
    ));
    assert!(matches!(
        manager.forward(node(2), ForwardHeard::Locked { node: entry, was_locked: true }),
        ForwardNext::Finish(Ok(ForwardSender { number: 1 }))
    ));
    assert!(matches!(
        manager.forward(node(2), ForwardHeard::Locked { node: entry, was_locked: false }),
        ForwardNext::Connect(_)
    ));
    assert!(matches!(
        manager.forward_unreliable(node(2), ForwardSender { number: 2 }),
        ForwardNext::Spawn { .. }
    ));
    assert!(matches!(
        manager.forward_unreliable(node(2), ForwardSender { number: 3 }),
        ForwardNext::Finish(Ok(ForwardSender { number: 2 }))
    ));
}

#[test]
fn reliable_packets_take_the_fast_lane() {
    let mut manager = spawned();
    manager.add_incoming_session(addr(4), SessionId { value: 2 }, node(4), &vec![]).unwrap();
    assert!(matches!(
        manager.on_forward(forward(0, true), addr(4)),
        ForwardHandled::Receive { node: n, .. } if n.id == node(4)
    ));
    assert!(matches!(
        manager.on_forward(forward(0, true), addr(4)),
        ForwardHandled::Inject(payload) if payload == vec![1, 2, 3]
    ));
    assert!(matches!(
        manager.on_forward(forward(0, false), addr(4)),
        ForwardHandled::Ingress { node_id, .. } if node_id == node(4)
    ));
    manager.remove_node(node(9));
    assert!(matches!(
        manager.on_forward(forward(0, true), addr(4)),
        ForwardHandled::Receive { .. }
    ));
}

#[test]
fn channels_send_until_they_fail() {
    let mut manager = spawned();
    let entry = manager.registry.add_node(node(5), session(1, 7477), 33);
    manager.forward_unreliable(node(5), ForwardSender { number: 2 });
    let packet = match manager.forward_unreliable_handler(
        entry.session,
        entry,
        ChannelHeard::Payload(Some(vec![7, 8])),
    ) {
        ChannelNext::Send(packet) => packet,
        _ => panic!("expected a packet"),
    };
    assert_eq!((packet.session_id, packet.slot), (SessionId { value: 1 }, 33));
    assert!(!packet.reliable && !packet.encrypted);
    // The other party knows this node by the slot.
    let mut there = spawned();
    there.registry.add_node(node(6), session(9, 7477), 40);
    let incoming = IncomingForward {
        session_id: SessionId { value: 9 },
        slot: 40,
        reliable: packet.reliable,
        encrypted: packet.encrypted,
        payload: packet.payload,
        encoded_len: 10,
    };
    assert!(matches!(
        there.on_forward(incoming, addr(7477)),
        ForwardHandled::Ingress { node_id, payload } if node_id == node(6) && payload == vec![7, 8]
    ));
    assert!(matches!(
        manager.forward_unreliable_handler(entry.session, entry, ChannelHeard::Sent(Ok(()))),
        ChannelNext::Receive
    ));
    match manager.forward_unreliable_handler(
        entry.session,
        entry,
        ChannelHeard::Sent(Err("unreachable".to_string())),
    ) {
        ChannelNext::Close(removed) => {
            assert_eq!(removed.len(), 1);
            assert_eq!(removed[0].unreliable, Some(ForwardSender { number: 2 }));
        }
        _ => panic!("expected the channel to close"),
    }
    assert!(manager.registry.resolve_node(node(5)).is_err());

    let mut manager = spawned();
    let direct =
        manager.add_incoming_session(addr(4), SessionId { value: 2 }, node(4), &vec![]).unwrap();
    let entry = manager.registry.resolve_node(node(4)).unwrap();
    assert!(matches!(
        manager.forward_reliable_handler(entry, ChannelHeard::Payload(Some(vec![1]))),
        ChannelNext::SendReliable(payload) if payload == vec![1]
    ));
    assert!(matches!(
        manager.forward_reliable_handler(entry, ChannelHeard::Sent(Ok(()))),
        ChannelNext::Receive
    ));
    assert_eq!(manager.find_session(addr(4)), Some(direct));
    assert!(matches!(
        manager.forward_reliable_handler(entry, ChannelHeard::Payload(None)),
        ChannelNext::Close(removed) if removed.len() == 1
    ));
    assert_eq!(manager.find_session(addr(4)), None);
}

#[test]
fn unknown_senders_are_resolved_or_disconnected() {
    let mut manager = spawned();
    assert!(matches!(
        manager.on_forward(forward(0, true), addr(4)),
        ForwardHandled::Disconnect(s) if s == session(9, 4)
    ));
    let pending = match manager.on_forward(forward(33, true), addr(7477)) {
        ForwardHandled::Resolve { forward } => forward,
        _ => panic!("expected a look for the node"),
    };
    let entry = manager.registry.add_node(node(5), session(1, 7477), 33);
    assert!(matches!(
        manager.forward_resolved(pending, addr(7477), Ok(entry)),
        ForwardHandled::Receive { .. }
    ));
    assert!(matches!(
        manager.on_forward(forward(33, true), addr(7477)),
        ForwardHandled::Inject(_)
    ));
    assert!(matches!(
        manager.forward_resolved(forward(34, true), addr(7477), Err("no".to_string())),
        ForwardHandled::Failed(e) if e == "no"
    ));
}

#[test]
fn control_messages_are_handled() {
    let mut manager = spawned();
    manager.add_incoming_session(addr(4), SessionId { value: 2 }, node(4), &vec![]).unwrap();
    assert!(matches!(
        manager.on_control(Some(ControlKind::PauseForwarding), addr(4)),
        ControlHandled::Forwarding { paused: true, session: s } if s == session(2, 4)
    ));
    assert!(matches!(
        manager.on_control(Some(ControlKind::ResumeForwarding), addr(5)),
        ControlHandled::Nothing
    ));
    let reverse = |endpoints| {
        Some(ControlKind::ReverseConnection(ReverseConnection {
            node_id: node(7).to_bytes(),
            endpoints,
        }))
    };
    assert!(matches!(manager.on_control(reverse(vec![]), addr(7477)), ControlHandled::Nothing));
    assert!(matches!(
        manager.on_control(reverse(vec![None]), addr(7477)),
        ControlHandled::Resolve(_)
    ));
    manager.registry.add_node(node(6), session(1, 7477), 66);
    assert!(matches!(
        manager.on_control(Some(ControlKind::Disconnected(Some(By::Slot(66)))), addr(7477)),
        ControlHandled::Removed(r) if r.node_id == node(6)
    ));
    assert!(matches!(
        manager.on_control(Some(ControlKind::Disconnected(Some(By::Slot(66)))), addr(7477)),
        ControlHandled::Nothing
    ));
    manager.registry.add_node(node(6), session(1, 7477), 66);
    assert!(matches!(
        manager.on_control(
            Some(ControlKind::Disconnected(Some(By::NodeId(node(6).to_bytes())))),
            addr(7477)
        ),
        ControlHandled::Removed(r) if r.node_id == node(6)
    ));
    assert!(matches!(
        manager.on_control(Some(ControlKind::Disconnected(Some(By::NodeId(vec![1])))), addr(7477)),
        ControlHandled::Nothing
    ));
    // Whatever session id is sent, the session over which it came is closed.
    assert!(matches!(
        manager.on_control(Some(ControlKind::Disconnected(Some(By::SessionId(vec![1])))), addr(4)),
        ControlHandled::Closed { session: s, .. } if s == session(2, 4)
    ));
    assert!(matches!(
        manager.on_control(Some(ControlKind::Disconnected(None)), addr(4)),
        ControlHandled::Nothing
    ));
    assert!(matches!(manager.on_control(None, addr(4)), ControlHandled::Nothing));
}

#[test]
fn requests_are_answered_while_sessions_are_accepted() {
    let mut manager = spawned();
    assert!(matches!(
        manager.on_request(vec![1], 7, Some(RequestKind::Ping), addr(4)),
        RequestHandled::Pong { request_id: 7, to, .. } if to == addr(4)
    ));
    let request = || {
        Some(RequestKind::Session(ya_relay_client::session_initializer::SessionRequest {
            identities: vec![],
            challenge_req: None,
            challenge_resp: None,
        }))
    };
    assert!(matches!(
        manager.on_request(vec![1], 7, request(), addr(4)),
        RequestHandled::Session { .. }
    ));
    manager.begin_shutdown();
    assert!(matches!(
        manager.on_request(vec![1], 7, request(), addr(4)),
        RequestHandled::Nothing
    ));
    assert!(matches!(manager.on_request(vec![1], 7, None, addr(4)), RequestHandled::Nothing));
}

#[test]
fn silent_sessions_are_closed() {
    let seen = vec![(session(1, 1), 100i64), (session(2, 2), 400)];
    assert_eq!(expired_sessions(&seen, 200, 350), (vec![session(1, 1)], 300));
    let none: Vec<(RawSession, i64)> = vec![];
    assert_eq!(expired_sessions(&none, 200, 350), (vec![], 550));

    let mut manager = spawned();
    assert!(manager.close_silent(session(3, 7477)).is_none());
    manager.add_session(addr(7477), SessionId { value: 1 }, node(0), &vec![]).unwrap();
    assert_eq!(manager.close_silent(session(3, 7477)).unwrap().0, session(1, 7477));
    manager.add_session(addr(2), SessionId { value: 2 }, node(2), &vec![]).unwrap();
    assert_eq!(manager.close_silent(session(2, 2)).unwrap().0, session(2, 2));
    assert!(manager.find_session(addr(2)).is_none());
}
