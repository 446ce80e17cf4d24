use ya_relay_client::error::{SessionError, TransitionError};
use ya_relay_client::model::{
    Identity, IpAddr, NodeId, NodeInfo, PublicKey, SessionHandle, SocketAddr,
};
use ya_relay_client::network_view::{
    BeforeRelease, NetworkView, NetworkViewConfig, NodeAwaiting, NodeView, Notice, SessionLock,
    SessionPermit, Validity, Waiting, NODE_INFO_TTL,
};
use ya_relay_client::session_state::{InitState, RelayedState, ReverseState, SessionState};

const NODE_ID1: NodeId = NodeId { high: 1, low: 1 };
const NODE_ID2: NodeId = NodeId { high: 2, low: 2 };
const ADDR1: SocketAddr = SocketAddr { ip: IpAddr::V4(0x7f00_0001), port: 8000 };
const ADDR2: SocketAddr = SocketAddr { ip: IpAddr::V4(0x7f00_0001), port: 8001 };
const SESSION: SessionHandle = SessionHandle { number: 7 };

const STAGES: [InitState; 6] = [
    InitState::Initializing,
    InitState::ChallengeHandshake,
    InitState::HandshakeResponse,
    InitState::ChallengeVerified,
    InitState::SessionRegistered,
    InitState::Ready,
];

fn new_view() -> NetworkView {
    NetworkView::new(NetworkViewConfig::default())
}

fn expect_permit(lock: SessionLock) -> SessionPermit {
    match lock {
        SessionLock::Permit(permit) => permit,
        SessionLock::Wait(_) => panic!("Expected initialization Permit"),
    }
}

fn expect_waiter(lock: SessionLock) -> NodeAwaiting {
    match lock {
        SessionLock::Permit(_) => panic!("Expected Waiter not Permit"),
        SessionLock::Wait(waiter) => waiter,
    }
}

fn finish(view: &mut NetworkView, mut permit: SessionPermit) {
    let node = permit.registry;
    assert_eq!(permit.collect_results(Ok(SESSION)), Ok(SESSION));
    let state = permit.final_state();
    assert!(SessionPermit::release(node, view, state).is_none());
}

fn establish_outgoing(view: &mut NetworkView, permit: SessionPermit) {
    for stage in STAGES {
        permit.registry.transition_outgoing(view, stage).unwrap();
    }
    finish(view, permit);
}

fn establish_incoming(view: &mut NetworkView, permit: SessionPermit) {
    for stage in STAGES {
        permit.registry.transition_incoming(view, stage).unwrap();
    }
    finish(view, permit);
}

fn is_finished(view: &NetworkView, waiter: &NodeAwaiting) -> bool {
    match NodeAwaiting::await_for_finish(waiter.registry.state(view), true) {
        Waiting::Over(result) => {
            assert_eq!(result, Ok(SESSION));
            true
        }
        Waiting::Pending => false,
    }
}

fn independent_permits() {
    let mut guards = new_view();
    let permit1 = expect_permit(guards.lock_outgoing(NODE_ID1, &vec![ADDR1], 0));
    let _permit2 = expect_permit(guards.lock_outgoing(NODE_ID2, &vec![ADDR2], 0));
    let waiter1 = expect_waiter(guards.lock_outgoing(NODE_ID1, &vec![ADDR1], 0));
    let waiter2 = expect_waiter(guards.lock_outgoing(NODE_ID2, &vec![ADDR2], 0));
    assert!(!is_finished(&guards, &waiter1));
    establish_outgoing(&mut guards, permit1);
    assert!(is_finished(&guards, &waiter1));
    assert!(!is_finished(&guards, &waiter2));
}

fn incoming() {
    let mut guards = new_view();
    let permit = expect_permit(guards.lock_incoming(NODE_ID1, &vec![ADDR1], 0));
    let waiter = expect_waiter(guards.lock_incoming(NODE_ID1, &vec![ADDR1], 0));
    assert!(!is_finished(&guards, &waiter));
    establish_incoming(&mut guards, permit);
    assert!(is_finished(&guards, &waiter));
}

fn incoming_and_outgoing() {
    let mut guards = new_view();
    let permit = expect_permit(guards.lock_incoming(NODE_ID1, &vec![ADDR1], 0));
    let waiter = expect_waiter(guards.lock_outgoing(NODE_ID1, &vec![ADDR1], 0));
    assert!(!is_finished(&guards, &waiter));
    establish_incoming(&mut guards, permit);
    assert!(is_finished(&guards, &waiter));
}

fn already_established() {
    let mut guards = new_view();
    let permit = expect_permit(guards.lock_outgoing(NODE_ID1, &vec![ADDR1], 0));
    establish_outgoing(&mut guards, permit);
    let waiter = expect_waiter(guards.lock_outgoing(NODE_ID1, &vec![ADDR1], 0));
    assert!(is_finished(&guards, &waiter));
}

#[test]
fn test_network_view_independent_permits() {
    independent_permits();
}

#[test]
fn test_network_view_incoming() {
    incoming();
}

#[test]
fn test_network_view_incoming_and_outgoing() {
    incoming_and_outgoing();
}

#[test]
fn test_network_view_already_established() {
    already_established();
}

#[test]
fn _session_guard_test_session_guards_independent_permits() {
    independent_permits();
}

#[test]
fn _session_guard_test_session_guards_incoming() {
    incoming();
}

#[test]
fn _session_guard_test_session_guards_incoming_and_outgoing() {
    incoming_and_outgoing();
}

#[test]
fn _session_guard_test_session_guards_already_established() {
    already_established();
}

#[test]
fn _session_registry_test_session_guards_independent_permits() {
    independent_permits();
}

#[test]
fn _session_registry_test_session_guards_incoming() {
    incoming();
}

#[test]
fn _session_registry_test_session_guards_incoming_and_outgoing() {
    incoming_and_outgoing();
}

#[test]
fn _session_registry_test_session_guards_already_established() {
    already_established();
}

fn outgoing(upto: usize) -> Vec<SessionState> {
    let mut path = vec![SessionState::Outgoing(InitState::ConnectIntent)];
    for stage in &STAGES[..upto] {
        path.push(SessionState::Outgoing(*stage));
    }
    path
}

fn incoming_path(upto: usize) -> Vec<SessionState> {
    let mut path = vec![SessionState::Incoming(InitState::ConnectIntent)];
    for stage in &STAGES[..upto] {
        path.push(SessionState::Incoming(*stage));
    }
    path
}

fn reverse_path(upto: usize) -> Vec<SessionState> {
    let mut path = outgoing(0);
    path.push(SessionState::ReverseConnection(ReverseState::Awaiting));
    path.push(SessionState::ReverseConnection(ReverseState::InProgress(
        InitState::ConnectIntent,
    )));
    for stage in &STAGES[..upto] {
        path.push(SessionState::ReverseConnection(ReverseState::InProgress(*stage)));
    }
    path
}

fn and(mut path: Vec<SessionState>, last: SessionState) -> Vec<SessionState> {
    path.push(last);
    path
}

/// A match that has to be extended when a state is added.
fn is_known(state: &SessionState) -> bool {
    match state {
        SessionState::Outgoing(stage) | SessionState::Incoming(stage) => match stage {
            InitState::ConnectIntent
            | InitState::Initializing
            | InitState::ChallengeHandshake
            | InitState::HandshakeResponse
            | InitState::ChallengeVerified
            | InitState::SessionRegistered
            | InitState::Ready => true,
        },
        SessionState::ReverseConnection(state) => match state {
            ReverseState::Awaiting | ReverseState::InProgress(_) | ReverseState::Finished(_) => true,
        },
        SessionState::Relayed(state) => match state {
            RelayedState::Initializing | RelayedState::Ready => true,
        },
        SessionState::RestartConnect
        | SessionState::Established(_)
        | SessionState::FailedEstablish(_)
        | SessionState::Closing
        | SessionState::Closed => true,
    }
}

#[test]
fn test_network_view_permits_for_different_states() {
    let mut not_permitted = vec![
        and(outgoing(0), SessionState::RestartConnect),
        and(
            and(outgoing(6), SessionState::Established(SESSION)),
            SessionState::Closing,
        ),
        and(outgoing(6), SessionState::Established(SESSION)),
        and(outgoing(0), SessionState::Relayed(RelayedState::Initializing)),
        and(
            and(outgoing(0), SessionState::Relayed(RelayedState::Initializing)),
            SessionState::Relayed(RelayedState::Ready),
        ),
        and(outgoing(0), SessionState::ReverseConnection(ReverseState::Awaiting)),
        and(
            reverse_path(0),
            SessionState::ReverseConnection(ReverseState::Finished(Err(SessionError::Unexpected(
                "".to_string(),
            )))),
        ),
    ];
    for upto in 0..7 {
        not_permitted.push(outgoing(upto));
        not_permitted.push(incoming_path(upto));
        not_permitted.push(reverse_path(upto));
    }
    assert_eq!(not_permitted.len(), 28);

    for path in not_permitted {
        let mut view = new_view();
        let node = view.guard(NODE_ID1, &vec![ADDR1], 0);
        let state = path.last().unwrap().clone();
        assert!(is_known(&state));
        for next in path {
            node.transition(&mut view, next).unwrap();
        }
        assert_eq!(node.state(&view), state);

        if let SessionLock::Permit(_) = view.lock_outgoing(NODE_ID1, &vec![ADDR1], 0) {
            panic!("We shouldn't get Permit from state: {}", state.to_text());
        }
        if state == SessionState::ReverseConnection(ReverseState::Awaiting) {
            continue;
        }
        if let SessionLock::Permit(_) = view.lock_incoming(NODE_ID1, &vec![ADDR1], 0) {
            panic!("We shouldn't get Permit from state: {}", state.to_text());
        }
    }
}

#[test]
fn failed_sessions_can_be_tried_again() {
    let mut view = new_view();
    let mut permit = expect_permit(view.lock_outgoing(NODE_ID1, &vec![ADDR1], 0));
    let first = permit.owner();
    assert_eq!(first.generation(), 1);
    let node = permit.registry;
    let state = permit.final_state();
    assert_eq!(
        state,
        SessionState::FailedEstablish(SessionError::ProgrammingError(
            "Dropping `SessionPermit` without result.".to_string()
        ))
    );
    assert_eq!(SessionPermit::before_release(&state), BeforeRelease::CleanState);
    assert!(SessionPermit::release(node, &mut view, state).is_none());
    assert!(view.is_current(&first));
    let permit = expect_permit(view.lock_incoming(NODE_ID1, &vec![ADDR1], 0));
    assert_eq!(permit.owner().generation(), 2);
    assert!(!view.is_current(&first));
    assert!(view.is_current(&permit.owner()));
}

#[test]
fn reverse_permits_are_marked() {
    let mut view = new_view();
    let permit = expect_permit(view.lock_outgoing(NODE_ID1, &vec![ADDR1], 0));
    assert!(!permit.reverse);
    let node = permit.registry;
    node.transition(&mut view, SessionState::ReverseConnection(ReverseState::Awaiting)).unwrap();
    let mut reverse = expect_permit(view.lock_incoming(NODE_ID1, &vec![ADDR1], 0));
    assert!(reverse.reverse);
    reverse.collect_results(Ok(SESSION)).unwrap();
    let state = reverse.final_state();
    assert_eq!(SessionPermit::before_release(&state), BeforeRelease::Nothing);
    // The handshake is not ready, so the state stays.
    assert!(SessionPermit::release(node, &mut view, state).is_none());
    assert_eq!(
        node.state(&view),
        SessionState::ReverseConnection(ReverseState::InProgress(InitState::ConnectIntent))
    );
}

#[test]
fn permits_fail_where_their_outcome_does_not_fit() {
    let mut view = new_view();
    let mut permit = expect_permit(view.lock_outgoing(NODE_ID1, &vec![ADDR1], 0));
    let node = permit.registry;
    permit.collect_results(Ok(SESSION)).unwrap();
    let state = permit.final_state();
    assert_eq!(SessionPermit::before_release(&state), BeforeRelease::ForgetAbortable);
    match SessionPermit::release(node, &mut view, state) {
        Some(SessionState::FailedEstablish(SessionError::ProgrammingError(text))) => {
            assert!(text.starts_with("Failed to transition to state: Established: "))
        }
        _ => panic!("expected a failure"),
    }
    assert_eq!(node.state(&view), SessionState::Outgoing(InitState::ConnectIntent));
}

fn info(ids: &[NodeId], endpoints: &[SocketAddr], slot: u32) -> NodeInfo {
    NodeInfo {
        identities: ids
            .iter()
            .map(|id| Identity {
                node_id: *id,
                public_key: PublicKey { x_high: 0, x_low: 0, y_high: 0, y_low: 0 },
            })
            .collect(),
        authenticated_identities: ids.to_vec(),
        slot,
        endpoints: endpoints.to_vec(),
        supported_encryption: vec!["Aes256GcmSiv".to_string()],
        session_key: None,
    }
}

#[test]
fn information_unifies_ids_of_a_node() {
    let mut view = new_view();
    let node = view.guard(NODE_ID1, &vec![ADDR1], 5);
    assert_eq!(view.guard(NODE_ID2, &vec![ADDR2, ADDR1], 6), node);
    assert_eq!(view.get_entry(NODE_ID2), None);
    view.update_entry(&info(&[NODE_ID1, NODE_ID2], &[ADDR2], 9), 7).unwrap();
    assert_eq!(view.get_entry(NODE_ID2), Some(node));
    assert_eq!(view.get_entry_by_addr(&ADDR2), Some(node));
    assert_eq!(view.get_entry_by_addr(&ADDR1), Some(node));
    assert_eq!(node.public_addresses(&view), vec![ADDR2]);
    assert_eq!(node.slot(&view), 9);
    let entry = node.identities(&view).unwrap();
    assert_eq!(entry.default_id.node_id, NODE_ID1);
    assert_eq!(entry.identities.len(), 2);
    // Another default id is not taken over.
    view.update_entry(&info(&[NODE_ID2, NODE_ID1], &[ADDR1], 10), 8).unwrap();
    assert_eq!(node.slot(&view), 9);
    view.remove_node(NODE_ID2);
    assert_eq!(view.get_entry(NODE_ID1), None);
    assert_eq!(view.get_entry_by_addr(&ADDR1), None);
}

#[test]
fn information_on_two_known_nodes_is_refused() {
    let mut view = new_view();
    let first = view.guard(NODE_ID1, &vec![ADDR1], 0);
    let second = view.guard(NODE_ID2, &vec![ADDR2], 0);
    assert!(first != second);
    assert_eq!(
        view.update_entry(&info(&[NODE_ID1, NODE_ID2], &[], 0), 0),
        Err("Inconsistent `NetworkView` state. A few entries are pointing to the same Node.".to_string())
    );
    assert_eq!(first.identities(&view).err(), Some("Identities list is empty".to_string()));
}

#[test]
fn information_gets_outdated() {
    let mut view = new_view();
    let node = view.guard(NODE_ID1, &vec![ADDR1], 0);
    assert!(node.info(&view, 0).update_recommended());
    view.update_entry(&info(&[NODE_ID1], &[ADDR1], 3), 1000).unwrap();
    assert!(!node.info(&view, 1000 + NODE_INFO_TTL).update_recommended());
    let late = node.info(&view, 1001 + NODE_INFO_TTL);
    assert!(matches!(late, Validity::UpdateRecommended(_)));
    assert_eq!(late.just_get().slot, 3);
    let permit = expect_permit(view.lock_outgoing(NODE_ID1, &vec![ADDR1], 0));
    establish_outgoing(&mut view, permit);
    assert!(!node.info(&view, 1001 + NODE_INFO_TTL).update_recommended());
}

#[test]
fn transitions_are_checked() {
    let mut view = new_view();
    assert_eq!(
        view.transition(NODE_ID1, SessionState::Closing),
        Err(TransitionError::NodeNotFound(NODE_ID1))
    );
    let node = view.guard(NODE_ID1, &vec![ADDR1], 0);
    assert_eq!(
        view.transition(NODE_ID1, SessionState::Closing),
        Err(TransitionError::InvalidTransition(SessionState::Closed, SessionState::Closing))
    );
    view.transition_outgoing(NODE_ID1, InitState::ConnectIntent).unwrap();
    assert!(view.transition_incoming(NODE_ID1, InitState::ConnectIntent).is_err());
    assert_eq!(node.state(&view), SessionState::Outgoing(InitState::ConnectIntent));
}

#[test]
fn abortable_initializations_are_remembered() {
    let mut view = new_view();
    let node: NodeView = view.guard(NODE_ID1, &vec![ADDR1], 0);
    node.register_abortable(&mut view, 4);
    node.register_abortable(&mut view, 5);
    assert_eq!(node.abort_initialization(&mut view), vec![4, 5]);
    assert_eq!(node.abort_initialization(&mut view), Vec::<u64>::new());
    node.register_abortable(&mut view, 6);
    node.unregister_abortable(&mut view);
    assert_eq!(node.abort_initialization(&mut view), Vec::<u64>::new());
}

#[test]
fn waiting_ends_with_the_outcome() {
    assert!(matches!(
        NodeAwaiting::await_for_finish(SessionState::Established(SESSION), false),
        Waiting::Over(Err(SessionError::Unexpected(text))) if text == "Session closed unexpectedly."
    ));
    assert!(matches!(
        NodeAwaiting::await_for_finish(SessionState::Closed, true),
        Waiting::Over(Err(SessionError::Unexpected(text))) if text == "Connection closed."
    ));
    let failed = SessionError::Timeout("late".to_string());
    assert!(matches!(
        NodeAwaiting::await_for_finish(SessionState::FailedEstablish(failed), true),
        Waiting::Over(Err(SessionError::Timeout(text))) if text == "late"
    ));
    assert!(matches!(
        NodeAwaiting::await_for_closed_or_failed(SessionState::Established(SESSION)),
        Waiting::Pending
    ));
    assert!(matches!(
        NodeAwaiting::await_for_closed_or_failed(SessionState::Closed),
        Waiting::Over(SessionError::Unexpected(_))
    ));
    assert!(NodeAwaiting::await_handshake(&SessionState::Incoming(InitState::ChallengeHandshake)));
    assert!(!NodeAwaiting::await_handshake(&SessionState::Incoming(InitState::Initializing)));
    assert!(matches!(
        NodeAwaiting::await_reverse_finish(SessionState::ReverseConnection(ReverseState::Finished(Ok(SESSION)))),
        Waiting::Over(Ok(s)) if s == SESSION
    ));
    assert_eq!(
        NodeAwaiting::next(Notice::Lagged(12)),
        Err(SessionError::Internal(
            "Waiting for session initialization: notifier lagged. Lost 12 state change(s).".to_string()
        ))
    );
    assert!(matches!(NodeAwaiting::next(Notice::Dropped), Err(SessionError::Internal(_))));
    assert_eq!(
        NodeAwaiting::next(Notice::State(SessionState::Closing)),
        Ok(SessionState::Closing)
    );
}
