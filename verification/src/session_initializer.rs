//! Handshakes: the steps by which a session is initialized from either side, and the
//! bookkeeping of handshakes that other nodes started.
use vstd::prelude::*;
use vstd::string::*;

use crate::assoc::AssocMap;
#[allow(unused_imports)]
use crate::assoc::{as_map, unique_keys};
use crate::config::ClientConfig;
use crate::direct_session::RawSession;
use crate::error::{
    owned, prefixed, ProtocolError, RequestError, SessionError, SessionInitError, TransitionError,
};
use crate::model::{
    identity_ids, list_contains, same_bytes, Identity, NodeId, PublicKey, RequestId, SessionHandle,
    SessionId, SocketAddr, INVALID_SESSION_ID,
};
#[allow(unused_imports)]
use crate::model::ids_of;
use crate::network_view::{NetworkView, NodeView};
#[allow(unused_imports)]
use crate::network_view::NetworkModel;
use crate::session_state::{InitState, SessionState};
#[allow(unused_imports)]
use crate::session_state::{incoming_target, init_rank, state_allowed};
#[allow(unused_imports)]
use crate::text::{decimal_list, push_decimal_list};

verus! {

/// How many handshakes that other nodes started may be under way at the same time.
pub const MAX_INCOMING_HANDSHAKES: usize = 64;

/// Which way a handshake goes.
#[derive(Clone, Copy, Debug, PartialEq, Eq, Structural)]
pub enum Direction {
    Outgoing,
    Incoming,
}

/// State that a stage of a handshake leads to.
pub open spec fn stage_target(direction: Direction, state: SessionState, stage: InitState) -> SessionState {
    match direction {
        Direction::Outgoing => SessionState::Outgoing(stage),
        Direction::Incoming => incoming_target(state, stage),
    }
}

/// Whether a handshake can go on with a stage.
pub open spec fn can_advance(
    direction: Direction,
    m: NetworkModel,
    node: NodeView,
    stage: InitState,
) -> bool {
    let state = m.nodes[node.index as int].state;
    state_allowed(state, stage_target(direction, state, stage))
}

/// The network after a handshake went on with a stage.
pub open spec fn advanced(
    direction: Direction,
    m: NetworkModel,
    node: NodeView,
    stage: InitState,
) -> NetworkModel {
    m.with_state(
        node.index,
        stage_target(direction, m.nodes[node.index as int].state, stage),
    )
}

/// Error of a handshake that can't go on with a stage.
pub open spec fn is_stage_error(
    direction: Direction,
    m: NetworkModel,
    node: NodeView,
    stage: InitState,
    e: SessionError,
) -> bool {
    let state = m.nodes[node.index as int].state;
    e matches SessionError::Internal(text) && text@ == TransitionError::InvalidTransition(
        state,
        stage_target(direction, state, stage),
    ).text()
}

fn advance(direction: Direction, view: &mut NetworkView, node: NodeView, stage: InitState) -> (r:
    Result<(), SessionError>)
    requires
        old(view)@.wf(),
        old(view)@.has(node),
    ensures
        final(view)@.wf(),
        final(view)@.has(node),
        match r {
            Ok(_) => can_advance(direction, old(view)@, node, stage) && final(view)@ == advanced(
                direction,
                old(view)@,
                node,
                stage,
            ),
            Err(e) => !can_advance(direction, old(view)@, node, stage) && final(view)@ == old(
                view,
            )@ && is_stage_error(direction, old(view)@, node, stage, e),
        },
{
    let ghost before = view@;
    let result = match direction {
        Direction::Outgoing => node.transition_outgoing(view, stage),
        Direction::Incoming => node.transition_incoming(view, stage),
    };
    match result {
        Ok(_) => Ok(()),
        Err(e) => {
            assert(view@.nodes =~= before.nodes);
            Err(SessionError::from_transition(&e))
        },
    }
}

/// What the challenge of the other party proved: its default id, all its identities, and the key
/// that it offers for the session.
pub struct Recovered {
    pub node_id: NodeId,
    pub identities: Vec<Identity>,
    pub session_key: Option<PublicKey>,
}

/// Position in a handshake that this node started.
#[derive(Clone, Copy, Debug, PartialEq, Eq, Structural)]
pub enum OutgoingStep {
    /// Nothing was done yet.
    Start,
    /// The first request is being put together.
    Preparing,
    /// The first request was sent.
    AwaitingSession,
    /// The challenge of the other party is being solved.
    Solving(SessionId),
    /// The solution was sent.
    AwaitingReply(SessionId),
    /// The solution of the other party is being checked.
    Validating(SessionId),
    /// The session is being registered.
    Registering(SessionId),
    /// The other party is being told that it may send packets.
    Resuming(SessionHandle),
    /// The handshake is over.
    Done,
}

/// What happened outside of a handshake that this node started.
pub enum OutgoingEvent {
    Begin,
    Prepared(Result<(), SessionError>),
    /// First response: a session id, and whether it came with a challenge.
    SessionReceived(Result<(Vec<u8>, bool), RequestError>),
    Solved(Result<(), String>),
    /// Second response: the session id that it names.
    ReplyReceived(Result<Vec<u8>, RequestError>),
    Validated(Result<Recovered, String>),
    Registered(Result<SessionHandle, String>),
    Resumed(Result<(), RequestError>),
}

/// What has to be done next in a handshake that this node started.
pub enum OutgoingAction {
    /// Put the first request together, with a challenge for the other party or without.
    Prepare { challenge: bool },
    /// Send the first request, without a session id, and wait for the answer for a time, which is
    /// in milliseconds.
    SendSession { timeout: u64 },
    /// Solve the challenge of the other party.
    Solve,
    /// Send the solution within the session, and wait for the answer for a time, which is in
    /// milliseconds.
    SendSolution { id: SessionId, timeout: u64 },
    /// Check the solution of the other party, which should be the given node.
    Validate { expected: NodeId },
    /// Register the session.
    Register { addr: SocketAddr, id: SessionId, recovered: Recovered },
    /// Tell the other party that it may send packets.
    SendResume(SessionHandle),
    /// The session is ready. Its response time should be measured.
    Finish(SessionHandle),
    /// The handshake failed. The other party is told, if so asked.
    Fail { error: SessionError, disconnect: bool },
    /// The event does not fit the position in the handshake.
    Ignore,
}

/// A handshake that this node started.
pub struct OutgoingHandshake {
    pub addr: SocketAddr,
    pub node: NodeView,
    /// Whether the other party has to prove its identity. A relay server does not.
    pub challenge: bool,
    /// For how long the answer to the first request is waited for, in milliseconds.
    pub session_request_timeout: u64,
    /// For how long the answer to the solution is waited for, in milliseconds.
    pub challenge_request_timeout: u64,
    pub step: OutgoingStep,
}

/// The handshake failed because it can't go on with a stage.
pub open spec fn stage_failed(
    h: OutgoingHandshake,
    m: NetworkModel,
    stage: InitState,
    after: OutgoingHandshake,
    m_after: NetworkModel,
    action: OutgoingAction,
) -> bool {
    &&& after == (OutgoingHandshake { step: OutgoingStep::Done, ..h })
    &&& m_after == m
    &&& action matches OutgoingAction::Fail { error, disconnect } && !disconnect && is_stage_error(
        Direction::Outgoing,
        m,
        h.node,
        stage,
        error,
    )
}

/// The handshake failed for the given reason, after the network came to the given state.
pub open spec fn failed_with(
    h: OutgoingHandshake,
    m: NetworkModel,
    after: OutgoingHandshake,
    m_after: NetworkModel,
    action: OutgoingAction,
    disconnects: bool,
) -> bool {
    &&& after == (OutgoingHandshake { step: OutgoingStep::Done, ..h })
    &&& m_after == m
    &&& action matches OutgoingAction::Fail { error, disconnect } && disconnect == disconnects
}

/// The handshake went on to a position.
pub open spec fn moved(
    h: OutgoingHandshake,
    m: NetworkModel,
    step: OutgoingStep,
    after: OutgoingHandshake,
    m_after: NetworkModel,
) -> bool {
    after == (OutgoingHandshake { step, ..h }) && m_after == m
}

/// Whether the other party is the node that a session was asked for.
pub open spec fn is_expected(node_id: NodeId, recovered: Recovered) -> bool {
    recovered.node_id == node_id || ids_of(recovered.identities@).contains(node_id)
}

/// What follows once the identity of the other party is known: the session is registered, if the
/// other party is the expected node.
pub open spec fn identified(
    h: OutgoingHandshake,
    m: NetworkModel,
    id: SessionId,
    recovered: Recovered,
    after: OutgoingHandshake,
    m_after: NetworkModel,
    action: OutgoingAction,
) -> bool {
    let stage = InitState::ChallengeVerified;
    if !can_advance(Direction::Outgoing, m, h.node, stage) {
        stage_failed(h, m, stage, after, m_after, action)
    } else {
        let next = advanced(Direction::Outgoing, m, h.node, stage);
        if is_expected(h.node.id, recovered) {
            &&& moved(h, next, OutgoingStep::Registering(id), after, m_after)
            &&& action matches OutgoingAction::Register { addr, id: registered, recovered: r }
                && addr == h.addr && registered == id && r.node_id == recovered.node_id
                && r.identities@ == recovered.identities@ && r.session_key
                == recovered.session_key
        } else {
            &&& failed_with(h, next, after, m_after, action, true)
            &&& action->error matches SessionError::Protocol(ProtocolError::InvalidResponse(text))
                && text@ == "Remote node id mismatch: "@ + h.node.id.text() + " (expected) vs "@
                + recovered.node_id.text() + " (response)"@
        }
    }
}

/// The identity of a party that does not have to prove one.
pub open spec fn is_anonymous(r: Recovered) -> bool {
    r.node_id == NodeId::zero() && r.identities@ == Seq::<Identity>::empty() && r.session_key
        is None
}

/// What an event does to a handshake that this node started. The stages of the session follow
/// the messages: after each answer of the other party the next stage is entered first.
pub open spec fn outgoing_stepped(
    h: OutgoingHandshake,
    m: NetworkModel,
    event: OutgoingEvent,
    after: OutgoingHandshake,
    m_after: NetworkModel,
    action: OutgoingAction,
) -> bool {
    match (h.step, event) {
        (OutgoingStep::Start, OutgoingEvent::Begin) => {
            let stage = InitState::Initializing;
            if can_advance(Direction::Outgoing, m, h.node, stage) {
                &&& moved(
                    h,
                    advanced(Direction::Outgoing, m, h.node, stage),
                    OutgoingStep::Preparing,
                    after,
                    m_after,
                )
                &&& action == (OutgoingAction::Prepare { challenge: h.challenge })
            } else {
                stage_failed(h, m, stage, after, m_after, action)
            }
        },
        (OutgoingStep::Preparing, OutgoingEvent::Prepared(Ok(_))) => {
            moved(h, m, OutgoingStep::AwaitingSession, after, m_after) && action == (
            OutgoingAction::SendSession { timeout: h.session_request_timeout })
        },
        (OutgoingStep::Preparing, OutgoingEvent::Prepared(Err(e))) => {
            failed_with(h, m, after, m_after, action, false) && action->error == e
        },
        (OutgoingStep::AwaitingSession, OutgoingEvent::SessionReceived(Ok(response))) => {
            let stage = InitState::ChallengeHandshake;
            if !can_advance(Direction::Outgoing, m, h.node, stage) {
                stage_failed(h, m, stage, after, m_after, action)
            } else {
                let next = advanced(Direction::Outgoing, m, h.node, stage);
                if response.0@.len() != 16 {
                    &&& failed_with(h, next, after, m_after, action, false)
                    &&& action->error matches SessionError::Protocol(
                        ProtocolError::InvalidResponse(text),
                    ) && text@ == INVALID_SESSION_ID@
                } else if !response.1 {
                    &&& failed_with(h, next, after, m_after, action, false)
                    &&& action->error matches SessionError::Protocol(
                        ProtocolError::InvalidResponse(text),
                    ) && text@
                        == "Expected ChallengeRequest while initializing session with {addr}"@
                } else {
                    &&& action == OutgoingAction::Solve
                    &&& after.step matches OutgoingStep::Solving(id) && id.bytes() == response.0@
                        && moved(h, next, OutgoingStep::Solving(id), after, m_after)
                }
            }
        },
        (OutgoingStep::AwaitingSession, OutgoingEvent::SessionReceived(Err(e))) => {
            &&& failed_with(h, m, after, m_after, action, false)
            &&& action->error matches SessionError::Network(text) && text@ == e.text()
        },
        (OutgoingStep::Solving(id), OutgoingEvent::Solved(Ok(_))) => {
            moved(h, m, OutgoingStep::AwaitingReply(id), after, m_after) && action == (
            OutgoingAction::SendSolution { id, timeout: h.challenge_request_timeout })
        },
        (OutgoingStep::Solving(_), OutgoingEvent::Solved(Err(e))) => {
            failed_with(h, m, after, m_after, action, false) && action->error
                == SessionError::Internal(e)
        },
        (OutgoingStep::AwaitingReply(id), OutgoingEvent::ReplyReceived(Ok(bytes))) => {
            let stage = InitState::HandshakeResponse;
            if !can_advance(Direction::Outgoing, m, h.node, stage) {
                stage_failed(h, m, stage, after, m_after, action)
            } else {
                let next = advanced(Direction::Outgoing, m, h.node, stage);
                if id.bytes() != bytes@ {
                    &&& failed_with(h, next, after, m_after, action, true)
                    &&& action->error matches SessionError::Protocol(
                        ProtocolError::InvalidResponse(text),
                    ) && text@ == "Session id mismatch: "@ + id.text() + " (expected) vs "@
                        + decimal_list(bytes@) + " (response)"@
                } else if h.challenge {
                    moved(h, next, OutgoingStep::Validating(id), after, m_after) && action == (
                    OutgoingAction::Validate { expected: h.node.id })
                } else {
                    exists|r: Recovered|
                        #[trigger] is_anonymous(r) && identified(
                            h,
                            next,
                            id,
                            r,
                            after,
                            m_after,
                            action,
                        )
                }
            }
        },
        (OutgoingStep::AwaitingReply(_), OutgoingEvent::ReplyReceived(Err(e))) => {
            &&& failed_with(h, m, after, m_after, action, false)
            &&& action->error matches SessionError::Network(text) && text@ == e.text()
        },
        (OutgoingStep::Validating(id), OutgoingEvent::Validated(Ok(recovered))) => identified(
            h,
            m,
            id,
            recovered,
            after,
            m_after,
            action,
        ),
        (OutgoingStep::Validating(_), OutgoingEvent::Validated(Err(e))) => {
            failed_with(h, m, after, m_after, action, true) && action->error
                == SessionError::Protocol(ProtocolError::InvalidChallenge(e))
        },
        (OutgoingStep::Registering(_), OutgoingEvent::Registered(Ok(session))) => {
            let stage = InitState::SessionRegistered;
            if can_advance(Direction::Outgoing, m, h.node, stage) {
                &&& moved(
                    h,
                    advanced(Direction::Outgoing, m, h.node, stage),
                    OutgoingStep::Resuming(session),
                    after,
                    m_after,
                )
                &&& action == OutgoingAction::SendResume(session)
            } else {
                stage_failed(h, m, stage, after, m_after, action)
            }
        },
        (OutgoingStep::Registering(_), OutgoingEvent::Registered(Err(e))) => {
            &&& failed_with(h, m, after, m_after, action, false)
            &&& action->error matches SessionError::Internal(text) && text@
                == "Failed to register session. Error: "@ + e@
        },
        (OutgoingStep::Resuming(session), OutgoingEvent::Resumed(Ok(_))) => {
            let stage = InitState::Ready;
            if can_advance(Direction::Outgoing, m, h.node, stage) {
                &&& moved(
                    h,
                    advanced(Direction::Outgoing, m, h.node, stage),
                    OutgoingStep::Done,
                    after,
                    m_after,
                )
                &&& action == OutgoingAction::Finish(session)
            } else {
                stage_failed(h, m, stage, after, m_after, action)
            }
        },
        (OutgoingStep::Resuming(_), OutgoingEvent::Resumed(Err(e))) => {
            &&& failed_with(h, m, after, m_after, action, false)
            &&& action->error matches SessionError::Network(text) && text@ == e.text()
        },
        _ => after == h && m_after == m && action == OutgoingAction::Ignore,
    }
}

impl OutgoingHandshake {
    /// A handshake with a node behind an address, before its first step.
    pub fn new(config: &ClientConfig, addr: SocketAddr, node: NodeView, challenge: bool) -> (r:
        OutgoingHandshake)
        ensures
            r == (OutgoingHandshake {
                addr,
                node,
                challenge,
                session_request_timeout: config.session_request_timeout,
                challenge_request_timeout: config.challenge_request_timeout,
                step: OutgoingStep::Start,
            }),
    {
        OutgoingHandshake {
            addr,
            node,
            challenge,
            session_request_timeout: config.session_request_timeout,
            challenge_request_timeout: config.challenge_request_timeout,
            step: OutgoingStep::Start,
        }
    }

    fn fail(&mut self, error: SessionError, disconnect: bool) -> (r: OutgoingAction)
        ensures
            *final(self) == (OutgoingHandshake { step: OutgoingStep::Done, ..*old(self) }),
            r == (OutgoingAction::Fail { error, disconnect }),
    {
        self.step = OutgoingStep::Done;
        OutgoingAction::Fail { error, disconnect }
    }

    fn identify(&mut self, view: &mut NetworkView, id: SessionId, recovered: Recovered) -> (r:
        OutgoingAction)
        requires
            old(view)@.wf(),
            old(view)@.has(old(self).node),
        ensures
            final(view)@.wf(),
            final(view)@.has(final(self).node),
            identified(*old(self), old(view)@, id, recovered, *final(self), final(view)@, r),
    {
        match advance(Direction::Outgoing, view, self.node, InitState::ChallengeVerified) {
            Ok(_) => {},
            Err(e) => {
                return self.fail(e, false);
            },
        }
        let ids = identity_ids(&recovered.identities);
        if recovered.node_id != self.node.id && !list_contains(&ids, &self.node.id) {
            let mut text = owned("Remote node id mismatch: ");
            self.node.id.push_text(&mut text);
            text.append(" (expected) vs ");
            recovered.node_id.push_text(&mut text);
            text.append(" (response)");
            assert(text@ =~= "Remote node id mismatch: "@ + self.node.id.text()
                + " (expected) vs "@ + recovered.node_id.text() + " (response)"@);
            return self.fail(SessionError::Protocol(ProtocolError::InvalidResponse(text)), true);
        }
        self.step = OutgoingStep::Registering(id);
        OutgoingAction::Register { addr: self.addr, id, recovered }
    }

    /// Goes on with what happened outside, and says what has to be done next.
    pub fn init_session(&mut self, view: &mut NetworkView, event: OutgoingEvent) -> (r: OutgoingAction)
        requires
            old(view)@.wf(),
            old(view)@.has(old(self).node),
        ensures
            final(view)@.wf(),
            final(view)@.has(final(self).node),
            outgoing_stepped(*old(self), old(view)@, event, *final(self), final(view)@, r),
    {
        match (self.step, event) {
            (OutgoingStep::Start, OutgoingEvent::Begin) => {
                match advance(Direction::Outgoing, view, self.node, InitState::Initializing) {
                    Ok(_) => {
                        self.step = OutgoingStep::Preparing;
                        OutgoingAction::Prepare { challenge: self.challenge }
                    },
                    Err(e) => self.fail(e, false),
                }
            },
            (OutgoingStep::Preparing, OutgoingEvent::Prepared(result)) => match result {
                Ok(_) => {
                    self.step = OutgoingStep::AwaitingSession;
                    OutgoingAction::SendSession { timeout: self.session_request_timeout }
                },
                Err(e) => self.fail(e, false),
            },
            (OutgoingStep::AwaitingSession, OutgoingEvent::SessionReceived(result)) => {
                match result {
                    Err(e) => self.fail(SessionError::from_request(&e), false),
                    Ok(response) => {
                        match advance(
                            Direction::Outgoing,
                            view,
                            self.node,
                            InitState::ChallengeHandshake,
                        ) {
                            Ok(_) => {},
                            Err(e) => {
                                return self.fail(e, false);
                            },
                        }
                        match SessionId::try_from_bytes(&response.0) {
                            None => {
                                let text = owned(INVALID_SESSION_ID);
                                self.fail(
                                    SessionError::Protocol(ProtocolError::InvalidResponse(text)),
                                    false,
                                )
                            },
                            Some(id) => {
                                if !response.1 {
                                    let text = owned(
                                        "Expected ChallengeRequest while initializing session with {addr}",
                                    );
                                    return self.fail(
                                        SessionError::Protocol(
                                            ProtocolError::InvalidResponse(text),
                                        ),
                                        false,
                                    );
                                }
                                self.step = OutgoingStep::Solving(id);
                                OutgoingAction::Solve
                            },
                        }
                    },
                }
            },
            (OutgoingStep::Solving(id), OutgoingEvent::Solved(result)) => match result {
                Ok(_) => {
                    self.step = OutgoingStep::AwaitingReply(id);
                    OutgoingAction::SendSolution { id, timeout: self.challenge_request_timeout }
                },
                Err(e) => self.fail(SessionError::Internal(e), false),
            },
            (OutgoingStep::AwaitingReply(id), OutgoingEvent::ReplyReceived(result)) => {
                match result {
                    Err(e) => self.fail(SessionError::from_request(&e), false),
                    Ok(bytes) => {
                        match advance(
                            Direction::Outgoing,
                            view,
                            self.node,
                            InitState::HandshakeResponse,
                        ) {
                            Ok(_) => {},
                            Err(e) => {
                                return self.fail(e, false);
                            },
                        }
                        let expected = id.to_bytes();
                        if !same_bytes(&expected, &bytes) {
                            let mut text = owned("Session id mismatch: ");
                            id.push_text(&mut text);
                            text.append(" (expected) vs ");
                            push_decimal_list(&mut text, &bytes);
                            text.append(" (response)");
                            assert(text@ =~= "Session id mismatch: "@ + id.text()
                                + " (expected) vs "@ + decimal_list(bytes@) + " (response)"@);
                            return self.fail(
                                SessionError::Protocol(ProtocolError::InvalidResponse(text)),
                                true,
                            );
                        }
                        if self.challenge {
                            self.step = OutgoingStep::Validating(id);
                            OutgoingAction::Validate { expected: self.node.id }
                        } else {
                            let recovered = Recovered {
                                node_id: NodeId { high: 0, low: 0 },
                                identities: Vec::new(),
                                session_key: None,
                            };
                            assert(is_anonymous(recovered));
                            self.identify(view, id, recovered)
                        }
                    },
                }
            },
            (OutgoingStep::Validating(id), OutgoingEvent::Validated(result)) => match result {
                Ok(recovered) => self.identify(view, id, recovered),
                Err(e) => self.fail(
                    SessionError::Protocol(ProtocolError::InvalidChallenge(e)),
                    true,
                ),
            },
            (OutgoingStep::Registering(_), OutgoingEvent::Registered(result)) => match result {
                Err(e) => self.fail(
                    SessionError::Internal(
                        prefixed("Failed to register session. Error: ", e.as_str()),
                    ),
                    false,
                ),
                Ok(session) => {
                    match advance(
                        Direction::Outgoing,
                        view,
                        self.node,
                        InitState::SessionRegistered,
                    ) {
                        Ok(_) => {
                            self.step = OutgoingStep::Resuming(session);
                            OutgoingAction::SendResume(session)
                        },
                        Err(e) => self.fail(e, false),
                    }
                },
            },
            (OutgoingStep::Resuming(session), OutgoingEvent::Resumed(result)) => match result {
                Err(e) => self.fail(SessionError::from_request(&e), false),
                Ok(_) => {
                    match advance(Direction::Outgoing, view, self.node, InitState::Ready) {
                        Ok(_) => {
                            self.step = OutgoingStep::Done;
                            OutgoingAction::Finish(session)
                        },
                        Err(e) => self.fail(e, false),
                    }
                },
            },
            _ => OutgoingAction::Ignore,
        }
    }
}

/// Stage that a session has at a position of a handshake that this node started.
pub open spec fn outgoing_stage(step: OutgoingStep) -> Option<InitState> {
    match step {
        OutgoingStep::Start => Some(InitState::ConnectIntent),
        OutgoingStep::Preparing => Some(InitState::Initializing),
        OutgoingStep::AwaitingSession => Some(InitState::Initializing),
        OutgoingStep::Solving(_) => Some(InitState::ChallengeHandshake),
        OutgoingStep::AwaitingReply(_) => Some(InitState::ChallengeHandshake),
        OutgoingStep::Validating(_) => Some(InitState::HandshakeResponse),
        OutgoingStep::Registering(_) => Some(InitState::ChallengeVerified),
        OutgoingStep::Resuming(_) => Some(InitState::SessionRegistered),
        OutgoingStep::Done => None,
    }
}

/// Whether the session has the stage that belongs to the position in the handshake.
pub open spec fn outgoing_in_step(h: OutgoingHandshake, m: NetworkModel) -> bool {
    &&& m.has(h.node)
    &&& outgoing_stage(h.step) matches Some(stage) ==> m.nodes[h.node.index as int].state
        == SessionState::Outgoing(stage)
}

/// As long as nobody else touches the session, the handshake and the stage of the session go on
/// together: no step fails on a stage, and the handshake finishes with the session ready.
pub proof fn lemma_outgoing_stays_in_step(
    h: OutgoingHandshake,
    m: NetworkModel,
    event: OutgoingEvent,
    after: OutgoingHandshake,
    m_after: NetworkModel,
    action: OutgoingAction,
)
    requires
        outgoing_in_step(h, m),
        outgoing_stepped(h, m, event, after, m_after, action),
    ensures
        outgoing_in_step(after, m_after),
        action matches OutgoingAction::Finish(_) ==> m_after.nodes[h.node.index as int].state
            == SessionState::Outgoing(InitState::Ready),
        forall|stage: InitState|
            h.step != OutgoingStep::Done ==> (#[trigger] can_advance(
                Direction::Outgoing,
                m,
                h.node,
                stage,
            ) <==> init_rank(stage) == init_rank(outgoing_stage(h.step)->Some_0) + 1),
{
}

/// A session that needs proof of identity is registered only once the other party has proved to
/// be the node that was asked for.
pub proof fn lemma_registration_needs_identity(
    h: OutgoingHandshake,
    m: NetworkModel,
    event: OutgoingEvent,
    after: OutgoingHandshake,
    m_after: NetworkModel,
    action: OutgoingAction,
)
    requires
        h.challenge,
        outgoing_stepped(h, m, event, after, m_after, action),
        action is Register,
    ensures
        event matches OutgoingEvent::Validated(Ok(recovered)) && is_expected(
            h.node.id,
            recovered,
        ),
{
}

/// A handshake ends with its last step: nothing happens to it afterwards.
pub proof fn lemma_finished_handshake_rests(
    h: OutgoingHandshake,
    m: NetworkModel,
    event: OutgoingEvent,
    after: OutgoingHandshake,
    m_after: NetworkModel,
    action: OutgoingAction,
)
    requires
        h.step == OutgoingStep::Done,
        outgoing_stepped(h, m, event, after, m_after, action),
    ensures
        after == h,
        m_after == m,
        action is Ignore,
{
}

/// Position in a handshake that another node started.
#[derive(Clone, Copy, Debug, PartialEq, Eq, Structural)]
pub enum IncomingStep {
    /// Nothing was done yet.
    Start,
    /// A challenge is being sent.
    SendingChallenge,
    /// The solution of the other party is awaited.
    AwaitingSolution,
    /// The solution of the other party is being checked.
    Validating(RequestId),
    /// The challenge of the other party is being solved.
    Solving(RequestId),
    /// The session is being registered.
    Registering(RequestId),
    /// The own solution is being sent.
    Responding(SessionHandle),
    /// The other party has yet to say that packets may be sent.
    AwaitingResume(SessionHandle),
    /// The handshake is over.
    Done,
}

/// What happened outside of a handshake that another node started.
pub enum IncomingEvent {
    Begin,
    ChallengeSent(bool),
    /// A further request within the session, or nothing if none will come any more.
    Request(Option<RequestId>),
    Validated(Result<Recovered, String>),
    Solved(Result<(), String>),
    Registered(Result<SessionHandle, String>),
    Responded(bool),
    Resumed,
}

/// What has to be done next in a handshake that another node started.
pub enum IncomingAction {
    /// Send a challenge, as the answer to the request that started the handshake.
    SendChallenge(RequestId),
    /// Wait for a further request. Meanwhile the challenge of the other party is solved, if it
    /// sent one.
    AwaitRequest { solve: bool },
    /// Check the solution of the other party.
    Validate,
    /// Wait until the challenge of the other party is solved. Only a party whose own solution was
    /// right gets that far.
    AwaitSolution,
    /// Register the session.
    Register { addr: SocketAddr, id: SessionId, recovered: Recovered },
    /// Hold packets back, and send the own solution as the answer to a request.
    Respond { session: SessionHandle, request_id: RequestId },
    /// Wait until the other party says that packets may be sent.
    AwaitResume(SessionHandle),
    /// The session is ready. Its response time should be measured.
    Finish(SessionHandle),
    /// The handshake failed.
    Fail(SessionError),
    /// The event does not fit the position in the handshake.
    Ignore,
}

/// A handshake that another node started.
pub struct IncomingHandshake {
    pub with: SocketAddr,
    pub node: NodeView,
    pub session_id: SessionId,
    pub request_id: RequestId,
    /// Whether the other party sent a challenge.
    pub challenged: bool,
    /// What the other party has proved to be.
    pub recovered: Option<Recovered>,
    pub step: IncomingStep,
}

/// The handshake failed because it can't go on with a stage.
pub open spec fn incoming_stage_failed(
    h: IncomingHandshake,
    m: NetworkModel,
    stage: InitState,
    after: IncomingHandshake,
    m_after: NetworkModel,
    action: IncomingAction,
) -> bool {
    &&& after == (IncomingHandshake { step: IncomingStep::Done, ..h })
    &&& m_after == m
    &&& action matches IncomingAction::Fail(error) && is_stage_error(
        Direction::Incoming,
        m,
        h.node,
        stage,
        error,
    )
}

/// The handshake failed, after the network came to the given state.
pub open spec fn incoming_failed(
    h: IncomingHandshake,
    m: NetworkModel,
    after: IncomingHandshake,
    m_after: NetworkModel,
    action: IncomingAction,
) -> bool {
    after == (IncomingHandshake { step: IncomingStep::Done, ..h }) && m_after == m && action
        is Fail
}

/// The handshake entered a stage and went on to a position, or failed because it could not.
pub open spec fn incoming_advanced(
    h: IncomingHandshake,
    m: NetworkModel,
    stage: InitState,
    step: IncomingStep,
    next: IncomingAction,
    after: IncomingHandshake,
    m_after: NetworkModel,
    action: IncomingAction,
) -> bool {
    if can_advance(Direction::Incoming, m, h.node, stage) {
        &&& after == (IncomingHandshake { step, ..h })
        &&& m_after == advanced(Direction::Incoming, m, h.node, stage)
        &&& action == next
    } else {
        incoming_stage_failed(h, m, stage, after, m_after, action)
    }
}

/// What an event does to a handshake that another node started.
pub open spec fn incoming_stepped(
    h: IncomingHandshake,
    m: NetworkModel,
    event: IncomingEvent,
    after: IncomingHandshake,
    m_after: NetworkModel,
    action: IncomingAction,
) -> bool {
    match (h.step, event) {
        (IncomingStep::Start, IncomingEvent::Begin) => incoming_advanced(
            h,
            m,
            InitState::Initializing,
            IncomingStep::SendingChallenge,
            IncomingAction::SendChallenge(h.request_id),
            after,
            m_after,
            action,
        ),
        (IncomingStep::SendingChallenge, IncomingEvent::ChallengeSent(sent)) => if sent {
            incoming_advanced(
                h,
                m,
                InitState::ChallengeHandshake,
                IncomingStep::AwaitingSolution,
                IncomingAction::AwaitRequest { solve: h.challenged },
                after,
                m_after,
                action,
            )
        } else {
            &&& incoming_failed(h, m, after, m_after, action)
            &&& action->Fail_0 matches SessionError::Network(text) && text@
                == "Request failed: Failed to send challenge"@
        },
        (IncomingStep::AwaitingSolution, IncomingEvent::Request(request)) => match request {
            Some(request_id) => incoming_advanced(
                h,
                m,
                InitState::HandshakeResponse,
                IncomingStep::Validating(request_id),
                IncomingAction::Validate,
                after,
                m_after,
                action,
            ),
            None => {
                &&& incoming_failed(h, m, after, m_after, action)
                &&& action->Fail_0 matches SessionError::Timeout(text) && text@
                    == "Gave up waiting for Session messages from peer."@
            },
        },
        (IncomingStep::Validating(request_id), IncomingEvent::Validated(result)) => match result {
            Ok(recovered) => {
                &&& after == (IncomingHandshake {
                    step: IncomingStep::Solving(request_id),
                    recovered: Some(recovered),
                    ..h
                })
                &&& m_after == m
                &&& action == IncomingAction::AwaitSolution
            },
            Err(e) => incoming_failed(h, m, after, m_after, action) && action->Fail_0
                == SessionError::Protocol(ProtocolError::InvalidChallenge(e)),
        },
        (IncomingStep::Solving(request_id), IncomingEvent::Solved(result)) => match result {
            Ok(_) => match h.recovered {
                Some(recovered) => incoming_advanced(
                    IncomingHandshake { recovered: None, ..h },
                    m,
                    InitState::ChallengeVerified,
                    IncomingStep::Registering(request_id),
                    IncomingAction::Register { addr: h.with, id: h.session_id, recovered },
                    after,
                    m_after,
                    action,
                ),
                None => after == h && m_after == m && action == IncomingAction::Ignore,
            },
            Err(e) => incoming_failed(h, m, after, m_after, action) && action->Fail_0
                == SessionError::Internal(e),
        },
        (IncomingStep::Registering(request_id), IncomingEvent::Registered(result)) => match result {
            Ok(session) => incoming_advanced(
                h,
                m,
                InitState::SessionRegistered,
                IncomingStep::Responding(session),
                IncomingAction::Respond { session, request_id },
                after,
                m_after,
                action,
            ),
            Err(e) => {
                &&& incoming_failed(h, m, after, m_after, action)
                &&& action->Fail_0 matches SessionError::Internal(text) && text@
                    == "Failed to register session. Error: "@ + e@
            },
        },
        (IncomingStep::Responding(session), IncomingEvent::Responded(sent)) => if sent {
            &&& after == (IncomingHandshake { step: IncomingStep::AwaitingResume(session), ..h })
            &&& m_after == m
            &&& action == IncomingAction::AwaitResume(session)
        } else {
            &&& incoming_failed(h, m, after, m_after, action)
            &&& action->Fail_0 matches SessionError::Network(text) && text@
                == "Request failed: Sending challenge response."@
        },
        (IncomingStep::AwaitingResume(session), IncomingEvent::Resumed) => incoming_advanced(
            h,
            m,
            InitState::Ready,
            IncomingStep::Done,
            IncomingAction::Finish(session),
            after,
            m_after,
            action,
        ),
        _ => after == h && m_after == m && action == IncomingAction::Ignore,
    }
}

fn request_failure(m: &str) -> (r: SessionError)
    ensures
        r matches SessionError::Network(text) && text@ == "Request failed: "@ + m@,
{
    let e = RequestError::Generic(owned(m));
    SessionError::from_request(&e)
}

impl IncomingHandshake {
    /// A handshake that a request from an address started, before its first step.
    pub fn new(
        with: SocketAddr,
        node: NodeView,
        session_id: SessionId,
        request_id: RequestId,
        challenged: bool,
    ) -> (r: IncomingHandshake)
        ensures
            r == (IncomingHandshake {
                with,
                node,
                session_id,
                request_id,
                challenged,
                recovered: None,
                step: IncomingStep::Start,
            }),
    {
        IncomingHandshake {
            with,
            node,
            session_id,
            request_id,
            challenged,
            recovered: None,
            step: IncomingStep::Start,
        }
    }

    fn fail(&mut self, error: SessionError) -> (r: IncomingAction)
        ensures
            *final(self) == (IncomingHandshake { step: IncomingStep::Done, ..*old(self) }),
            r == IncomingAction::Fail(error),
    {
        self.step = IncomingStep::Done;
        IncomingAction::Fail(error)
    }

    fn advance_to(
        &mut self,
        view: &mut NetworkView,
        stage: InitState,
        step: IncomingStep,
        next: IncomingAction,
    ) -> (r: IncomingAction)
        requires
            old(view)@.wf(),
            old(view)@.has(old(self).node),
        ensures
            final(view)@.wf(),
            final(view)@.has(final(self).node),
            incoming_advanced(
                *old(self),
                old(view)@,
                stage,
                step,
                next,
                *final(self),
                final(view)@,
                r,
            ),
    {
        match advance(Direction::Incoming, view, self.node, stage) {
            Ok(_) => {
                self.step = step;
                next
            },
            Err(e) => self.fail(e),
        }
    }

    /// Goes on with what happened outside, and says what has to be done next.
    pub fn init_session_handler(&mut self, view: &mut NetworkView, event: IncomingEvent) -> (r: IncomingAction)
        requires
            old(view)@.wf(),
            old(view)@.has(old(self).node),
        ensures
            final(view)@.wf(),
            final(view)@.has(final(self).node),
            incoming_stepped(*old(self), old(view)@, event, *final(self), final(view)@, r),
    {
        proof {
            reveal_strlit("Request failed: ");
            reveal_strlit("Failed to send challenge");
            reveal_strlit("Request failed: Failed to send challenge");
            reveal_strlit("Sending challenge response.");
            reveal_strlit("Request failed: Sending challenge response.");
            assert("Request failed: "@ + "Failed to send challenge"@
                =~= "Request failed: Failed to send challenge"@);
            assert("Request failed: "@ + "Sending challenge response."@
                =~= "Request failed: Sending challenge response."@);
        }
        match (self.step, event) {
            (IncomingStep::Start, IncomingEvent::Begin) => {
                let request_id = self.request_id;
                self.advance_to(
                    view,
                    InitState::Initializing,
                    IncomingStep::SendingChallenge,
                    IncomingAction::SendChallenge(request_id),
                )
            },
            (IncomingStep::SendingChallenge, IncomingEvent::ChallengeSent(sent)) => {
                if !sent {
                    return self.fail(request_failure("Failed to send challenge"));
                }
                let solve = self.challenged;
                self.advance_to(
                    view,
                    InitState::ChallengeHandshake,
                    IncomingStep::AwaitingSolution,
                    IncomingAction::AwaitRequest { solve },
                )
            },
            (IncomingStep::AwaitingSolution, IncomingEvent::Request(request)) => match request {
                Some(request_id) => self.advance_to(
                    view,
                    InitState::HandshakeResponse,
                    IncomingStep::Validating(request_id),
                    IncomingAction::Validate,
                ),
                None => self.fail(
                    SessionError::Timeout(
                        owned("Gave up waiting for Session messages from peer."),
                    ),
                ),
            },
            (IncomingStep::Validating(request_id), IncomingEvent::Validated(result)) => {
                match result {
                    Ok(recovered) => {
                        self.step = IncomingStep::Solving(request_id);
                        self.recovered = Some(recovered);
                        IncomingAction::AwaitSolution
                    },
                    Err(e) => self.fail(
                        SessionError::Protocol(ProtocolError::InvalidChallenge(e)),
                    ),
                }
            },
            (IncomingStep::Solving(request_id), IncomingEvent::Solved(result)) => match result {
                Ok(_) => {
                    let addr = self.with;
                    let id = self.session_id;
                    match self.recovered.take() {
                        Some(recovered) => self.advance_to(
                            view,
                            InitState::ChallengeVerified,
                            IncomingStep::Registering(request_id),
                            IncomingAction::Register { addr, id, recovered },
                        ),
                        None => IncomingAction::Ignore,
                    }
                },
                Err(e) => self.fail(SessionError::Internal(e)),
            },
            (IncomingStep::Registering(request_id), IncomingEvent::Registered(result)) => {
                match result {
                    Ok(session) => self.advance_to(
                        view,
                        InitState::SessionRegistered,
                        IncomingStep::Responding(session),
                        IncomingAction::Respond { session, request_id },
                    ),
                    Err(e) => self.fail(
                        SessionError::Internal(
                            prefixed("Failed to register session. Error: ", e.as_str()),
                        ),
                    ),
                }
            },
            (IncomingStep::Responding(session), IncomingEvent::Responded(sent)) => {
                if !sent {
                    return self.fail(request_failure("Sending challenge response."));
                }
                self.step = IncomingStep::AwaitingResume(session);
                IncomingAction::AwaitResume(session)
            },
            (IncomingStep::AwaitingResume(session), IncomingEvent::Resumed) => self.advance_to(
                view,
                InitState::Ready,
                IncomingStep::Done,
                IncomingAction::Finish(session),
            ),
            _ => IncomingAction::Ignore,
        }
    }
}

/// Stage that a session has at a position of a handshake that another node started.
pub open spec fn incoming_stage(step: IncomingStep) -> Option<InitState> {
    match step {
        IncomingStep::Start => Some(InitState::ConnectIntent),
        IncomingStep::SendingChallenge => Some(InitState::Initializing),
        IncomingStep::AwaitingSolution => Some(InitState::ChallengeHandshake),
        IncomingStep::Validating(_) => Some(InitState::HandshakeResponse),
        IncomingStep::Solving(_) => Some(InitState::HandshakeResponse),
        IncomingStep::Registering(_) => Some(InitState::ChallengeVerified),
        IncomingStep::Responding(_) => Some(InitState::SessionRegistered),
        IncomingStep::AwaitingResume(_) => Some(InitState::SessionRegistered),
        IncomingStep::Done => None,
    }
}

/// Whether the session has the stage that belongs to the position in the handshake, be it on its
/// own or as part of a reverse connection.
pub open spec fn incoming_in_step(h: IncomingHandshake, m: NetworkModel) -> bool {
    &&& m.has(h.node)
    &&& incoming_stage(h.step) matches Some(stage) ==> {
        let state = m.nodes[h.node.index as int].state;
        state == SessionState::Incoming(stage) || state == SessionState::ReverseConnection(
            crate::session_state::ReverseState::InProgress(stage),
        )
    }
}

/// As long as nobody else touches the session, no step of the handshake fails on a stage, and the
/// handshake finishes with the session ready.
pub proof fn lemma_incoming_stays_in_step(
    h: IncomingHandshake,
    m: NetworkModel,
    event: IncomingEvent,
    after: IncomingHandshake,
    m_after: NetworkModel,
    action: IncomingAction,
)
    requires
        incoming_in_step(h, m),
        incoming_stepped(h, m, event, after, m_after, action),
    ensures
        incoming_in_step(after, m_after),
        action is Finish ==> crate::session_state::ready(m_after.nodes[h.node.index as int].state),
{
}

/// The session of another node is registered only after the solution of that node was checked:
/// no position past the check is reached without it.
pub proof fn lemma_incoming_registration_needs_check(
    h: IncomingHandshake,
    m: NetworkModel,
    event: IncomingEvent,
    after: IncomingHandshake,
    m_after: NetworkModel,
    action: IncomingAction,
)
    requires
        incoming_stepped(h, m, event, after, m_after, action),
    ensures
        action matches IncomingAction::Register { recovered, .. } ==> h.step is Solving
            && h.recovered == Some(recovered),
        after.recovered matches Some(recovered) ==> h.recovered == Some(recovered) || event
            == IncomingEvent::Validated(Ok(recovered)),
        after.step is Solving && !(h.step is Solving) ==> h.step is Validating && (event matches
            IncomingEvent::Validated(Ok(_))),
{
}

/// The number of processors, as `num_cpus::get` counts them for the running thread. The crate
/// documents that this is at least one. The number itself depends on the machine.
pub assume_specification[ num_cpus::get ]() -> (r: usize)
    ensures
        r >= 1,
;

/// How many challenges may be solved at the same time on a machine: all processors but two, which
/// are left for other work, and at least one.
pub open spec fn heavy_threads_for(cpus: nat) -> nat {
    if cpus > 2 {
        (cpus - 2) as nat
    } else {
        1
    }
}

/// How many challenges may be solved at the same time on a machine with so many processors.
pub fn heavy_threads(cpus: usize) -> (r: usize)
    ensures
        r == heavy_threads_for(cpus as nat),
        r >= 1,
{
    if cpus > 2 {
        cpus - 2
    } else {
        1
    }
}

/// A question to prove that the other party spends work on the handshake.
pub struct ChallengeRequest {
    pub challenge: Vec<u8>,
    pub difficulty: u64,
}

/// A request that belongs to a handshake.
pub struct SessionRequest {
    pub identities: Vec<Identity>,
    pub challenge_req: Option<ChallengeRequest>,
    pub challenge_resp: Option<Vec<u8>>,
}

/// The public key of each identity was had, in order.
pub open spec fn all_known(keys: Seq<Result<Identity, String>>, known: Seq<Identity>) -> bool {
    &&& known.len() == keys.len()
    &&& forall|i: int|
        #![trigger keys[i]]
        #![trigger known[i]]
        0 <= i < keys.len() ==> keys[i] == Ok::<Identity, String>(known[i])
}

/// Asking for one of the public keys failed, for the given reason, and for none before it.
pub open spec fn first_missing(keys: Seq<Result<Identity, String>>, reason: Seq<char>) -> bool {
    exists|i: int|
        {
            &&& 0 <= i < keys.len()
            &&& (#[trigger] keys[i] matches Err(e) && e@ == reason)
            &&& forall|j: int| 0 <= j < i ==> #[trigger] keys[j] is Ok
        }
}

/// All identities out of what asking for the public key of each gave, or the reason why the first
/// of those that are missing could not be had.
pub(crate) fn known_identities(keys: &Vec<Result<Identity, String>>) -> (r: Result<Vec<Identity>, String>)
    ensures
        match r {
            Ok(known) => all_known(keys@, known@),
            Err(e) => first_missing(keys@, e@),
        },
{
    let mut known: Vec<Identity> = Vec::new();
    let mut i: usize = 0;
    while i < keys.len()
        invariant
            0 <= i <= keys@.len(),
            known@.len() == i,
            forall|j: int| 0 <= j < i ==> #[trigger] keys@[j] == Ok::<Identity, String>(known@[j]),
        decreases keys@.len() - i,
    {
        match &keys[i] {
            Ok(identity) => {
                known.push(*identity);
            },
            Err(e) => {
                let reason = e.clone();
                assert(keys@[i as int] matches Err(e) && e@ == reason@);
                return Err(reason);
            },
        }
        i += 1;
    }
    Ok(known)
}

/// The request names the given identities, proves none of them, and holds a challenge only where
/// one is wanted.
pub open spec fn introduces(
    request: SessionRequest,
    known: Seq<Identity>,
    challenge_req: ChallengeRequest,
    challenge: bool,
) -> bool {
    &&& request.identities@ == known
    &&& request.challenge_req == if challenge {
        Some(challenge_req)
    } else {
        None
    }
    &&& request.challenge_resp is None
}

/// The first request of a handshake.
pub(crate) fn introduction(
    identities: Vec<Identity>,
    challenge_req: ChallengeRequest,
    challenge: bool,
) -> (r: SessionRequest)
    ensures
        introduces(r, identities@, challenge_req, challenge),
{
    SessionRequest {
        identities,
        challenge_req: if challenge {
            Some(challenge_req)
        } else {
            None
        },
        challenge_resp: None,
    }
}

/// The first request of a handshake, given what listing the identities of this node and asking
/// for the public key of each gave. It names all of them, and asks the other party to prove its
/// own only where that is wanted.
pub fn prepare_session_request(
    keys: Result<Vec<Result<Identity, String>>, String>,
    challenge_req: ChallengeRequest,
    challenge: bool,
) -> (r: Result<SessionRequest, SessionError>)
    ensures
        match keys {
            Err(e) => r matches Err(SessionError::Internal(text)) && text@
                == "Failed to query identities: "@ + e@,
            Ok(keys) => match r {
                Ok(request) => {
                    &&& all_known(keys@, request.identities@)
                    &&& introduces(request, request.identities@, challenge_req, challenge)
                },
                Err(error) => error matches SessionError::Internal(text) && first_missing(
                    keys@,
                    text@,
                ),
            },
        },
{
    match keys {
        Err(e) => Err(SessionError::Internal(prefixed("Failed to query identities: ", e.as_str()))),
        Ok(keys) => match known_identities(&keys) {
            Ok(known) => Ok(introduction(known, challenge_req, challenge)),
            Err(e) => Err(SessionError::Internal(e)),
        },
    }
}

/// What could be had out of what asking for each gave.
pub open spec fn available<T>(answers: Seq<Option<T>>) -> Seq<T>
    decreases answers.len(),
{
    if answers.len() == 0 {
        Seq::empty()
    } else {
        match answers.last() {
            Some(found) => available(answers.drop_last()).push(found),
            None => available(answers.drop_last()),
        }
    }
}

/// Identities of this node: the default one, which must be there, and behind it all aliases that
/// could be had.
pub fn list_crypto<T: Copy>(
    default: Result<T, String>,
    aliases: Result<Vec<Option<T>>, String>,
) -> (r: Result<Vec<T>, String>)
    ensures
        match (default, aliases) {
            (Err(e), _) => r == Err::<Vec<T>, String>(e),
            (Ok(_), Err(e)) => r == Err::<Vec<T>, String>(e),
            (Ok(first), Ok(answers)) => r matches Ok(list) && list@ == seq![first] + available(
                answers@,
            ),
        },
{
    let first = match default {
        Ok(first) => first,
        Err(e) => {
            return Err(e);
        },
    };
    let answers = match aliases {
        Ok(answers) => answers,
        Err(e) => {
            return Err(e);
        },
    };
    let mut list: Vec<T> = Vec::new();
    list.push(first);
    let mut i: usize = 0;
    assert(list@ =~= seq![first] + available(answers@.take(0)));
    while i < answers.len()
        invariant
            0 <= i <= answers@.len(),
            list@ == seq![first] + available(answers@.take(i as int)),
        decreases answers@.len() - i,
    {
        let ghost next = answers@.take(i + 1);
        assert(next.drop_last() =~= answers@.take(i as int));
        assert(next.last() == answers@[i as int]);
        match answers[i] {
            Some(found) => {
                list.push(found);
            },
            None => {},
        }
        assert(list@ =~= seq![first] + available(next));
        i += 1;
    }
    assert(answers@.take(i as int) =~= answers@);
    Ok(list)
}

/// A handshake that another node started. It is bound to the address that it came from, and holds
/// at most one request that was not read yet.
pub struct IncomingSession {
    pub remote: SocketAddr,
    pub queued: Option<(RequestId, SessionRequest)>,
}

/// A session that is used for a handshake only, and the number of handshakes that use it.
#[derive(Clone, Copy, Debug, PartialEq, Eq, Structural)]
pub struct TemporarySession {
    pub session: RawSession,
    pub holders: usize,
}

/// Bookkeeping of handshakes.
pub struct SessionInitializer {
    incoming_sessions: AssocMap<SessionId, IncomingSession>,
    tmp_sessions: AssocMap<SocketAddr, TemporarySession>,
    handles: AssocMap<SessionId, u64>,
    admitted: AssocMap<SocketAddr, ()>,
    simultaneous_challenges: usize,
}

/// Mathematical content of a [`SessionInitializer`].
#[verifier::ext_equal]
pub struct InitializerModel {
    /// Handshakes that wait for further requests.
    pub incoming: Map<SessionId, IncomingSession>,
    /// Sessions that handshakes use.
    pub tmp: Map<SocketAddr, TemporarySession>,
    /// Tasks that can be aborted.
    pub handles: Map<SessionId, u64>,
    /// Addresses that have a handshake under way.
    pub admitted: Map<SocketAddr, ()>,
    /// How many challenges may be solved at the same time.
    pub challenges: usize,
}

impl View for SessionInitializer {
    type V = InitializerModel;

    closed spec fn view(&self) -> InitializerModel {
        InitializerModel {
            incoming: self.incoming_sessions@,
            tmp: self.tmp_sessions@,
            handles: self.handles@,
            admitted: self.admitted@,
            challenges: self.simultaneous_challenges,
        }
    }
}

impl InitializerModel {
    /// With the session of one more handshake open, and with its task.
    pub open spec fn begun(self, id: SessionId, remote: SocketAddr, handle: u64) -> InitializerModel {
        InitializerModel {
            incoming: if self.incoming.contains_key(id) {
                self.incoming
            } else {
                self.incoming.insert(id, IncomingSession { remote, queued: None })
            },
            handles: self.handles.insert(id, handle),
            ..self
        }
    }

    /// No more handshakes than allowed are under way.
    pub open spec fn wf(self) -> bool {
        self.admitted.dom().finite() && self.admitted.len() <= MAX_INCOMING_HANDSHAKES
    }

    /// Whether a handshake from an address can be taken up.
    pub open spec fn admits(self, from: SocketAddr) -> bool {
        !self.admitted.contains_key(from) && self.admitted.len() < MAX_INCOMING_HANDSHAKES
    }

    /// Whether a request of an address within a handshake can be taken up.
    pub open spec fn continues(self, id: SessionId, from: SocketAddr) -> bool {
        &&& self.incoming.contains_key(id)
        &&& self.incoming[id].remote == from
        &&& self.incoming[id].queued is None
    }

    /// One more handshake uses the temporary session with an address.
    pub open spec fn leased(self, addr: SocketAddr, fresh: SessionId) -> InitializerModel {
        let held = if self.tmp.contains_key(addr) {
            self.tmp[addr]
        } else {
            TemporarySession { session: RawSession { id: fresh, remote: addr }, holders: 0 }
        };
        InitializerModel {
            tmp: self.tmp.insert(
                addr,
                TemporarySession { session: held.session, holders: (held.holders + 1) as usize },
            ),
            ..self
        }
    }

    /// One handshake less uses the temporary session with an address.
    pub open spec fn released(self, addr: SocketAddr) -> InitializerModel {
        if !self.tmp.contains_key(addr) {
            self
        } else if self.tmp[addr].holders <= 1 {
            InitializerModel { tmp: self.tmp.remove(addr), ..self }
        } else {
            InitializerModel {
                tmp: self.tmp.insert(
                    addr,
                    TemporarySession {
                        session: self.tmp[addr].session,
                        holders: (self.tmp[addr].holders - 1) as usize,
                    },
                ),
                ..self
            }
        }
    }

    /// Everything that belongs to handshakes is gone.
    pub open spec fn is_idle(self) -> bool {
        &&& self.incoming == Map::<SessionId, IncomingSession>::empty()
        &&& self.tmp == Map::<SocketAddr, TemporarySession>::empty()
        &&& self.handles == Map::<SessionId, u64>::empty()
        &&& self.admitted == Map::<SocketAddr, ()>::empty()
    }
}

/// How the task of a handshake that another node started ended.
pub enum TaskOutcome {
    Completed(Result<SessionHandle, SessionError>),
    TimedOut,
    Aborted,
}

impl SessionInitializer {
    /// No handshake is under way. The number of challenges that may be solved at the same time
    /// depends on the machine.
    pub fn new() -> (r: SessionInitializer)
        ensures
            r@.is_idle(),
            r@.wf(),
            exists|cpus: nat| cpus >= 1 && r@.challenges == #[trigger] heavy_threads_for(cpus),
    {
        let cpus = num_cpus::get();
        let r = SessionInitializer::with_cpus(cpus);
        assert(r@.challenges == heavy_threads_for(cpus as nat));
        r
    }

    /// No handshake is under way, on a machine with so many processors.
    pub fn with_cpus(cpus: usize) -> (r: SessionInitializer)
        ensures
            r@.is_idle(),
            r@.wf(),
            r@.challenges == heavy_threads_for(cpus as nat),
    {
        SessionInitializer {
            incoming_sessions: AssocMap::new(),
            tmp_sessions: AssocMap::new(),
            handles: AssocMap::new(),
            admitted: AssocMap::new(),
            simultaneous_challenges: heavy_threads(cpus),
        }
    }

    /// How many challenges may be solved at the same time.
    pub fn simultaneous_challenges(&self) -> (r: usize)
        ensures
            r == self@.challenges,
    {
        self.simultaneous_challenges
    }

    /// How many handshakes that other nodes started are open for further requests.
    pub fn incoming_len(&self) -> (r: usize)
        ensures
            self@.incoming.dom().finite(),
            r == self@.incoming.len(),
    {
        self.incoming_sessions.len()
    }

    /// How many temporary sessions there are.
    pub fn tmp_len(&self) -> (r: usize)
        ensures
            self@.tmp.dom().finite(),
            r == self@.tmp.len(),
    {
        self.tmp_sessions.len()
    }

    /// How many tasks of handshakes can be aborted.
    pub fn handles_len(&self) -> (r: usize)
        ensures
            self@.handles.dom().finite(),
            r == self@.handles.len(),
    {
        self.handles.len()
    }

    /// How many addresses have a handshake under way.
    pub fn admitted_len(&self) -> (r: usize)
        ensures
            self@.admitted.dom().finite(),
            r == self@.admitted.len(),
    {
        self.admitted.len()
    }

    /// Whether nothing that belongs to handshakes is left.
    pub fn is_idle(&self) -> (r: bool)
        ensures
            r == self@.is_idle(),
    {
        self.incoming_sessions.is_empty() && self.tmp_sessions.is_empty()
            && self.handles.is_empty() && self.admitted.is_empty()
    }

    /// Takes up a handshake from an address. An address has at most one handshake under way, and
    /// all addresses together have at most [`MAX_INCOMING_HANDSHAKES`].
    pub fn take_up(&mut self, from: SocketAddr) -> (r: bool)
        requires
            old(self)@.wf(),
        ensures
            final(self)@.wf(),
            r == old(self)@.admits(from),
            final(self)@ == if r {
                InitializerModel {
                    admitted: old(self)@.admitted.insert(from, ()),
                    ..old(self)@
                }
            } else {
                old(self)@
            },
    {
        if self.admitted.contains_key(&from) || self.admitted.len() >= MAX_INCOMING_HANDSHAKES {
            return false;
        }
        self.admitted.insert(from, ());
        true
    }

    /// Gives up the handshake from an address.
    pub fn release_admission(&mut self, from: &SocketAddr)
        requires
            old(self)@.wf(),
        ensures
            final(self)@.wf(),
            final(self)@ == (InitializerModel {
                admitted: old(self)@.admitted.remove(*from),
                ..old(self)@
            }),
    {
        self.admitted.remove(from);
    }

    /// Session to use for a handshake with an address. One is created only where there is none.
    pub fn temporary_session(&mut self, addr: SocketAddr, fresh: SessionId) -> (r: RawSession)
        ensures
            if old(self)@.tmp.contains_key(addr) {
                final(self)@ == old(self)@ && r == old(self)@.tmp[addr].session
            } else {
                &&& r == (RawSession { id: fresh, remote: addr })
                &&& final(self)@ == (InitializerModel {
                    tmp: old(self)@.tmp.insert(addr, TemporarySession { session: r, holders: 0 }),
                    ..old(self)@
                })
            },
    {
        let found: Option<TemporarySession> = match self.tmp_sessions.get(&addr) {
            Some(t) => Some(*t),
            None => None,
        };
        match found {
            Some(t) => t.session,
            None => {
                let session = RawSession { id: fresh, remote: addr };
                self.tmp_sessions.insert(addr, TemporarySession { session, holders: 0 });
                session
            },
        }
    }

    /// Session that a handshake with an address uses, if there is one.
    pub fn get_temporary_session(&self, addr: &SocketAddr) -> (r: Option<RawSession>)
        ensures
            match r {
                Some(s) => self@.tmp.contains_key(*addr) && s == self@.tmp[*addr].session,
                None => !self@.tmp.contains_key(*addr),
            },
    {
        match self.tmp_sessions.get(addr) {
            Some(t) => Some(t.session),
            None => None,
        }
    }

    /// Session to use for a handshake with an address, until it is given back.
    pub fn lease_temporary_session(&mut self, addr: SocketAddr, fresh: SessionId) -> (r: RawSession)
        requires
            old(self)@.tmp.contains_key(addr) ==> old(self)@.tmp[addr].holders < usize::MAX,
        ensures
            final(self)@ == old(self)@.leased(addr, fresh),
            r == final(self)@.tmp[addr].session,
    {
        let found: Option<TemporarySession> = match self.tmp_sessions.get(&addr) {
            Some(t) => Some(*t),
            None => None,
        };
        let held = match found {
            Some(t) => t,
            None => TemporarySession {
                session: RawSession { id: fresh, remote: addr },
                holders: 0,
            },
        };
        self.tmp_sessions.insert(
            addr,
            TemporarySession { session: held.session, holders: held.holders + 1 },
        );
        held.session
    }

    /// Gives back the session that a handshake with an address used. The last one to give it back
    /// removes it.
    pub fn release_temporary_session(&mut self, addr: &SocketAddr)
        ensures
            final(self)@ == old(self)@.released(*addr),
    {
        let found: Option<TemporarySession> = match self.tmp_sessions.get(addr) {
            Some(t) => Some(*t),
            None => None,
        };
        match found {
            Some(t) => {
                if t.holders <= 1 {
                    self.tmp_sessions.remove(addr);
                } else {
                    self.tmp_sessions.insert(
                        *addr,
                        TemporarySession { session: t.session, holders: t.holders - 1 },
                    );
                }
            },
            None => {},
        }
    }

    /// Opens the session of a handshake for further requests of an address, and remembers how to
    /// abort its task.
    pub fn begin_incoming(&mut self, id: SessionId, remote: SocketAddr, handle: u64)
        ensures
            final(self)@ == old(self)@.begun(id, remote, handle),
    {
        if !self.incoming_sessions.contains_key(&id) {
            self.incoming_sessions.insert(id, IncomingSession { remote, queued: None });
        }
        self.handles.insert(id, handle);
    }

    /// Closes the session of a handshake, and forgets its task.
    pub fn finish_incoming(&mut self, id: &SessionId)
        ensures
            final(self)@ == (InitializerModel {
                incoming: old(self)@.incoming.remove(*id),
                handles: old(self)@.handles.remove(*id),
                ..old(self)@
            }),
    {
        self.incoming_sessions.remove(id);
        self.handles.remove(id);
    }

    /// Hands a request to the handshake that it belongs to. It must come from the address that
    /// started the handshake, and a request that was not read yet is never replaced.
    pub fn try_continue_session(
        &mut self,
        id: SessionId,
        request_id: RequestId,
        from: SocketAddr,
        request: SessionRequest,
    ) -> (r: Result<(), SessionError>)
        ensures
            if old(self)@.continues(id, from) {
                &&& r is Ok
                &&& final(self)@ == (InitializerModel {
                    incoming: old(self)@.incoming.insert(
                        id,
                        IncomingSession { remote: from, queued: Some((request_id, request)) },
                    ),
                    ..old(self)@
                })
            } else {
                &&& final(self)@ == old(self)@
                &&& if old(self)@.incoming.contains_key(id) && old(self)@.incoming[id].remote
                    == from {
                    r matches Err(SessionError::Internal(m)) && m@
                        == "Failed to send Request to channel"@
                } else {
                    r == Err::<(), SessionError>(
                        SessionError::Protocol(ProtocolError::SessionNotFound(id)),
                    )
                }
            },
    {
        match self.incoming_sessions.get(&id) {
            None => {
                return Err(SessionError::Protocol(ProtocolError::SessionNotFound(id)));
            },
            Some(session) => {
                if session.remote != from {
                    return Err(SessionError::Protocol(ProtocolError::SessionNotFound(id)));
                }
                if session.queued.is_some() {
                    return Err(
                        SessionError::Internal(owned("Failed to send Request to channel")),
                    );
                }
            },
        }
        self.incoming_sessions.insert(
            id,
            IncomingSession { remote: from, queued: Some((request_id, request)) },
        );
        Ok(())
    }

    /// Takes out the request that a handshake has not read yet.
    pub fn next_request(&mut self, id: &SessionId) -> (r: Option<(RequestId, SessionRequest)>)
        ensures
            if old(self)@.incoming.contains_key(*id) {
                &&& r == old(self)@.incoming[*id].queued
                &&& final(self)@ == (InitializerModel {
                    incoming: old(self)@.incoming.insert(
                        *id,
                        IncomingSession { queued: None, ..old(self)@.incoming[*id] },
                    ),
                    ..old(self)@
                })
            } else {
                r is None && final(self)@ == old(self)@
            },
    {
        match self.incoming_sessions.remove(id) {
            Some(session) => {
                self.incoming_sessions.insert(
                    *id,
                    IncomingSession { remote: session.remote, queued: None },
                );
                assert(self@.incoming =~= old(self)@.incoming.insert(
                    *id,
                    IncomingSession { queued: None, ..old(self)@.incoming[*id] },
                ));
                session.queued
            },
            None => {
                assert(self@.incoming =~= old(self)@.incoming);
                None
            },
        }
    }

    /// Removes what a handshake left behind: its session, its task, and the temporary session
    /// with its id.
    pub fn cleanup_initialization(&mut self, id: &SessionId)
        ensures
            final(self)@.incoming == old(self)@.incoming.remove(*id),
            final(self)@.handles == old(self)@.handles.remove(*id),
            final(self)@.admitted == old(self)@.admitted,
            final(self)@.challenges == old(self)@.challenges,
            forgets_one(old(self)@.tmp, *id, final(self)@.tmp),
    {
        self.incoming_sessions.remove(id);
        self.handles.remove(id);
        let keys = self.tmp_sessions.keys();
        let mut i: usize = 0;
        while i < keys.len()
            invariant
                0 <= i <= keys@.len(),
                keys@.to_set() == self.tmp_sessions@.dom(),
                self@.incoming == old(self)@.incoming.remove(*id),
                self@.handles == old(self)@.handles.remove(*id),
                self@.admitted == old(self)@.admitted,
                self@.challenges == old(self)@.challenges,
                self@.tmp == old(self)@.tmp,
                forall|j: int|
                    0 <= j < i ==> self.tmp_sessions@[#[trigger] keys@[j]].session.id != *id,
            decreases keys@.len() - i,
        {
            let key = keys[i];
            proof {
                assert(keys@.contains(key));
                assert(self.tmp_sessions@.dom().contains(key));
            }
            let found = match self.tmp_sessions.get(&key) {
                Some(t) => t.session.id == *id,
                None => false,
            };
            if found {
                let ghost before = self@.tmp;
                self.tmp_sessions.remove(&key);
                assert(before.contains_key(key) && before[key].session.id == *id && self@.tmp
                    == before.remove(key));
                return;
            }
            i += 1;
        }
        assert forall|a: SocketAddr| self@.tmp.contains_key(a) implies (
        #[trigger] self@.tmp[a]).session.id != *id by {
            assert(keys@.to_set().contains(a));
            let j = choose|j: int| 0 <= j < keys@.len() && keys@[j] == a;
            assert(self.tmp_sessions@[keys@[j]].session.id != *id);
        }
    }

    /// Forgets all handshakes, and hands out the tasks that are to be aborted with their sessions.
    pub fn shutdown(&mut self) -> (r: Vec<(SessionId, u64)>)
        ensures
            final(self)@.is_idle(),
            final(self)@.wf(),
            final(self)@.challenges == old(self)@.challenges,
            unique_keys(r@),
            as_map(r@) == old(self)@.handles,
    {
        let handles = self.handles.items();
        self.incoming_sessions.clear();
        self.tmp_sessions.clear();
        self.handles.clear();
        self.admitted.clear();
        handles
    }

    /// Ends a handshake that another node started. Where it failed, the other party is told over
    /// the temporary session, which is returned, and what is left of the handshake is removed.
    pub fn new_session(
        &mut self,
        with: SocketAddr,
        session_id: SessionId,
        outcome: TaskOutcome,
        fresh: SessionId,
    ) -> (r: (Result<SessionHandle, SessionError>, Option<RawSession>))
        ensures
            match outcome {
                TaskOutcome::Completed(Ok(session)) => r.0 == Ok::<SessionHandle, SessionError>(
                    session,
                ) && r.1 is None && final(self)@ == old(self)@,
                _ => {
                    let known = old(self)@.tmp.contains_key(with);
                    let told = if known {
                        old(self)@.tmp[with].session
                    } else {
                        RawSession { id: fresh, remote: with }
                    };
                    let tmp = if known {
                        old(self)@.tmp
                    } else {
                        old(self)@.tmp.insert(with, TemporarySession { session: told, holders: 0 })
                    };
                    &&& outcome_error(outcome, r.0)
                    &&& r.1 == Some(told)
                    &&& final(self)@.incoming == old(self)@.incoming.remove(session_id)
                    &&& final(self)@.handles == old(self)@.handles.remove(session_id)
                    &&& final(self)@.admitted == old(self)@.admitted
                    &&& final(self)@.challenges == old(self)@.challenges
                    &&& forgets_one(tmp, session_id, final(self)@.tmp)
                },
            },
    {
        let error = match outcome {
            TaskOutcome::Completed(Ok(session)) => {
                return (Ok(session), None);
            },
            TaskOutcome::Completed(Err(e)) => e,
            TaskOutcome::TimedOut => SessionError::Timeout(owned("")),
            TaskOutcome::Aborted => SessionError::Internal(owned("Aborted")),
        };
        let session = self.temporary_session(with, fresh);
        self.cleanup_initialization(&session_id);
        (Err(error), Some(session))
    }
}

/// One entry with a session id is removed, if there is one.
pub open spec fn forgets_one(
    before: Map<SocketAddr, TemporarySession>,
    id: SessionId,
    after: Map<SocketAddr, TemporarySession>,
) -> bool {
    ||| exists|a: SocketAddr|
        {
            &&& before.contains_key(a)
            &&& (#[trigger] before[a]).session.id == id
            &&& after == before.remove(a)
        }
    ||| {
        &&& after == before
        &&& forall|a: SocketAddr|
            before.contains_key(a) ==> (#[trigger] before[a]).session.id != id
    }
}

/// Error that a failed task shows as.
pub open spec fn outcome_error(
    outcome: TaskOutcome,
    r: Result<SessionHandle, SessionError>,
) -> bool {
    match outcome {
        TaskOutcome::Completed(result) => r == result,
        TaskOutcome::TimedOut => r matches Err(SessionError::Timeout(m)) && m@ == ""@,
        TaskOutcome::Aborted => r matches Err(SessionError::Internal(m)) && m@ == "Aborted"@,
    }
}

/// An attempt to connect to a node, with the node named in its error.
pub fn init_p2p_session(node_id: NodeId, result: Result<SessionHandle, SessionError>) -> (r: Result<
    SessionHandle,
    SessionInitError,
>)
    ensures
        match result {
            Ok(session) => r == Ok::<SessionHandle, SessionInitError>(session),
            Err(e) => r == Err::<SessionHandle, SessionInitError>(
                SessionInitError::P2P(node_id, e),
            ),
        },
{
    match result {
        Ok(session) => Ok(session),
        Err(e) => Err(SessionInitError::P2P(node_id, e)),
    }
}

/// An attempt to connect to a relay server, with its address named in its error.
pub fn init_server_session(
    addr: SocketAddr,
    result: Result<SessionHandle, SessionError>,
) -> (r: Result<SessionHandle, SessionInitError>)
    ensures
        match result {
            Ok(session) => r == Ok::<SessionHandle, SessionInitError>(session),
            Err(e) => r == Err::<SessionHandle, SessionInitError>(
                SessionInitError::Relay(addr, e),
            ),
        },
{
    match result {
        Ok(session) => Ok(session),
        Err(e) => Err(SessionInitError::Relay(addr, e)),
    }
}

/// Once a handshake from an address was taken up, no second one is until the first is given up.
/// After that the next one is taken up again.
pub proof fn lemma_one_handshake_per_address(m: InitializerModel, from: SocketAddr)
    requires
        m.wf(),
        m.admits(from),
    ensures
        ({
            let after = InitializerModel { admitted: m.admitted.insert(from, ()), ..m };
            let released = InitializerModel { admitted: after.admitted.remove(from), ..after };
            !after.admits(from) && released.admits(from) && released.admitted =~= m.admitted
        }),
{
    let after = m.admitted.insert(from, ());
    assert(after.remove(from) =~= m.admitted);
}

/// No address can add to the handshakes under way once the limit is reached.
pub proof fn lemma_limit_holds_for_all_addresses(m: InitializerModel, from: SocketAddr)
    requires
        m.wf(),
        m.admitted.len() == MAX_INCOMING_HANDSHAKES,
    ensures
        !m.admits(from),
{
}

/// A request of an unknown handshake, or from a foreign address, changes nothing.
pub proof fn lemma_foreign_requests_are_refused(
    m: InitializerModel,
    id: SessionId,
    from: SocketAddr,
)
    requires
        !m.incoming.contains_key(id) || m.incoming[id].remote != from,
    ensures
        !m.continues(id, from),
{
}

/// A temporary session is the same for all who lease it, stays until the last one gives it back,
/// and is gone after that.
pub proof fn lemma_lease_is_shared(
    m: InitializerModel,
    addr: SocketAddr,
    first: SessionId,
    second: SessionId,
)
    requires
        !m.tmp.contains_key(addr),
    ensures
        ({
            let one = m.leased(addr, first);
            let two = one.leased(addr, second);
            &&& one.tmp[addr].session == (RawSession { id: first, remote: addr })
            &&& two.tmp[addr].session == one.tmp[addr].session
            &&& two.released(addr).tmp.contains_key(addr)
            &&& two.released(addr).tmp[addr].session == one.tmp[addr].session
            &&& !two.released(addr).released(addr).tmp.contains_key(addr)
            &&& two.released(addr).released(addr).tmp =~= m.tmp
        }),
{
}

} // verus!
