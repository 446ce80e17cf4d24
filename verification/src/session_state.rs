//! States of a session with another node, and the changes between them that are allowed.
use vstd::prelude::*;
use vstd::string::*;

use crate::error::{owned, prefixed, SessionError, TransitionError};
use crate::model::SessionHandle;

verus! {

/// Stage of a handshake.
#[derive(Clone, Copy, Debug, PartialEq, Eq, Hash, Structural)]
pub enum InitState {
    /// Someone plans to initialize a connection, so nobody else is allowed to.
    /// Others wait until the connection is ready.
    ConnectIntent,
    /// Set at the beginning of an initialization.
    Initializing,
    /// First round of session requests, challenges were sent.
    ChallengeHandshake,
    /// Second round of the handshake, a challenge response was received.
    HandshakeResponse,
    /// The challenge of the other party is valid.
    ChallengeVerified,
    /// The session is registered. Packets can be received, but not yet sent.
    SessionRegistered,
    /// Forwarding was resumed, so the protocol part of the initialization is finished.
    /// From here a session can become established.
    Ready,
}

/// Stage of a connection through a relay.
#[derive(Clone, Copy, Debug, PartialEq, Eq, Hash, Structural)]
pub enum RelayedState {
    Initializing,
    Ready,
}

/// Stage of a connection that the other node was asked to open.
#[derive(Debug, PartialEq)]
pub enum ReverseState {
    Awaiting,
    InProgress(InitState),
    Finished(Result<SessionHandle, SessionError>),
}

/// State of a session.
#[derive(Debug, PartialEq)]
pub enum SessionState {
    Outgoing(InitState),
    Incoming(InitState),
    ReverseConnection(ReverseState),
    Relayed(RelayedState),
    /// One way to connect failed and another one is about to be tried.
    RestartConnect,
    /// Holds the established session.
    Established(SessionHandle),
    /// The last attempt to initialize a session failed. Holds the error.
    FailedEstablish(SessionError),
    Closing,
    /// The session was closed gracefully, though the reason for closing could be a failure.
    Closed,
}

/// What is known of a node that there is no stable connection with.
#[derive(Clone, Copy, Debug, PartialEq, Eq, Hash, Structural)]
pub enum NodeState {
    /// No communication with the node was tried yet.
    Unknown,
    /// No response came from the node for a longer time.
    NotResponding,
    /// The node can't be reached.
    Unreachable,
    /// The node was shut down.
    Shutdown,
    /// The node reconnects all the time.
    Unstable,
}

impl Clone for ReverseState {
    fn clone(&self) -> (r: Self)
        ensures
            r == *self,
    {
        match self {
            ReverseState::Awaiting => ReverseState::Awaiting,
            ReverseState::InProgress(s) => ReverseState::InProgress(*s),
            ReverseState::Finished(Ok(s)) => ReverseState::Finished(Ok(*s)),
            ReverseState::Finished(Err(e)) => ReverseState::Finished(Err(e.clone())),
        }
    }
}

impl Clone for SessionState {
    fn clone(&self) -> (r: Self)
        ensures
            r == *self,
    {
        match self {
            SessionState::Outgoing(s) => SessionState::Outgoing(*s),
            SessionState::Incoming(s) => SessionState::Incoming(*s),
            SessionState::ReverseConnection(s) => SessionState::ReverseConnection(s.clone()),
            SessionState::Relayed(s) => SessionState::Relayed(*s),
            SessionState::RestartConnect => SessionState::RestartConnect,
            SessionState::Established(s) => SessionState::Established(*s),
            SessionState::FailedEstablish(e) => SessionState::FailedEstablish(e.clone()),
            SessionState::Closing => SessionState::Closing,
            SessionState::Closed => SessionState::Closed,
        }
    }
}

/// Position of a stage in the order in which a handshake goes through them.
pub open spec fn init_rank(s: InitState) -> int {
    match s {
        InitState::ConnectIntent => 0,
        InitState::Initializing => 1,
        InitState::ChallengeHandshake => 2,
        InitState::HandshakeResponse => 3,
        InitState::ChallengeVerified => 4,
        InitState::SessionRegistered => 5,
        InitState::Ready => 6,
    }
}

/// A handshake goes from each stage to the next one only.
pub open spec fn init_allowed(prev: InitState, next: InitState) -> bool {
    init_rank(next) == init_rank(prev) + 1
}

pub open spec fn relayed_allowed(prev: RelayedState, next: RelayedState) -> bool {
    prev == RelayedState::Initializing && next == RelayedState::Ready
}

/// A reverse connection starts with the intent of the other party, runs a handshake, and
/// finishes with a session only after the handshake is ready.
pub open spec fn reverse_allowed(prev: ReverseState, next: ReverseState) -> bool {
    match (prev, next) {
        (ReverseState::Awaiting, ReverseState::InProgress(s)) => s == InitState::ConnectIntent,
        (ReverseState::InProgress(a), ReverseState::InProgress(b)) => init_allowed(a, b),
        (ReverseState::InProgress(a), ReverseState::Finished(result)) => result is Ok ==> a
            == InitState::Ready,
        _ => false,
    }
}

/// Whether a connection attempt is under way.
pub open spec fn connecting(s: SessionState) -> bool {
    s is Outgoing || s is Incoming || s is ReverseConnection || s is Relayed || s
        is RestartConnect
}

/// Whether a handshake or a relayed connection has come to its end.
pub open spec fn ready(s: SessionState) -> bool {
    match s {
        SessionState::Outgoing(i) => i == InitState::Ready,
        SessionState::Incoming(i) => i == InitState::Ready,
        SessionState::Relayed(r) => r == RelayedState::Ready,
        SessionState::ReverseConnection(ReverseState::InProgress(i)) => i == InitState::Ready,
        SessionState::ReverseConnection(ReverseState::Finished(result)) => result is Ok,
        _ => false,
    }
}

/// Whether a new attempt to connect may start.
pub open spec fn idle(s: SessionState) -> bool {
    s is Closed || s is FailedEstablish
}

/// Whether the first way to connect can be given up for another one. That is so before a
/// handshake starts, and when an earlier way failed.
pub open spec fn open_to_other_ways(s: SessionState) -> bool {
    match s {
        SessionState::Outgoing(i) => i == InitState::ConnectIntent,
        SessionState::RestartConnect => true,
        _ => false,
    }
}

/// Whether a session can go from one state to the other.
pub open spec fn state_allowed(prev: SessionState, next: SessionState) -> bool {
    match next {
        SessionState::FailedEstablish(_) => connecting(prev),
        SessionState::Established(_) => ready(prev) || prev is Established,
        SessionState::Closing => prev is Established,
        SessionState::Closed => prev is Closing,
        SessionState::RestartConnect => prev is Outgoing || prev is ReverseConnection || prev
            is RestartConnect,
        SessionState::Outgoing(b) => match prev {
            SessionState::Outgoing(a) => init_allowed(a, b),
            _ => idle(prev) && b == InitState::ConnectIntent,
        },
        SessionState::Incoming(b) => match prev {
            SessionState::Incoming(a) => init_allowed(a, b),
            _ => idle(prev) && b == InitState::ConnectIntent,
        },
        SessionState::ReverseConnection(b) => match prev {
            SessionState::ReverseConnection(a) => reverse_allowed(a, b),
            _ => open_to_other_ways(prev) && b is Awaiting,
        },
        SessionState::Relayed(b) => match prev {
            SessionState::Relayed(a) => relayed_allowed(a, b),
            SessionState::ReverseConnection(a) => a == ReverseState::InProgress(
                InitState::ConnectIntent,
            ) && b == RelayedState::Initializing,
            _ => open_to_other_ways(prev) && b == RelayedState::Initializing,
        },
    }
}

/// State that a stage of an incoming handshake leads to. A handshake that answers a request for
/// a reverse connection belongs to that reverse connection.
pub open spec fn incoming_target(prev: SessionState, stage: InitState) -> SessionState {
    match prev {
        SessionState::ReverseConnection(ReverseState::Awaiting) => SessionState::ReverseConnection(
            ReverseState::InProgress(stage),
        ),
        SessionState::ReverseConnection(ReverseState::InProgress(_)) =>
            SessionState::ReverseConnection(ReverseState::InProgress(stage)),
        _ => SessionState::Incoming(stage),
    }
}

pub open spec fn init_text(s: InitState) -> Seq<char> {
    match s {
        InitState::ConnectIntent => "ConnectIntent"@,
        InitState::Initializing => "Initializing"@,
        InitState::ChallengeHandshake => "ChallengeHandshake"@,
        InitState::HandshakeResponse => "HandshakeResponse"@,
        InitState::ChallengeVerified => "ChallengeVerified"@,
        InitState::SessionRegistered => "SessionRegistered"@,
        InitState::Ready => "Ready"@,
    }
}

pub open spec fn relayed_text(s: RelayedState) -> Seq<char> {
    match s {
        RelayedState::Initializing => "Initializing"@,
        RelayedState::Ready => "Ready"@,
    }
}

pub open spec fn reverse_text(s: ReverseState) -> Seq<char> {
    match s {
        ReverseState::Awaiting => "Awaiting"@,
        ReverseState::InProgress(i) => init_text(i),
        ReverseState::Finished(_) => "Finished"@,
    }
}

pub open spec fn state_text(s: SessionState) -> Seq<char> {
    match s {
        SessionState::Outgoing(i) => "Outgoing-"@ + init_text(i),
        SessionState::Incoming(i) => "Incoming-"@ + init_text(i),
        SessionState::ReverseConnection(r) => "Reverse-"@ + reverse_text(r),
        SessionState::Relayed(r) => "Relayed-"@ + relayed_text(r),
        SessionState::RestartConnect => "RestartConnect"@,
        SessionState::Established(_) => "Established"@,
        SessionState::FailedEstablish(_) => "FailedEstablish"@,
        SessionState::Closing => "Closing"@,
        SessionState::Closed => "Closed"@,
    }
}

impl InitState {
    /// Whether the handshake can go on with the given stage.
    pub fn allowed(&self, new_state: &InitState) -> (r: bool)
        ensures
            r == init_allowed(*self, *new_state),
    {
        match (self, new_state) {
            (InitState::ConnectIntent, InitState::Initializing) => true,
            (InitState::Initializing, InitState::ChallengeHandshake) => true,
            (InitState::ChallengeHandshake, InitState::HandshakeResponse) => true,
            (InitState::HandshakeResponse, InitState::ChallengeVerified) => true,
            (InitState::ChallengeVerified, InitState::SessionRegistered) => true,
            (InitState::SessionRegistered, InitState::Ready) => true,
            _ => false,
        }
    }

    /// Name of the stage.
    pub fn to_text(&self) -> (r: &'static str)
        ensures
            r@ == init_text(*self),
    {
        match self {
            InitState::ConnectIntent => "ConnectIntent",
            InitState::Initializing => "Initializing",
            InitState::ChallengeHandshake => "ChallengeHandshake",
            InitState::HandshakeResponse => "HandshakeResponse",
            InitState::ChallengeVerified => "ChallengeVerified",
            InitState::SessionRegistered => "SessionRegistered",
            InitState::Ready => "Ready",
        }
    }
}

impl RelayedState {
    /// Whether the relayed connection can go on with the given stage.
    pub fn allowed(&self, new_state: &RelayedState) -> (r: bool)
        ensures
            r == relayed_allowed(*self, *new_state),
    {
        match (self, new_state) {
            (RelayedState::Initializing, RelayedState::Ready) => true,
            _ => false,
        }
    }

    /// Name of the stage.
    pub fn to_text(&self) -> (r: &'static str)
        ensures
            r@ == relayed_text(*self),
    {
        match self {
            RelayedState::Initializing => "Initializing",
            RelayedState::Ready => "Ready",
        }
    }
}

impl ReverseState {
    /// Whether the reverse connection can go on with the given stage.
    pub fn allowed(&self, new_state: &ReverseState) -> (r: bool)
        ensures
            r == reverse_allowed(*self, *new_state),
    {
        match (self, new_state) {
            (ReverseState::Awaiting, ReverseState::InProgress(InitState::ConnectIntent)) => true,
            (ReverseState::InProgress(prev), ReverseState::InProgress(next)) => prev.allowed(next),
            (ReverseState::InProgress(InitState::Ready), ReverseState::Finished(_)) => true,
            (ReverseState::InProgress(_), ReverseState::Finished(Err(_))) => true,
            _ => false,
        }
    }

    /// Name of the stage.
    pub fn to_text(&self) -> (r: &'static str)
        ensures
            r@ == reverse_text(*self),
    {
        match self {
            ReverseState::Awaiting => "Awaiting",
            ReverseState::InProgress(i) => i.to_text(),
            ReverseState::Finished(_) => "Finished",
        }
    }
}

impl SessionState {
    /// Whether the session can go on with the given state.
    pub fn allowed(&self, new_state: &SessionState) -> (r: bool)
        ensures
            r == state_allowed(*self, *new_state),
    {
        match (self, new_state) {
            // Initialization can fail in any state.
            (SessionState::Relayed(_), SessionState::FailedEstablish(_)) => true,
            (SessionState::Incoming(_), SessionState::FailedEstablish(_)) => true,
            (SessionState::Outgoing(_), SessionState::FailedEstablish(_)) => true,
            (SessionState::ReverseConnection(_), SessionState::FailedEstablish(_)) => true,
            (SessionState::RestartConnect, SessionState::FailedEstablish(_)) => true,
            // A session becomes established only after the handshake has come to its end.
            (SessionState::Incoming(InitState::Ready), SessionState::Established(_)) => true,
            (SessionState::Outgoing(InitState::Ready), SessionState::Established(_)) => true,
            (SessionState::Relayed(RelayedState::Ready), SessionState::Established(_)) => true,
            (
                SessionState::ReverseConnection(ReverseState::InProgress(InitState::Ready)),
                SessionState::Established(_),
            ) => true,
            (
                SessionState::ReverseConnection(ReverseState::Finished(Ok(_))),
                SessionState::Established(_),
            ) => true,
            // A way to connect failed, so the next one can be tried.
            (SessionState::Outgoing(_), SessionState::RestartConnect) => true,
            (SessionState::ReverseConnection(_), SessionState::RestartConnect) => true,
            (SessionState::RestartConnect, SessionState::RestartConnect) => true,
            // The other party is asked to connect, and its handshake is awaited.
            (
                SessionState::Outgoing(InitState::ConnectIntent),
                SessionState::ReverseConnection(ReverseState::Awaiting),
            ) => true,
            (
                SessionState::RestartConnect,
                SessionState::ReverseConnection(ReverseState::Awaiting),
            ) => true,
            (
                SessionState::Outgoing(InitState::ConnectIntent),
                SessionState::Relayed(RelayedState::Initializing),
            ) => true,
            (
                SessionState::RestartConnect,
                SessionState::Relayed(RelayedState::Initializing),
            ) => true,
            (
                SessionState::ReverseConnection(ReverseState::InProgress(InitState::ConnectIntent)),
                SessionState::Relayed(RelayedState::Initializing),
            ) => true,
            // A new session can start if it was closed, or if it could not be established before.
            (SessionState::Closed, SessionState::Outgoing(InitState::ConnectIntent)) => true,
            (SessionState::Closed, SessionState::Incoming(InitState::ConnectIntent)) => true,
            (
                SessionState::FailedEstablish(_),
                SessionState::Outgoing(InitState::ConnectIntent),
            ) => true,
            (
                SessionState::FailedEstablish(_),
                SessionState::Incoming(InitState::ConnectIntent),
            ) => true,
            (SessionState::Established(_), SessionState::Established(_)) => true,
            // Only an established session is closed. Otherwise the attempt fails.
            (SessionState::Established(_), SessionState::Closing) => true,
            (SessionState::Closing, SessionState::Closed) => true,
            (SessionState::Incoming(prev), SessionState::Incoming(next)) => prev.allowed(next),
            (SessionState::Outgoing(prev), SessionState::Outgoing(next)) => prev.allowed(next),
            (SessionState::Relayed(prev), SessionState::Relayed(next)) => prev.allowed(next),
            (SessionState::ReverseConnection(prev), SessionState::ReverseConnection(next)) =>
                prev.allowed(next),
            _ => false,
        }
    }

    /// Moves to the next stage of an incoming handshake. A handshake that answers a request
    /// for a reverse connection is counted towards that reverse connection.
    pub fn transition_incoming(&mut self, new_state: InitState) -> (r: Result<
        SessionState,
        TransitionError,
    >)
        ensures
            transition_outcome(
                *old(self),
                incoming_target(*old(self), new_state),
                *final(self),
                r,
            ),
    {
        let new_state = match self {
            SessionState::ReverseConnection(ReverseState::Awaiting)
            | SessionState::ReverseConnection(ReverseState::InProgress(_)) =>
                SessionState::ReverseConnection(ReverseState::InProgress(new_state)),
            _ => SessionState::Incoming(new_state),
        };
        self.transition(new_state)
    }

    /// Moves to the next stage of an outgoing handshake.
    pub fn transition_outgoing(&mut self, new_state: InitState) -> (r: Result<
        SessionState,
        TransitionError,
    >)
        ensures
            transition_outcome(
                *old(self),
                SessionState::Outgoing(new_state),
                *final(self),
                r,
            ),
    {
        self.transition(SessionState::Outgoing(new_state))
    }

    /// Moves to the given state where that is allowed, and leaves the state alone where not.
    pub fn transition(&mut self, new_state: SessionState) -> (r: Result<
        SessionState,
        TransitionError,
    >)
        ensures
            transition_outcome(*old(self), new_state, *final(self), r),
    {
        if !self.allowed(&new_state) {
            Err(TransitionError::InvalidTransition(self.clone(), new_state))
        } else {
            *self = new_state;
            Ok(self.clone())
        }
    }

    /// Whether no attempt to connect is under way.
    pub fn is_finished(&self) -> (r: bool)
        ensures
            r == (*self is Established || *self is Closed || *self is FailedEstablish),
    {
        match self {
            SessionState::Established(_) | SessionState::Closed | SessionState::FailedEstablish(
                _,
            ) => true,
            _ => false,
        }
    }

    /// Name of the state.
    pub fn to_text(&self) -> (r: String)
        ensures
            r@ == state_text(*self),
    {
        match self {
            SessionState::Outgoing(i) => prefixed("Outgoing-", i.to_text()),
            SessionState::Incoming(i) => prefixed("Incoming-", i.to_text()),
            SessionState::ReverseConnection(r) => prefixed("Reverse-", r.to_text()),
            SessionState::Relayed(r) => prefixed("Relayed-", r.to_text()),
            SessionState::RestartConnect => owned("RestartConnect"),
            SessionState::Established(_) => owned("Established"),
            SessionState::FailedEstablish(_) => owned("FailedEstablish"),
            SessionState::Closing => owned("Closing"),
            SessionState::Closed => owned("Closed"),
        }
    }
}

/// What an attempt to change a state leaves behind and returns.
pub open spec fn transition_outcome(
    before: SessionState,
    target: SessionState,
    after: SessionState,
    r: Result<SessionState, TransitionError>,
) -> bool {
    if state_allowed(before, target) {
        after == target && r == Ok::<SessionState, TransitionError>(target)
    } else {
        after == before && r == Err::<SessionState, TransitionError>(
            TransitionError::InvalidTransition(before, target),
        )
    }
}

/// An attempt to connect can start in two states only: when the session is closed, and when the
/// last attempt failed. Beside that, a request for a reverse connection lets the other party in.
/// So no two attempts to initialize a session run at the same time.
pub proof fn lemma_intent_only_from_idle(s: SessionState)
    ensures
        state_allowed(s, SessionState::Outgoing(InitState::ConnectIntent)) <==> idle(s),
        state_allowed(s, incoming_target(s, InitState::ConnectIntent)) <==> idle(s) || s
            == SessionState::ReverseConnection(ReverseState::Awaiting),
{
}

/// A session becomes established only out of a handshake or a relayed connection that has come
/// to its end, or as the replacement of an established one.
pub proof fn lemma_established_only_when_ready(s: SessionState, session: SessionHandle)
    ensures
        state_allowed(s, SessionState::Established(session)) <==> ready(s) || s is Established,
{
}

/// Every attempt to connect can end in failure, and nothing else can.
pub proof fn lemma_every_attempt_can_fail(s: SessionState, e: SessionError)
    ensures
        state_allowed(s, SessionState::FailedEstablish(e)) <==> connecting(s),
{
}

/// An established session is closed in two steps, and after them a new attempt can start.
pub proof fn lemma_closing_goes_through_closing(s: SessionState)
    ensures
        state_allowed(s, SessionState::Closed) <==> s is Closing,
        state_allowed(s, SessionState::Closing) <==> s is Established,
        idle(SessionState::Closed),
{
}

/// The seven stages of a handshake follow each other without a gap, in either direction.
pub proof fn lemma_handshake_runs_through(i: InitState)
    requires
        i != InitState::Ready,
    ensures
        exists|next: InitState|
            init_allowed(i, next) && state_allowed(
                SessionState::Outgoing(i),
                SessionState::Outgoing(next),
            ) && state_allowed(SessionState::Incoming(i), SessionState::Incoming(next)),
{
    let next = match i {
        InitState::ConnectIntent => InitState::Initializing,
        InitState::Initializing => InitState::ChallengeHandshake,
        InitState::ChallengeHandshake => InitState::HandshakeResponse,
        InitState::HandshakeResponse => InitState::ChallengeVerified,
        InitState::ChallengeVerified => InitState::SessionRegistered,
        _ => InitState::Ready,
    };
    assert(init_allowed(i, next));
}

/// A stage is never repeated or left out: each stage has at most one successor.
pub proof fn lemma_handshake_is_deterministic(i: InitState, a: InitState, b: InitState)
    requires
        init_allowed(i, a),
        init_allowed(i, b),
    ensures
        a == b,
        !init_allowed(a, i),
        a != i,
{
}

} // verus!
