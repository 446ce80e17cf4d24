//! Errors of the session, transport and protocol layers, with their texts.
use vstd::prelude::*;
use vstd::string::*;

use std::sync::Arc;

use crate::model::{NodeId, SessionId, SocketAddr};
use crate::session_state::SessionState;
#[allow(unused_imports)]
use crate::session_state::state_text;
use crate::tcp_registry::TcpState;
#[allow(unused_imports)]
use crate::tcp_registry::tcp_state_text;
#[allow(unused_imports)]
use crate::text::{hex_list, push_hex_list};

verus! {

pub type SessionResult<T> = Result<T, SessionError>;

/// Why a session could not be used or established.
#[derive(Debug, PartialEq)]
pub enum SessionError {
    Internal(String),
    Protocol(ProtocolError),
    BadResponse(String),
    BadRequest(String),
    Network(String),
    Timeout(String),
    Aborted(String),
    NotFound(String),
    Relay(String),
    Unexpected(String),
    ProgrammingError(String),
    /// Not an error itself, but it prevents an operation from completing.
    NotApplicable(String),
    Generic(String),
}

/// The other node failed to stick to the protocol.
#[derive(Debug, PartialEq)]
pub enum ProtocolError {
    InvalidResponse(String),
    InvalidChallenge(String),
    RecoverId(String),
    /// Either the other party is at fault, or the session was closed on this side
    /// and the other party still thinks that it exists.
    SessionNotFound(SessionId),
    InvalidSessionId(Arc<Vec<u8>>, String),
}

/// A session state could not be changed.
#[derive(Debug, PartialEq)]
pub enum TransitionError {
    InvalidTransition(SessionState, SessionState),
    NodeNotFound(NodeId),
}

/// An attempt to initialize a session failed.
#[derive(Debug, PartialEq)]
pub enum SessionInitError {
    P2P(NodeId, SessionError),
    Relay(SocketAddr, SessionError),
}

/// A protocol packet could not be sent or answered.
#[derive(Debug, PartialEq)]
pub enum RequestError {
    Generic(String),
}

/// A payload could not be encrypted or decrypted.
#[derive(Debug, PartialEq)]
pub enum EncryptionError {
    Generic(String),
}

/// A virtual tcp connection could not be used or established.
#[derive(Debug, PartialEq)]
pub enum TcpError {
    Generic(String),
    ProgrammingError(String),
    Closed,
}

/// The state of a virtual tcp channel could not be changed.
#[derive(Debug, PartialEq)]
pub enum TcpTransitionError {
    InvalidTransition(TcpState, TcpState),
    ProgrammingError,
}

impl Clone for SessionError {
    fn clone(&self) -> (r: Self)
        ensures
            r == *self,
    {
        match self {
            SessionError::Internal(m) => SessionError::Internal(m.clone()),
            SessionError::Protocol(e) => SessionError::Protocol(e.clone()),
            SessionError::BadResponse(m) => SessionError::BadResponse(m.clone()),
            SessionError::BadRequest(m) => SessionError::BadRequest(m.clone()),
            SessionError::Network(m) => SessionError::Network(m.clone()),
            SessionError::Timeout(m) => SessionError::Timeout(m.clone()),
            SessionError::Aborted(m) => SessionError::Aborted(m.clone()),
            SessionError::NotFound(m) => SessionError::NotFound(m.clone()),
            SessionError::Relay(m) => SessionError::Relay(m.clone()),
            SessionError::Unexpected(m) => SessionError::Unexpected(m.clone()),
            SessionError::ProgrammingError(m) => SessionError::ProgrammingError(m.clone()),
            SessionError::NotApplicable(m) => SessionError::NotApplicable(m.clone()),
            SessionError::Generic(m) => SessionError::Generic(m.clone()),
        }
    }
}

impl Clone for ProtocolError {
    fn clone(&self) -> (r: Self)
        ensures
            r == *self,
    {
        match self {
            ProtocolError::InvalidResponse(m) => ProtocolError::InvalidResponse(m.clone()),
            ProtocolError::InvalidChallenge(m) => ProtocolError::InvalidChallenge(m.clone()),
            ProtocolError::RecoverId(m) => ProtocolError::RecoverId(m.clone()),
            ProtocolError::SessionNotFound(id) => ProtocolError::SessionNotFound(*id),
            ProtocolError::InvalidSessionId(id, m) => ProtocolError::InvalidSessionId(
                id.clone(),
                m.clone(),
            ),
        }
    }
}

impl Clone for TcpError {
    fn clone(&self) -> (r: Self)
        ensures
            r == *self,
    {
        match self {
            TcpError::Generic(m) => TcpError::Generic(m.clone()),
            TcpError::ProgrammingError(m) => TcpError::ProgrammingError(m.clone()),
            TcpError::Closed => TcpError::Closed,
        }
    }
}

/// A prefix followed by a text.
pub fn prefixed(prefix: &str, m: &str) -> (r: String)
    ensures
        r@ == prefix@ + m@,
{
    let mut r = String::new();
    r.append(prefix);
    r.append(m);
    assert(r@ =~= prefix@ + m@);
    r
}

/// An owned copy of a text.
pub fn owned(m: &str) -> (r: String)
    ensures
        r@ == m@,
{
    m.to_owned()
}

impl ProtocolError {
    pub open spec fn text(self) -> Seq<char> {
        match self {
            ProtocolError::InvalidResponse(m) => "Protocol invalid response: "@ + m@,
            ProtocolError::InvalidChallenge(m) => "Invalid challenge: "@ + m@,
            ProtocolError::RecoverId(m) => "Failed to recover NodeId from request: "@ + m@,
            ProtocolError::SessionNotFound(id) => "Unknown SessionId: "@ + id.text(),
            ProtocolError::InvalidSessionId(id, m) => "Request with invalid SessionId "@
                + hex_list((*id)@) + ". Error: "@ + m@,
        }
    }

    /// The error as text.
    pub fn to_text(&self) -> (r: String)
        ensures
            r@ == self.text(),
    {
        match self {
            ProtocolError::InvalidResponse(m) => prefixed(
                "Protocol invalid response: ",
                m.as_str(),
            ),
            ProtocolError::InvalidChallenge(m) => prefixed("Invalid challenge: ", m.as_str()),
            ProtocolError::RecoverId(m) => prefixed(
                "Failed to recover NodeId from request: ",
                m.as_str(),
            ),
            ProtocolError::SessionNotFound(id) => {
                let mut r = owned("Unknown SessionId: ");
                id.push_text(&mut r);
                r
            },
            ProtocolError::InvalidSessionId(id, m) => {
                let mut r = owned("Request with invalid SessionId ");
                push_hex_list(&mut r, &**id);
                r.append(". Error: ");
                r.append(m.as_str());
                assert(r@ =~= self.text());
                r
            },
        }
    }
}

impl SessionError {
    pub open spec fn text(self) -> Seq<char> {
        match self {
            SessionError::Internal(m) => "Internal error: "@ + m@,
            SessionError::Protocol(e) => "Protocol error: "@ + e.text(),
            SessionError::BadResponse(m) => "Bad Response error: "@ + m@,
            SessionError::BadRequest(m) => "Bad Request: "@ + m@,
            SessionError::Network(m) => "Network error: "@ + m@,
            SessionError::Timeout(m) => "Timeout: "@ + m@,
            SessionError::Aborted(m) => "Aborted: "@ + m@,
            SessionError::NotFound(m) => "Not Found: "@ + m@,
            SessionError::Relay(m) => "Relay error: "@ + m@,
            SessionError::Unexpected(m) => "Unexpected error: "@ + m@,
            SessionError::ProgrammingError(m) => "Programming error: "@ + m@,
            SessionError::NotApplicable(m) => m@,
            SessionError::Generic(m) => m@,
        }
    }

    /// The error as text.
    pub fn to_text(&self) -> (r: String)
        ensures
            r@ == self.text(),
    {
        match self {
            SessionError::Internal(m) => prefixed("Internal error: ", m.as_str()),
            SessionError::Protocol(e) => {
                let inner = e.to_text();
                prefixed("Protocol error: ", inner.as_str())
            },
            SessionError::BadResponse(m) => prefixed("Bad Response error: ", m.as_str()),
            SessionError::BadRequest(m) => prefixed("Bad Request: ", m.as_str()),
            SessionError::Network(m) => prefixed("Network error: ", m.as_str()),
            SessionError::Timeout(m) => prefixed("Timeout: ", m.as_str()),
            SessionError::Aborted(m) => prefixed("Aborted: ", m.as_str()),
            SessionError::NotFound(m) => prefixed("Not Found: ", m.as_str()),
            SessionError::Relay(m) => prefixed("Relay error: ", m.as_str()),
            SessionError::Unexpected(m) => prefixed("Unexpected error: ", m.as_str()),
            SessionError::ProgrammingError(m) => prefixed("Programming error: ", m.as_str()),
            SessionError::NotApplicable(m) => m.clone(),
            SessionError::Generic(m) => m.clone(),
        }
    }

    /// The error that a protocol violation shows as.
    pub fn from_protocol(e: ProtocolError) -> (r: SessionError)
        ensures
            r == SessionError::Protocol(e),
    {
        SessionError::Protocol(e)
    }

    /// The error that a refused state change shows as.
    pub fn from_transition(e: &TransitionError) -> (r: SessionError)
        ensures
            r matches SessionError::Internal(m) && m@ == e.text(),
    {
        SessionError::Internal(e.to_text())
    }

    /// The error that a failed request shows as.
    pub fn from_request(e: &RequestError) -> (r: SessionError)
        ensures
            r matches SessionError::Network(m) && m@ == e.text(),
    {
        SessionError::Network(e.to_text())
    }

    /// The error inside a failed initialization.
    pub fn from_init(e: SessionInitError) -> (r: SessionError)
        ensures
            r == e.inner(),
    {
        match e {
            SessionInitError::P2P(_, e) => e,
            SessionInitError::Relay(_, e) => e,
        }
    }
}

impl TransitionError {
    pub open spec fn text(self) -> Seq<char> {
        match self {
            TransitionError::InvalidTransition(from, to) => "State transition not allowed from: "@
                + state_text(from) + " to "@ + state_text(to),
            TransitionError::NodeNotFound(id) => "Can't change state: Node "@ + id.text()
                + " not found"@,
        }
    }

    /// The error as text.
    pub fn to_text(&self) -> (r: String)
        ensures
            r@ == self.text(),
    {
        match self {
            TransitionError::InvalidTransition(from, to) => {
                let mut r = owned("State transition not allowed from: ");
                let a = from.to_text();
                r.append(a.as_str());
                r.append(" to ");
                let b = to.to_text();
                r.append(b.as_str());
                assert(r@ =~= self.text());
                r
            },
            TransitionError::NodeNotFound(id) => {
                let mut r = owned("Can't change state: Node ");
                id.push_text(&mut r);
                r.append(" not found");
                assert(r@ =~= self.text());
                r
            },
        }
    }
}

impl SessionInitError {
    /// What made the initialization fail.
    pub open spec fn inner(self) -> SessionError {
        match self {
            SessionInitError::P2P(_, e) => e,
            SessionInitError::Relay(_, e) => e,
        }
    }

    pub open spec fn text(self) -> Seq<char> {
        match self {
            SessionInitError::P2P(id, e) => "Failed to init p2p session with "@ + id.text() + ": "@
                + e.text(),
            SessionInitError::Relay(addr, e) => "Failed to init relay server ("@ + addr.text()
                + ") session: "@ + e.text(),
        }
    }

    /// The error as text.
    pub fn to_text(&self) -> (r: String)
        ensures
            r@ == self.text(),
    {
        match self {
            SessionInitError::P2P(id, e) => {
                let mut r = owned("Failed to init p2p session with ");
                id.push_text(&mut r);
                r.append(": ");
                let inner = e.to_text();
                r.append(inner.as_str());
                assert(r@ =~= self.text());
                r
            },
            SessionInitError::Relay(addr, e) => {
                let mut r = owned("Failed to init relay server (");
                addr.push_text(&mut r);
                r.append(") session: ");
                let inner = e.to_text();
                r.append(inner.as_str());
                assert(r@ =~= self.text());
                r
            },
        }
    }
}

impl RequestError {
    pub open spec fn text(self) -> Seq<char> {
        match self {
            RequestError::Generic(m) => "Request failed: "@ + m@,
        }
    }

    /// The error as text.
    pub fn to_text(&self) -> (r: String)
        ensures
            r@ == self.text(),
    {
        match self {
            RequestError::Generic(m) => prefixed("Request failed: ", m.as_str()),
        }
    }
}

impl EncryptionError {
    pub open spec fn text(self) -> Seq<char> {
        match self {
            EncryptionError::Generic(m) => m@,
        }
    }

    /// The error as text.
    pub fn to_text(&self) -> (r: String)
        ensures
            r@ == self.text(),
    {
        match self {
            EncryptionError::Generic(m) => m.clone(),
        }
    }
}

impl TcpError {
    pub open spec fn text(self) -> Seq<char> {
        match self {
            TcpError::Generic(m) => m@,
            TcpError::ProgrammingError(m) => "Programming error: "@ + m@,
            TcpError::Closed => "Connection closed"@,
        }
    }

    /// The error as text.
    pub fn to_text(&self) -> (r: String)
        ensures
            r@ == self.text(),
    {
        match self {
            TcpError::Generic(m) => m.clone(),
            TcpError::ProgrammingError(m) => prefixed("Programming error: ", m.as_str()),
            TcpError::Closed => owned("Connection closed"),
        }
    }
}

impl TcpTransitionError {
    pub open spec fn text(self) -> Seq<char> {
        match self {
            TcpTransitionError::InvalidTransition(from, to) =>
                "State transition not allowed from: "@ + tcp_state_text(from) + " to "@
                + tcp_state_text(to),
            TcpTransitionError::ProgrammingError => "Channel not found"@,
        }
    }

    /// The error as text.
    pub fn to_text(&self) -> (r: String)
        ensures
            r@ == self.text(),
    {
        match self {
            TcpTransitionError::InvalidTransition(from, to) => {
                let mut r = owned("State transition not allowed from: ");
                let a = from.to_text();
                r.append(a.as_str());
                r.append(" to ");
                let b = to.to_text();
                r.append(b.as_str());
                assert(r@ =~= self.text());
                r
            },
            TcpTransitionError::ProgrammingError => owned("Channel not found"),
        }
    }
}

/// Looking at the error of a result on its way.
pub trait ResultExt<T, E>: Sized {
    spec fn outcome(self) -> Result<T, E>;

    /// Hands the error, if there is one, to the observer, and gives the result back unchanged.
    fn on_err<O: FnOnce(&E)>(self, op: O) -> (r: Result<T, E>)
        requires
            self.outcome() matches Err(e) ==> call_requires(op, (&e,)),
        ensures
            r == self.outcome(),
            self.outcome() matches Err(e) ==> call_ensures(op, (&e,), ()),
    ;
}

impl<T, E> ResultExt<T, E> for Result<T, E> {
    open spec fn outcome(self) -> Result<T, E> {
        self
    }

    fn on_err<O: FnOnce(&E)>(self, op: O) -> (r: Result<T, E>) {
        match self {
            Ok(t) => Ok(t),
            Err(e) => {
                op(&e);
                Err(e)
            },
        }
    }
}

} // verus!
