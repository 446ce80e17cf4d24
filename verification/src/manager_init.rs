//! How a node that knows of one relay server initializes sessions.
use vstd::prelude::*;
use vstd::string::*;

use crate::direct_session::RawSession;
use crate::error::{owned, prefixed};
#[allow(unused_imports)]
use crate::model::ids_of;
use crate::model::{
    identity_ids, list_contains, same_bytes, Identity, NodeId, SessionId, SocketAddr,
    INVALID_SESSION_ID,
};
use crate::session_guard::ConnectError;
#[allow(unused_imports)]
use crate::session_guard::GuardModel;
use crate::session_initializer::{
    introduction, known_identities, ChallengeRequest, SessionRequest,
};
#[allow(unused_imports)]
use crate::session_initializer::{all_known, first_missing, introduces};
use crate::session_manager::SessionManager;
#[allow(unused_imports)]
use crate::session_manager::ManagerModel;
#[allow(unused_imports)]
use crate::text::{decimal_list, push_decimal_list};

verus! {

/// Where the initialization of a session stands.
#[derive(Clone, Copy, Debug, PartialEq, Eq, Structural)]
pub enum InitStep {
    Start,
    /// The first request was sent.
    AwaitingSession,
    /// The challenge of the other party is being solved.
    Solving(SessionId),
    /// The solution was sent.
    AwaitingReply(SessionId),
    /// The other party is told that it can send data.
    Resuming(RawSession),
    Done,
}

/// What the initialization of a session hears of.
pub enum InitEvent {
    /// The request is prepared, or could not be. A fresh id is there for a temporary session.
    Begin { fresh: SessionId, prepared: Result<(), ConnectError> },
    /// The other party answered with an id, perhaps with a challenge.
    SessionReceived(Result<(Vec<u8>, bool), String>),
    /// The challenge was solved.
    Solved(Result<(), String>),
    /// The other party answered with an id. Its identities were recovered from its answer to the
    /// challenge, or could not be.
    ReplyReceived {
        reply: Result<Vec<u8>, String>,
        recovered: Result<(NodeId, Vec<Identity>), String>,
    },
    /// The other party was told that it can send data.
    Resumed(Result<(), String>),
}

/// What the initialization of a session does next.
pub enum InitAction {
    /// The first request is sent over the temporary session, and the answer is waited for for a
    /// time, which is in milliseconds.
    SendSession { session: RawSession, timeout: u64 },
    Solve,
    /// The solution is sent over the temporary session, and the answer is waited for for a time,
    /// which is in milliseconds.
    SendSolution { id: SessionId, timeout: u64 },
    Resume(RawSession),
    /// There is a session. A ping measures how fast it is.
    Finish(RawSession),
    /// There is none. The other party may have to be told.
    Fail { error: ConnectError, disconnect: bool },
    /// The event does not belong to the initialization.
    Ignore,
}

/// The initialization of a session with an address.
pub struct Initialization {
    pub addr: SocketAddr,
    /// Whether the other party has to prove its identity. The relay server does not.
    pub challenge: bool,
    /// The node that has to be behind the address.
    pub node_id: Option<NodeId>,
    pub step: InitStep,
}

/// The initialization failed for a reason after which another way can be tried.
pub open spec fn retried(action: InitAction, text: Seq<char>) -> bool {
    action matches InitAction::Fail { error: ConnectError::Retry(e), disconnect } && e@ == text
        && !disconnect
}

/// The initialization failed for good, and the other party is told.
pub open spec fn dropped(action: InitAction, text: Seq<char>) -> bool {
    action matches InitAction::Fail { error: ConnectError::Drop(e), disconnect } && e@ == text
        && disconnect
}

/// Why the node behind an address is not the expected one.
pub open spec fn wrong_node(expected: Option<NodeId>, id: NodeId, identities: Seq<Identity>) -> bool {
    expected matches Some(node) && id != node && !ids_of(identities).contains(node)
}

/// What becomes of an initialization once it is known who the other party is.
pub open spec fn identified(
    h: Initialization,
    m: ManagerModel,
    id: SessionId,
    remote_id: NodeId,
    identities: Seq<Identity>,
    after: Initialization,
    m_after: ManagerModel,
    action: InitAction,
) -> bool {
    if wrong_node(h.node_id, remote_id, identities) {
        &&& m_after == m
        &&& after == (Initialization { step: InitStep::Done, ..h })
        &&& dropped(
            action,
            "remote node id mismatch: "@ + h.node_id.unwrap().text() + " vs "@ + remote_id.text()
                + " (response)"@,
        )
    } else if !m.sink {
        &&& m_after == m
        &&& after == (Initialization { step: InitStep::Done, ..h })
        &&& retried(action, "Network sink not initialized"@)
    } else {
        let session = RawSession { id, remote: h.addr };
        &&& m_after == m.with_session(session, remote_id, identities)
        &&& after == (Initialization { step: InitStep::Resuming(session), ..h })
        &&& action == InitAction::Resume(session)
    }
}

/// What a reply to the solution does to an initialization.
pub open spec fn reply_received(
    h: Initialization,
    m: ManagerModel,
    id: SessionId,
    bytes: Seq<u8>,
    recovered: Result<(NodeId, Vec<Identity>), String>,
    after: Initialization,
    m_after: ManagerModel,
    action: InitAction,
) -> bool {
    if id.bytes() != bytes {
        &&& m_after == m
        &&& after == (Initialization { step: InitStep::Done, ..h })
        &&& dropped(
            action,
            "["@ + m.config.node_id.text() + "] init session id mismatch: "@ + id.text() + " vs "@
                + decimal_list(bytes) + " (response)"@,
        )
    } else if !h.challenge {
        identified(h, m, id, NodeId::zero(), Seq::empty(), after, m_after, action)
    } else {
        match recovered {
            Err(e) => {
                &&& m_after == m
                &&& after == (Initialization { step: InitStep::Done, ..h })
                &&& dropped(action, e@ + " while initializing session with "@ + h.addr.text())
            },
            Ok(found) => identified(h, m, id, found.0, found.1@, after, m_after, action),
        }
    }
}

/// The lock whose waiters are told that the first message came. The relay server goes by the id
/// of all zeros.
pub open spec fn first_message_lock(m: ManagerModel, node_id: Option<NodeId>) -> Option<u64> {
    let id = match node_id {
        Some(id) => id,
        None => NodeId::zero(),
    };
    if m.guarded.targets.contains_key(id) {
        Some(m.guarded.targets[id].lock)
    } else {
        None
    }
}

/// What an event does to the initialization of a session.
pub open spec fn init_stepped(
    h: Initialization,
    m: ManagerModel,
    event: InitEvent,
    after: Initialization,
    m_after: ManagerModel,
    r: (InitAction, Option<u64>),
) -> bool {
    let done = Initialization { step: InitStep::Done, ..h };
    match (h.step, event) {
        (InitStep::Start, InitEvent::Begin { fresh, prepared }) => r.1 is None && if !m.sink {
            m_after == m && after == done && retried(r.0, "Network sink not initialized"@)
        } else {
            let tmp = if m.guarded.tmp.contains_key(h.addr) {
                m.guarded.tmp[h.addr]
            } else {
                RawSession { id: fresh, remote: h.addr }
            };
            &&& m_after == (ManagerModel {
                guarded: GuardModel { tmp: m.guarded.tmp.insert(h.addr, tmp), ..m.guarded },
                ..m
            })
            &&& match prepared {
                Err(error) => after == done && r.0 == (InitAction::Fail {
                    error,
                    disconnect: false,
                }),
                Ok(_) => after == (Initialization { step: InitStep::AwaitingSession, ..h }) && r.0
                    == (InitAction::SendSession {
                    session: tmp,
                    timeout: m.config.session_request_timeout,
                }),
            }
        },
        (InitStep::AwaitingSession, InitEvent::SessionReceived(response)) => m_after == m
            && match response {
            Err(e) => r.1 is None && after == done && retried(r.0, e@),
            Ok(found) => r.1 == first_message_lock(m, h.node_id) && if found.0@.len() != 16 {
                after == done && retried(r.0, INVALID_SESSION_ID@)
            } else if !found.1 {
                after == done && retried(
                    r.0,
                    "Expected ChallengeRequest while initializing session with "@ + h.addr.text(),
                )
            } else {
                &&& r.0 == InitAction::Solve
                &&& after.step matches InitStep::Solving(id) && id.bytes() == found.0@ && after
                    == (Initialization { step: InitStep::Solving(id), ..h })
            },
        },
        (InitStep::Solving(id), InitEvent::Solved(result)) => m_after == m && r.1 is None
            && match result {
            Err(e) => after == done && retried(r.0, e@),
            Ok(_) => after == (Initialization { step: InitStep::AwaitingReply(id), ..h }) && r.0
                == (InitAction::SendSolution { id, timeout: m.config.challenge_request_timeout }),
        },
        (InitStep::AwaitingReply(id), InitEvent::ReplyReceived { reply, recovered }) => r.1 is None
            && match reply {
            Err(e) => m_after == m && after == done && retried(r.0, e@),
            Ok(bytes) => reply_received(h, m, id, bytes@, recovered, after, m_after, r.0),
        },
        (InitStep::Resuming(session), InitEvent::Resumed(result)) => m_after == m && r.1 is None
            && after == done && match result {
            Err(e) => retried(r.0, e@),
            Ok(_) => r.0 == InitAction::Finish(session),
        },
        _ => m_after == m && after == h && r == (InitAction::Ignore, None::<u64>),
    }
}

/// The first request of an initialization, given what listing the identities of this node and
/// asking for the public key of each gave. Without the list, communication ceases; without one of
/// the keys, another way may be tried.
pub fn prepare_challenge_request(
    keys: Result<Vec<Result<Identity, String>>, String>,
    challenge_req: ChallengeRequest,
    challenge: bool,
) -> (r: Result<SessionRequest, ConnectError>)
    ensures
        match keys {
            Err(e) => r matches Err(ConnectError::Drop(text)) && text@
                == "Failed to query identities: "@ + e@,
            Ok(keys) => match r {
                Ok(request) => {
                    &&& all_known(keys@, request.identities@)
                    &&& introduces(request, request.identities@, challenge_req, challenge)
                },
                Err(error) => error matches ConnectError::Retry(text) && first_missing(
                    keys@,
                    text@,
                ),
            },
        },
{
    match keys {
        Err(e) => Err(ConnectError::Drop(prefixed("Failed to query identities: ", e.as_str()))),
        Ok(keys) => match known_identities(&keys) {
            Ok(known) => Ok(introduction(known, challenge_req, challenge)),
            Err(e) => Err(ConnectError::Retry(e)),
        },
    }
}

impl Initialization {
    /// The initialization of a session with an address, before its first step.
    pub fn new(addr: SocketAddr, challenge: bool, node_id: Option<NodeId>) -> (r: Initialization)
        ensures
            r == (Initialization { addr, challenge, node_id, step: InitStep::Start }),
    {
        Initialization { addr, challenge, node_id, step: InitStep::Start }
    }

    fn retry(&mut self, text: String) -> (r: InitAction)
        ensures
            *final(self) == (Initialization { step: InitStep::Done, ..*old(self) }),
            retried(r, text@),
    {
        self.step = InitStep::Done;
        InitAction::Fail { error: ConnectError::Retry(text), disconnect: false }
    }

    fn give_up(&mut self, text: String) -> (r: InitAction)
        ensures
            *final(self) == (Initialization { step: InitStep::Done, ..*old(self) }),
            dropped(r, text@),
    {
        self.step = InitStep::Done;
        InitAction::Fail { error: ConnectError::Drop(text), disconnect: true }
    }

    fn identify(
        &mut self,
        manager: &mut SessionManager,
        id: SessionId,
        remote_id: NodeId,
        identities: &Vec<Identity>,
    ) -> (r: InitAction)
        requires
            old(manager)@.wf(),
        ensures
            final(manager)@.wf(),
            identified(
                *old(self),
                old(manager)@,
                id,
                remote_id,
                identities@,
                *final(self),
                final(manager)@,
                r,
            ),
    {
        match self.node_id {
            Some(expected) => {
                let ids = identity_ids(identities);
                if remote_id != expected && !list_contains(&ids, &expected) {
                    let mut text = owned("remote node id mismatch: ");
                    expected.push_text(&mut text);
                    text.append(" vs ");
                    remote_id.push_text(&mut text);
                    text.append(" (response)");
                    assert(text@ =~= "remote node id mismatch: "@ + expected.text() + " vs "@
                        + remote_id.text() + " (response)"@);
                    return self.give_up(text);
                }
            },
            None => {},
        }
        match manager.add_session(self.addr, id, remote_id, identities) {
            Ok(session) => {
                self.step = InitStep::Resuming(session);
                InitAction::Resume(session)
            },
            Err(e) => self.retry(e),
        }
    }

    fn reply(
        &mut self,
        manager: &mut SessionManager,
        id: SessionId,
        bytes: &Vec<u8>,
        recovered: Result<(NodeId, Vec<Identity>), String>,
    ) -> (r: InitAction)
        requires
            old(manager)@.wf(),
        ensures
            final(manager)@.wf(),
            reply_received(
                *old(self),
                old(manager)@,
                id,
                bytes@,
                recovered,
                *final(self),
                final(manager)@,
                r,
            ),
    {
        let expected = id.to_bytes();
        if !same_bytes(&expected, bytes) {
            let mut text = owned("[");
            manager.config.node_id.push_text(&mut text);
            text.append("] init session id mismatch: ");
            id.push_text(&mut text);
            text.append(" vs ");
            push_decimal_list(&mut text, bytes);
            text.append(" (response)");
            assert(text@ =~= "["@ + manager.config.node_id.text() + "] init session id mismatch: "@
                + id.text() + " vs "@ + decimal_list(bytes@) + " (response)"@);
            return self.give_up(text);
        }
        if !self.challenge {
            let nobody: Vec<Identity> = Vec::new();
            assert(nobody@ =~= Seq::empty());
            return self.identify(manager, id, NodeId::default(), &nobody);
        }
        match recovered {
            Err(e) => {
                let mut text = e;
                text.append(" while initializing session with ");
                self.addr.push_text(&mut text);
                assert(text@ =~= e@ + " while initializing session with "@ + self.addr.text());
                self.give_up(text)
            },
            Ok(found) => self.identify(manager, id, found.0, &found.1),
        }
    }

    /// Goes on with what happened outside, and says what has to be done next. Whoever waits for
    /// the lock that is returned has to be told that the first message came.
    pub fn init_session(&mut self, manager: &mut SessionManager, event: InitEvent) -> (r: (
        InitAction,
        Option<u64>,
    ))
        requires
            old(manager)@.wf(),
        ensures
            final(manager)@.wf(),
            init_stepped(*old(self), old(manager)@, event, *final(self), final(manager)@, r),
    {
        match (self.step, event) {
            (InitStep::Start, InitEvent::Begin { fresh, prepared }) => {
                let tmp = match manager.temporary_session(self.addr, fresh) {
                    Ok(tmp) => tmp,
                    Err(e) => {
                        return (self.retry(e), None);
                    },
                };
                match prepared {
                    Err(error) => {
                        self.step = InitStep::Done;
                        (InitAction::Fail { error, disconnect: false }, None)
                    },
                    Ok(_) => {
                        self.step = InitStep::AwaitingSession;
                        (InitAction::SendSession {
                            session: tmp,
                            timeout: manager.config.session_request_timeout,
                        }, None)
                    },
                }
            },
            (InitStep::AwaitingSession, InitEvent::SessionReceived(response)) => match response {
                Err(e) => (self.retry(e), None),
                Ok(found) => {
                    let waited_for = match self.node_id {
                        Some(id) => id,
                        None => NodeId::default(),
                    };
                    let notify = manager.guarded.notify_first_message(waited_for);
                    match SessionId::try_from_bytes(&found.0) {
                        None => (self.retry(owned(INVALID_SESSION_ID)), notify),
                        Some(id) => {
                            if !found.1 {
                                let mut text = owned(
                                    "Expected ChallengeRequest while initializing session with ",
                                );
                                self.addr.push_text(&mut text);
                                return (self.retry(text), notify);
                            }
                            self.step = InitStep::Solving(id);
                            (InitAction::Solve, notify)
                        },
                    }
                },
            },
            (InitStep::Solving(id), InitEvent::Solved(result)) => match result {
                Err(e) => (self.retry(e), None),
                Ok(_) => {
                    self.step = InitStep::AwaitingReply(id);
                    (InitAction::SendSolution {
                        id,
                        timeout: manager.config.challenge_request_timeout,
                    }, None)
                },
            },
            (InitStep::AwaitingReply(id), InitEvent::ReplyReceived { reply, recovered }) => {
                match reply {
                    Err(e) => (self.retry(e), None),
                    Ok(bytes) => (self.reply(manager, id, &bytes, recovered), None),
                }
            },
            (InitStep::Resuming(session), InitEvent::Resumed(result)) => match result {
                Err(e) => (self.retry(e), None),
                Ok(_) => {
                    self.step = InitStep::Done;
                    (InitAction::Finish(session), None)
                },
            },
            _ => (InitAction::Ignore, None),
        }
    }
}

impl SessionManager {
    /// Takes in the outcome of an attempt to initialize a direct session with a node.
    pub fn init_p2p_session(
        &mut self,
        addr: SocketAddr,
        node_id: NodeId,
        result: Result<RawSession, ConnectError>,
    ) -> (r: Result<RawSession, ConnectError>)
        requires
            old(self)@.wf(),
        ensures
            final(self)@.wf(),
            r == result,
            final(self)@ == match result {
                Ok(session) => old(self)@.with_p2p(node_id, session, addr),
                Err(_) => old(self)@,
            },
    {
        match result {
            Ok(session) => {
                self.nodes_addr.insert(addr, node_id);
                self.p2p_sessions.insert(node_id, session);
                Ok(session)
            },
            Err(e) => Err(e),
        }
    }

    /// Takes in the outcome of an attempt to initialize a session with the relay server.
    pub fn init_server_session(
        &mut self,
        addr: SocketAddr,
        result: Result<RawSession, ConnectError>,
    ) -> (r: Result<RawSession, ConnectError>)
        requires
            old(self)@.wf(),
        ensures
            final(self)@.wf(),
            match result {
                Ok(session) => r == Ok::<RawSession, ConnectError>(session) && final(self)@ == (
                ManagerModel { sessions: old(self)@.sessions.insert(addr, session), ..old(self)@ }),
                Err(e) => (r matches Err(ConnectError::Retry(text)) && text@
                    == "Failed to init relay server session: "@ + e.text()) && final(self)@ == old(
                    self)@,
            },
    {
        match result {
            Ok(session) => {
                self.sessions.insert(addr, session);
                Ok(session)
            },
            Err(e) => {
                let text = e.to_text();
                Err(
                    ConnectError::Retry(
                        prefixed("Failed to init relay server session: ", text.as_str()),
                    ),
                )
            },
        }
    }
}

/// A session comes out of an initialization only after it was stored under its address, and the
/// other party is the expected node.
pub proof fn lemma_session_needs_expected_node(
    h: Initialization,
    m: ManagerModel,
    id: SessionId,
    remote_id: NodeId,
    identities: Seq<Identity>,
    after: Initialization,
    m_after: ManagerModel,
    action: InitAction,
)
    requires
        identified(h, m, id, remote_id, identities, after, m_after, action),
        action is Resume,
    ensures
        m_after.session(h.addr) is Some,
        h.node_id matches Some(node) ==> remote_id == node || ids_of(identities).contains(node),
{
}

} // verus!
