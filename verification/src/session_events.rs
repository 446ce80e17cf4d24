//! What packets of other nodes do to sessions.
use std::sync::Arc;

use vstd::prelude::*;
use vstd::string::*;

use crate::connect::about;
use crate::encryption::Encryption;
use crate::error::{owned, ProtocolError, SessionError};
use crate::metrics::{count_incoming, CounterUpdate};
#[allow(unused_imports)]
use crate::metrics::{incoming_num_name, incoming_size_name};
use crate::model::{
    NodeId, RequestId, SessionHandle, SessionId, SlotId, SocketAddr, TransportType,
    FORWARD_SLOT_ID, INVALID_NODE_ID, INVALID_SESSION_ID,
};
#[allow(unused_imports)]
use crate::model::{NODE_ID_LEN, SESSION_ID_LEN};
use crate::network_view::{NodeAwaiting, SessionLock, SessionPermit};
#[allow(unused_imports)]
use crate::network_view::locked;
use crate::requests::ReqFingerprint;
#[allow(unused_imports)]
use crate::routing_session::{routed, RoutingModel};
#[allow(unused_imports)]
use crate::requests::{recorded, FingerprintModel};
use crate::session_control::{lemma_links_kept, Aborted};
#[allow(unused_imports)]
use crate::session_control::{abort_outcome, closing, ended, foreign, with_registry, with_session};
use crate::session_initializer::SessionRequest;
#[allow(unused_imports)]
use crate::session_initializer::{IncomingSession, InitializerModel};
use crate::session_layer::{Closed, ConnectionMethod, SessionLayer};
#[allow(unused_imports)]
use crate::session_layer::LayerModel;
use crate::direct_session::DirectSession;
#[allow(unused_imports)]
use crate::direct_session::{Forward, SessionModel};
use crate::session_state::{InitState, SessionState};
#[allow(unused_imports)]
use crate::session_state::incoming_target;
#[allow(unused_imports)]
use crate::text::{decimal, decimal_list, push_decimal, push_decimal_list};

verus! {

/// Requests of other nodes that this node answers.
pub enum RequestKind {
    Ping,
    Session(SessionRequest),
    /// Any other request.
    Other,
}

/// What a request leads to.
pub enum RequestAction {
    /// A ping is answered.
    Pong { session_id: Vec<u8>, request_id: RequestId, to: SocketAddr },
    /// A handshake starts. Its address is admitted until the handshake is given up.
    Hello { request_id: RequestId, request: SessionRequest },
    Nothing,
}

/// What a request that belongs to a handshake leads to.
pub enum SessionDispatch {
    /// A handshake is held under a permit.
    NewSession(SessionPermit),
    /// A session is being initialized already.
    InProgress(NodeAwaiting),
    /// The request went to the handshake that it belongs to.
    Continued,
}

/// The layer with one more request remembered.
pub open spec fn remembered(
    m: LayerModel,
    from: SocketAddr,
    session_id: Seq<u8>,
    request_id: RequestId,
) -> LayerModel {
    LayerModel {
        requests: recorded(m.requests, FingerprintModel { from, session_id, request_id }),
        ..m
    }
}

/// The layer with its handshakes replaced.
pub open spec fn with_protocol(m: LayerModel, p: InitializerModel) -> LayerModel {
    LayerModel { protocol: Some(p), ..m }
}

/// What handing a request to its handshake leaves behind.
pub open spec fn continued(
    p: InitializerModel,
    id: SessionId,
    request_id: RequestId,
    from: SocketAddr,
    request: SessionRequest,
) -> InitializerModel {
    if p.continues(id, from) {
        InitializerModel {
            incoming: p.incoming.insert(
                id,
                IncomingSession { remote: from, queued: Some((request_id, request)) },
            ),
            ..p
        }
    } else {
        p
    }
}

/// What a request of the handshake leaves behind and leads to.
pub open spec fn session_dispatched(
    m: LayerModel,
    session_id: Seq<u8>,
    request_id: RequestId,
    from: SocketAddr,
    request: SessionRequest,
    remote_id: Result<NodeId, String>,
    now: i64,
    after: LayerModel,
    r: Result<SessionDispatch, SessionError>,
) -> bool {
    if m.protocol is None {
        &&& after == m
        &&& r matches Err(SessionError::Internal(text)) && text@
            == "`SessionProtocol` empty (not initialized?)"@
    } else if session_id.len() == 0 {
        match remote_id {
            Err(e) => after == m && r == Err::<SessionDispatch, SessionError>(
                SessionError::Protocol(ProtocolError::RecoverId(e)),
            ),
            Ok(remote_id) => {
                let (guarded, index) = m.registry.guarded(remote_id, seq![from], now);
                let lock = match r {
                    Ok(SessionDispatch::NewSession(permit)) => SessionLock::Permit(permit),
                    Ok(SessionDispatch::InProgress(awaiting)) => SessionLock::Wait(awaiting),
                    _ => arbitrary(),
                };
                &&& (r matches Ok(d) && (d is NewSession || d is InProgress))
                &&& after == with_registry(m, after.registry)
                &&& locked(
                    guarded,
                    guarded.view_at(index),
                    incoming_target(
                        guarded.nodes[index as int].state,
                        InitState::ConnectIntent,
                    ),
                    after.registry,
                    lock,
                )
            },
        }
    } else if session_id.len() != SESSION_ID_LEN {
        &&& after == m
        &&& r matches Err(SessionError::Protocol(ProtocolError::InvalidSessionId(id, text))) && (
        *id)@ == session_id && text@ == INVALID_SESSION_ID@
    } else {
        exists|id: SessionId|
            {
                let p = m.protocol->Some_0;
                &&& #[trigger] id.bytes() == session_id
                &&& after == with_protocol(m, continued(p, id, request_id, from, request))
                &&& if p.continues(id, from) {
                    r == Ok::<SessionDispatch, SessionError>(SessionDispatch::Continued)
                } else if p.incoming.contains_key(id) && p.incoming[id].remote == from {
                    r matches Err(SessionError::Internal(text)) && text@
                        == "Failed to send Request to channel"@
                } else {
                    r == Err::<SessionDispatch, SessionError>(
                        SessionError::Protocol(ProtocolError::SessionNotFound(id)),
                    )
                }
            }
    }
}

impl SessionLayer {
    /// Handles a request that belongs to a handshake. An empty session id starts one. `remote_id`
    /// is the default id that the signatures of the request show, or why there is none.
    pub fn dispatch_session(
        &mut self,
        session_id: Vec<u8>,
        request_id: RequestId,
        from: SocketAddr,
        request: SessionRequest,
        remote_id: Result<NodeId, String>,
        now: i64,
    ) -> (r: Result<SessionDispatch, SessionError>)
        requires
            old(self)@.wf(),
            old(self)@.registry.nodes.len() < usize::MAX,
        ensures
            final(self)@.wf(),
            session_dispatched(
                old(self)@,
                session_id@,
                request_id,
                from,
                request,
                remote_id,
                now,
                final(self)@,
                r,
            ),
    {
        let ghost before = self@;
        match self.get_protocol() {
            Ok(_) => {},
            Err(e) => {
                return Err(e);
            },
        }
        if session_id.len() == 0 {
            let remote_id = match remote_id {
                Ok(remote_id) => remote_id,
                Err(e) => {
                    return Err(SessionError::from_protocol(ProtocolError::RecoverId(e)));
                },
            };
            let mut addrs: Vec<SocketAddr> = Vec::new();
            addrs.push(from);
            assert(addrs@ =~= seq![from]);
            let lock = self.registry.lock_incoming(remote_id, &addrs, now);
            proof {
                lemma_links_kept(before, self@);
                assert(self@ =~= with_registry(before, self@.registry));
            }
            return match lock {
                SessionLock::Permit(permit) => Ok(SessionDispatch::NewSession(permit)),
                SessionLock::Wait(awaiting) => Ok(SessionDispatch::InProgress(awaiting)),
            };
        }
        match SessionId::try_from_bytes(&session_id) {
            Some(id) => self.existing_session(id, request_id, from, request),
            None => Err(
                SessionError::from_protocol(
                    ProtocolError::InvalidSessionId(
                        Arc::new(session_id),
                        owned(INVALID_SESSION_ID),
                    ),
                ),
            ),
        }
    }

    fn existing_session(
        &mut self,
        id: SessionId,
        request_id: RequestId,
        from: SocketAddr,
        request: SessionRequest,
    ) -> (r: Result<SessionDispatch, SessionError>)
        requires
            old(self)@.wf(),
            old(self)@.protocol is Some,
        ensures
            final(self)@.wf(),
            ({
                let p = old(self)@.protocol->Some_0;
                &&& final(self)@ == with_protocol(
                    old(self)@,
                    continued(p, id, request_id, from, request),
                )
                &&& if p.continues(id, from) {
                    r == Ok::<SessionDispatch, SessionError>(SessionDispatch::Continued)
                } else if p.incoming.contains_key(id) && p.incoming[id].remote == from {
                    r matches Err(SessionError::Internal(text)) && text@
                        == "Failed to send Request to channel"@
                } else {
                    r == Err::<SessionDispatch, SessionError>(
                        SessionError::Protocol(ProtocolError::SessionNotFound(id)),
                    )
                }
            }),
    {
        let ghost before = self@;
        match self.init_protocol.take() {
            Some(protocol) => {
                let mut protocol = protocol;
                let ghost p = protocol@;
                let result = protocol.try_continue_session(id, request_id, from, request);
                let ghost after = protocol@;
                self.init_protocol = Some(protocol);
                proof {
                    assert(after =~= continued(p, id, request_id, from, request));
                    assert(self@ =~= with_protocol(before, after));
                    lemma_links_kept(before, self@);
                }
                match result {
                    Ok(_) => Ok(SessionDispatch::Continued),
                    Err(e) => Err(e),
                }
            },
            None => Err(SessionError::Internal(owned(""))),
        }
    }
}

/// What a request leaves behind and leads to.
pub open spec fn request_handled(
    m: LayerModel,
    session_id: Seq<u8>,
    request_id: RequestId,
    kind: Option<RequestKind>,
    from: SocketAddr,
    after: LayerModel,
    r: RequestAction,
) -> bool {
    let known = m.requests.contains(FingerprintModel { from, session_id, request_id });
    let next = remembered(m, from, session_id, request_id);
    match kind {
        None => after == m && r is Nothing,
        Some(kind) => if known {
            after == m && r is Nothing
        } else {
            match kind {
                RequestKind::Other => after == next && r is Nothing,
                RequestKind::Ping => after == next && (r matches RequestAction::Pong {
                    session_id: id,
                    request_id: answered,
                    to,
                } && id@ == session_id && answered == request_id && to == from),
                RequestKind::Session(request) => match m.protocol {
                    None => after == next && r is Nothing,
                    Some(p) => if session_id.len() == 0 {
                        if p.admits(from) {
                            &&& after == with_protocol(
                                next,
                                InitializerModel { admitted: p.admitted.insert(from, ()), ..p },
                            )
                            &&& r == (RequestAction::Hello { request_id, request })
                        } else {
                            after == next && r is Nothing
                        }
                    } else if session_id.len() == SESSION_ID_LEN {
                        &&& r is Nothing
                        &&& exists|id: SessionId|
                            #[trigger] id.bytes() == session_id && after == with_protocol(
                                next,
                                continued(p, id, request_id, from, request),
                            )
                    } else {
                        after == next && r is Nothing
                    },
                },
            }
        },
    }
}

impl SessionLayer {
    /// Handles a request of another node. Repeated packets are dropped. A request that starts a
    /// handshake reserves a place for its address before any work is done for it, and a further
    /// request goes to the handshake it belongs to at once.
    pub fn on_request(
        &mut self,
        session_id: Vec<u8>,
        request_id: RequestId,
        kind: Option<RequestKind>,
        from: SocketAddr,
    ) -> (r: RequestAction)
        requires
            old(self)@.wf(),
        ensures
            final(self)@.wf(),
            request_handled(
                old(self)@,
                session_id@,
                request_id,
                kind,
                from,
                final(self)@,
                r,
            ),
    {
        let ghost before = self@;
        let kind = match kind {
            Some(kind) => kind,
            None => {
                return RequestAction::Nothing;
            },
        };
        if self.processed_requests.is_request_duplicate(&from, &session_id, request_id) {
            return RequestAction::Nothing;
        }
        let fingerprint = ReqFingerprint {
            from,
            session_id: crate::model::copy_list(&session_id),
            request_id,
        };
        assert(fingerprint@ =~= (FingerprintModel { from, session_id: session_id@, request_id }));
        self.processed_requests.record_duplicate(fingerprint);
        let ghost next = self@;
        proof {
            assert(next =~= remembered(before, from, session_id@, request_id));
            lemma_links_kept(before, next);
        }
        match kind {
            RequestKind::Other => RequestAction::Nothing,
            RequestKind::Ping => RequestAction::Pong { session_id, request_id, to: from },
            RequestKind::Session(request) => {
                if self.init_protocol.is_none() {
                    return RequestAction::Nothing;
                }
                if session_id.len() == 0 {
                    return if self.take_up(from) {
                        RequestAction::Hello { request_id, request }
                    } else {
                        RequestAction::Nothing
                    };
                }
                match SessionId::try_from_bytes(&session_id) {
                    Some(id) => {
                        let _ = self.existing_session(id, request_id, from, request);
                    },
                    None => {},
                }
                RequestAction::Nothing
            },
        }
    }

    fn take_up(&mut self, from: SocketAddr) -> (r: bool)
        requires
            old(self)@.wf(),
            old(self)@.protocol is Some,
        ensures
            final(self)@.wf(),
            ({
                let p = old(self)@.protocol->Some_0;
                &&& r == p.admits(from)
                &&& final(self)@ == if r {
                    with_protocol(
                        old(self)@,
                        InitializerModel { admitted: p.admitted.insert(from, ()), ..p },
                    )
                } else {
                    old(self)@
                }
            }),
    {
        let ghost before = self@;
        match self.init_protocol.take() {
            Some(protocol) => {
                let mut protocol = protocol;
                let r = protocol.take_up(from);
                self.init_protocol = Some(protocol);
                proof {
                    assert(self@ =~= with_protocol(before, protocol@));
                    assert(with_protocol(before, before.protocol->Some_0) =~= before);
                    lemma_links_kept(before, self@);
                }
                r
            },
            None => false,
        }
    }

    /// Opens the session of a handshake that another node started for further requests of its
    /// address, and remembers how to abort its task. Returns for how long, in milliseconds, the
    /// handshake may go on.
    pub fn begin_incoming(&mut self, id: SessionId, remote: SocketAddr, handle: u64) -> (r: Result<
        u64,
        SessionError,
    >)
        requires
            old(self)@.wf(),
        ensures
            final(self)@.wf(),
            match old(self)@.protocol {
                Some(p) => {
                    &&& r == Ok::<u64, SessionError>(old(self)@.config.incoming_session_timeout)
                    &&& final(self)@ == with_protocol(old(self)@, p.begun(id, remote, handle))
                },
                None => {
                    &&& r matches Err(SessionError::Internal(text)) && text@
                        == "`SessionProtocol` empty (not initialized?)"@
                    &&& final(self)@ == old(self)@
                },
            },
    {
        let ghost before = self@;
        match self.init_protocol.take() {
            Some(protocol) => {
                let mut protocol = protocol;
                protocol.begin_incoming(id, remote, handle);
                self.init_protocol = Some(protocol);
                proof {
                    assert(self@ =~= with_protocol(before, protocol@));
                    lemma_links_kept(before, self@);
                }
                Ok(self.config.incoming_session_timeout)
            },
            None => {
                assert(self@ =~= before);
                Err(SessionError::Internal(owned("`SessionProtocol` empty (not initialized?)")))
            },
        }
    }

    /// Gives up the handshake from an address, whatever became of it.
    pub fn release_admission(&mut self, from: SocketAddr)
        requires
            old(self)@.wf(),
        ensures
            final(self)@.wf(),
            final(self)@ == match old(self)@.protocol {
                Some(p) => with_protocol(
                    old(self)@,
                    InitializerModel { admitted: p.admitted.remove(from), ..p },
                ),
                None => old(self)@,
            },
    {
        let ghost before = self@;
        match self.init_protocol.take() {
            Some(protocol) => {
                let mut protocol = protocol;
                protocol.release_admission(&from);
                self.init_protocol = Some(protocol);
                proof {
                    assert(self@ =~= with_protocol(before, protocol@));
                    lemma_links_kept(before, self@);
                }
            },
            None => {
                assert(self@ =~= before);
            },
        }
    }
}

/// Requests within a handshake never reserve a place for one, whoever they come from.
pub proof fn lemma_continuations_reserve_nothing(
    m: LayerModel,
    session_id: Seq<u8>,
    request_id: RequestId,
    kind: Option<RequestKind>,
    from: SocketAddr,
    after: LayerModel,
    r: RequestAction,
)
    requires
        session_id.len() > 0,
        request_handled(m, session_id, request_id, kind, from, after, r),
    ensures
        !(r is Hello),
        (after.protocol is Some) == (m.protocol is Some),
        m.protocol matches Some(p) ==> after.protocol->Some_0.admitted == p.admitted
            && after.protocol->Some_0.handles == p.handles && after.protocol->Some_0.tmp == p.tmp
            && after.protocol->Some_0.incoming.dom() == p.incoming.dom(),
{
    if let Some(p) = m.protocol {
        assert(after.protocol->Some_0.incoming.dom() =~= p.incoming.dom());
    }
}

/// Requests with ids that no handshake has change no handshake.
pub proof fn lemma_unknown_continuations_do_nothing(
    m: LayerModel,
    session_id: Seq<u8>,
    request_id: RequestId,
    kind: Option<RequestKind>,
    from: SocketAddr,
    after: LayerModel,
    r: RequestAction,
)
    requires
        session_id.len() > 0,
        m.protocol matches Some(p) ==> forall|id: SessionId|
            #[trigger] id.bytes() == session_id ==> !p.incoming.contains_key(id),
        request_handled(m, session_id, request_id, kind, from, after, r),
    ensures
        after.protocol == m.protocol,
{
}

/// A repeated packet does nothing.
pub proof fn lemma_repeated_requests_are_dropped(
    m: LayerModel,
    session_id: Seq<u8>,
    request_id: RequestId,
    kind: Option<RequestKind>,
    from: SocketAddr,
    first: LayerModel,
    action: RequestAction,
    second: LayerModel,
    repeated: RequestAction,
)
    requires
        request_handled(m, session_id, request_id, kind, from, first, action),
        request_handled(first, session_id, request_id, kind, from, second, repeated),
    ensures
        repeated is Nothing,
        second == first,
{
    if kind is Some {
        crate::requests::lemma_recorded_is_duplicate(
            m.requests,
            FingerprintModel { from, session_id, request_id },
        );
    }
}

/// What a message says was disconnected.
pub enum By {
    Slot(SlotId),
    NodeId(Vec<u8>),
    SessionId(Vec<u8>),
}

/// What a message about a disconnection led to.
pub enum Disconnected {
    /// A node was disconnected from, or could not be.
    Node(NodeId, Result<Closed, SessionError>),
    /// A session was closed, or could not be.
    Session(Result<Closed, SessionError>),
    /// Initializations were aborted, since there was no session yet.
    Initialization(Aborted),
    Nothing,
}

/// A node is disconnected from.
pub open spec fn node_disconnected(
    m: LayerModel,
    node: NodeId,
    now: i64,
    after: LayerModel,
    r: Result<Disconnected, String>,
) -> bool {
    &&& r matches Ok(Disconnected::Node(n, _)) && n == node
    &&& ended(
        m,
        node,
        now,
        closing(m, node, now).unregistered(node),
        closing(m, node, now).report(node),
        after,
        r->Ok_0->Node_1,
    )
}

/// What a message about a lost slot leads to.
pub open spec fn slot_disconnected(
    m: LayerModel,
    from: SocketAddr,
    slot: SlotId,
    now: i64,
    after: LayerModel,
    r: Result<Disconnected, String>,
) -> bool {
    if m.p2p_sessions.contains_key(from) {
        let h = m.p2p_sessions[from];
        let removed = with_session(
            m,
            h,
            SessionModel {
                forwards: m.sessions[h].forwards.removed_by_slot(slot),
                ..m.sessions[h]
            },
        );
        if m.sessions[h].forwards.slots.contains_key(slot) {
            node_disconnected(
                removed,
                m.sessions[h].forwards.slots[slot].default_id,
                now,
                after,
                r,
            )
        } else {
            after == removed && r == Ok::<Disconnected, String>(Disconnected::Nothing)
        }
    } else {
        after == m && r == Ok::<Disconnected, String>(Disconnected::Nothing)
    }
}

/// What a message about a closed session leads to. Only the session that the message came over can
/// be closed.
pub open spec fn session_disconnected(
    m: LayerModel,
    sender: Seq<u8>,
    from: SocketAddr,
    to_close: Seq<u8>,
    now: i64,
    after: LayerModel,
    r: Result<Disconnected, String>,
) -> bool {
    if to_close.len() != SESSION_ID_LEN {
        after == m && (r matches Err(text) && text@ == INVALID_SESSION_ID@)
    } else if to_close != sender {
        after == m && (exists|a: SessionId, b: SessionId|
            {
                &&& #[trigger] a.bytes() == sender
                &&& #[trigger] b.bytes() == to_close
                &&& r matches Err(text) && text@ == "Session id mismatch. Sender: "@ + a.text()
                    + ", session to close: "@ + b.text() + ". Might be exploit attempt.."@
            })
    } else if m.p2p_sessions.contains_key(from) {
        let h = m.p2p_sessions[from];
        let session = m.sessions[h];
        let node = session.owner.default_id;
        if session.raw.id.bytes() == sender {
            &&& r matches Ok(Disconnected::Session(_))
            &&& ended(
                m,
                node,
                now,
                closing(m, node, now).closed(session),
                Closed { disconnect: Some(session.raw), target: node },
                after,
                r->Ok_0->Session_0,
            )
        } else {
            after == m && (exists|a: SessionId|
                #[trigger] a.bytes() == sender && (r matches Err(text) && text@
                    == "Unexpected Session id: "@ + a.text()))
        }
    } else {
        exists|a: Result<Aborted, SessionError>|
            {
                &&& #[trigger] abort_outcome(m, from, after, a)
                &&& match a {
                    Err(e) => r matches Err(text) && text@ == e.text(),
                    Ok(aborted) => match aborted.disconnect {
                        Err(e) => r matches Err(text) && text@ == e.text(),
                        Ok(_) => r == Ok::<Disconnected, String>(
                            Disconnected::Initialization(aborted),
                        ),
                    },
                }
            }
    }
}

impl SessionLayer {
    /// Handles the message that a node or a session was disconnected. A message without a valid
    /// session id is from an unknown session, and does nothing.
    pub fn on_disconnected(
        &mut self,
        session_id: Vec<u8>,
        from: SocketAddr,
        by: By,
        now: i64,
    ) -> (r: Result<Disconnected, String>)
        requires
            old(self)@.wf(),
            old(self)@.registry.nodes.len() < usize::MAX,
        ensures
            final(self)@.wf(),
            if session_id@.len() != SESSION_ID_LEN {
                final(self)@ == old(self)@ && (r matches Err(text) && text@
                    == INVALID_SESSION_ID@)
            } else {
                match by {
                    By::Slot(slot) => slot_disconnected(
                        old(self)@,
                        from,
                        slot,
                        now,
                        final(self)@,
                        r,
                    ),
                    By::NodeId(bytes) => if bytes@.len() == NODE_ID_LEN {
                        exists|node: NodeId|
                            {
                                &&& #[trigger] node.bytes() == bytes@
                                &&& node_disconnected(old(self)@, node, now, final(self)@, r)
                            }
                    } else {
                        final(self)@ == old(self)@ && r == Ok::<Disconnected, String>(
                            Disconnected::Nothing,
                        )
                    },
                    By::SessionId(to_close) => session_disconnected(
                        old(self)@,
                        session_id@,
                        from,
                        to_close@,
                        now,
                        final(self)@,
                        r,
                    ),
                }
            },
    {
        let ghost before = self@;
        let id = match SessionId::try_from_bytes(&session_id) {
            Some(id) => id,
            None => {
                return Err(owned(INVALID_SESSION_ID));
            },
        };
        match by {
            By::Slot(slot) => match self.find_session(from) {
                Some(session) => {
                    assert(before.sessions.contains_key(before.p2p_sessions[from]));
                    match self.remove_forward(session, slot) {
                        Ok(node) => {
                            let result = self.disconnect(node, now);
                            Ok(Disconnected::Node(node, result))
                        },
                        Err(_) => Ok(Disconnected::Nothing),
                    }
                },
                None => Ok(Disconnected::Nothing),
            },
            By::NodeId(bytes) => match NodeId::try_from_bytes(&bytes) {
                Some(node) => {
                    let result = self.disconnect(node, now);
                    let r = Ok(Disconnected::Node(node, result));
                    assert(node.bytes() == bytes@);
                    r
                },
                None => Ok(Disconnected::Nothing),
            },
            By::SessionId(to_close) => {
                let to_close = match SessionId::try_from_bytes(&to_close) {
                    Some(id) => id,
                    None => {
                        return Err(owned(INVALID_SESSION_ID));
                    },
                };
                if to_close != id {
                    let mut m = owned("Session id mismatch. Sender: ");
                    id.push_text(&mut m);
                    m.append(", session to close: ");
                    to_close.push_text(&mut m);
                    m.append(". Might be exploit attempt..");
                    proof {
                        if to_close.bytes() == id.bytes() {
                            crate::model::lemma_session_id_bytes_injective(to_close, id);
                        }
                        assert(m@ =~= "Session id mismatch. Sender: "@ + id.text()
                            + ", session to close: "@ + to_close.text()
                            + ". Might be exploit attempt.."@);
                        assert(id.bytes() == session_id@);
                    }
                    return Err(m);
                }
                self.session_disconnected(id, from, now)
            },
        }
    }

    fn session_disconnected(&mut self, id: SessionId, from: SocketAddr, now: i64) -> (r: Result<
        Disconnected,
        String,
    >)
        requires
            old(self)@.wf(),
            old(self)@.registry.nodes.len() < usize::MAX,
        ensures
            final(self)@.wf(),
            session_disconnected(
                old(self)@,
                id.bytes(),
                from,
                id.bytes(),
                now,
                final(self)@,
                r,
            ),
    {
        let ghost before = self@;
        proof {
            lemma_session_id_len(id);
        }
        match self.find_session(from) {
            Some(session) => {
                assert(before.sessions.contains_key(before.p2p_sessions[from]));
                let same = match self.sessions.get(&session) {
                    Some(direct) => direct.raw.id == id,
                    None => false,
                };
                if !same {
                    let mut m = owned("Unexpected Session id: ");
                    id.push_text(&mut m);
                    proof {
                        let raw = before.sessions[session].raw;
                        if raw.id.bytes() == id.bytes() {
                            crate::model::lemma_session_id_bytes_injective(raw.id, id);
                        }
                        assert(id.bytes() == id.bytes());
                    }
                    return Err(m);
                }
                Ok(Disconnected::Session(self.close_session(session, now)))
            },
            None => {
                let result = self.abort_initializations(from);
                assert(abort_outcome(before, from, self@, result));
                match result {
                    Ok(aborted) => {
                        let failed: Option<String> = match &aborted.disconnect {
                            Ok(_) => None,
                            Err(e) => Some(e.to_text()),
                        };
                        match failed {
                            Some(m) => Err(m),
                            None => Ok(Disconnected::Initialization(aborted)),
                        }
                    },
                    Err(e) => Err(e.to_text()),
                }
            },
        }
    }
}

proof fn lemma_session_id_len(id: SessionId)
    ensures
        id.bytes().len() == SESSION_ID_LEN,
{
    crate::model::lemma_be_len(id.value as nat, 16);
}

/// Nobody can close a session by naming another one than that of the message.
pub proof fn lemma_only_own_session_is_closed(
    m: LayerModel,
    sender: Seq<u8>,
    from: SocketAddr,
    to_close: Seq<u8>,
    now: i64,
    after: LayerModel,
    r: Result<Disconnected, String>,
)
    requires
        session_disconnected(m, sender, from, to_close, now, after, r),
        to_close != sender || (m.p2p_sessions.contains_key(from)
            && m.sessions[m.p2p_sessions[from]].raw.id.bytes() != sender),
    ensures
        after == m,
        r is Err,
{
}

/// A request to connect back to a node, as the relay server passes it on.
pub struct ReverseConnection {
    pub node_id: Vec<u8>,
    /// Endpoints of the node, as far as they could be read.
    pub endpoints: Vec<Option<SocketAddr>>,
}

/// Endpoints of a list that could be read.
pub open spec fn readable(endpoints: Seq<Option<SocketAddr>>) -> Seq<SocketAddr>
    decreases endpoints.len(),
{
    if endpoints.len() == 0 {
        Seq::empty()
    } else {
        match endpoints.last() {
            Some(addr) => readable(endpoints.drop_last()).push(addr),
            None => readable(endpoints.drop_last()),
        }
    }
}

/// Endpoints of a list that could be read.
pub fn readable_endpoints(endpoints: &Vec<Option<SocketAddr>>) -> (r: Vec<SocketAddr>)
    ensures
        r@ == readable(endpoints@),
{
    let mut r: Vec<SocketAddr> = Vec::new();
    let mut i: usize = 0;
    assert(endpoints@.take(0) =~= Seq::empty());
    while i < endpoints.len()
        invariant
            0 <= i <= endpoints@.len(),
            r@ == readable(endpoints@.take(i as int)),
        decreases endpoints@.len() - i,
    {
        proof {
            let next = endpoints@.take(i + 1);
            assert(next.drop_last() =~= endpoints@.take(i as int));
            assert(next.last() == endpoints@[i as int]);
        }
        match endpoints[i] {
            Some(addr) => {
                r.push(addr);
            },
            None => {},
        }
        i += 1;
    }
    assert(endpoints@.take(i as int) =~= endpoints@);
    r
}

/// A node to connect back to.
pub struct ReverseRequest {
    pub node_id: NodeId,
    pub permit: SessionPermit,
    /// Ways that are not tried. A reverse connection must not lead to a further one, and whether a
    /// relay is used is left to the other node.
    pub dont_use: Vec<ConnectionMethod>,
}

/// What a request to connect back leaves behind and leads to.
pub open spec fn reverse_requested(
    m: LayerModel,
    from: SocketAddr,
    message: ReverseConnection,
    now: i64,
    after: LayerModel,
    r: Result<Option<ReverseRequest>, String>,
) -> bool {
    if message.node_id@.len() != NODE_ID_LEN {
        &&& after == m
        &&& r matches Err(text) && text@ == "ReverseConnection with invalid NodeId: "@
            + decimal_list(message.node_id@) + ". "@ + INVALID_NODE_ID@
    } else {
        exists|node_id: NodeId|
            {
                &&& #[trigger] node_id.bytes() == message.node_id@
                &&& if message.endpoints@.len() == 0 {
                    &&& after == m
                    &&& r matches Err(text) && text@ == "Got ReverseConnection for Node ["@
                        + node_id.text() + "] from "@ + from.text()
                        + " with no endpoints to connect to."@
                } else {
                    let addrs = readable(message.endpoints@).filter(
                        |a: SocketAddr| foreign(m, a),
                    );
                    let (guarded, index) = m.registry.guarded(node_id, addrs, now);
                    let node = guarded.view_at(index);
                    &&& after == with_registry(m, after.registry)
                    &&& r is Ok
                    &&& match r->Ok_0 {
                        Some(request) => request.node_id == node_id && request.dont_use@ == seq![
                            ConnectionMethod::Reverse,
                            ConnectionMethod::Relay,
                        ] && locked(
                            guarded,
                            node,
                            SessionState::Outgoing(InitState::ConnectIntent),
                            after.registry,
                            SessionLock::Permit(request.permit),
                        ),
                        None => locked(
                            guarded,
                            node,
                            SessionState::Outgoing(InitState::ConnectIntent),
                            after.registry,
                            SessionLock::Wait(NodeAwaiting { registry: node }),
                        ),
                    }
                }
            }
    }
}

impl SessionLayer {
    /// Handles a request to connect back to a node. Nothing is left to do where a connection with
    /// it is in progress already.
    pub fn on_reverse_connection(
        &mut self,
        from: SocketAddr,
        message: &ReverseConnection,
        now: i64,
    ) -> (r: Result<Option<ReverseRequest>, String>)
        requires
            old(self)@.wf(),
            old(self)@.registry.nodes.len() < usize::MAX,
        ensures
            final(self)@.wf(),
            reverse_requested(old(self)@, from, *message, now, final(self)@, r),
    {
        let ghost before = self@;
        let node_id = match NodeId::try_from_bytes(&message.node_id) {
            Some(node_id) => node_id,
            None => {
                let mut m = owned("ReverseConnection with invalid NodeId: ");
                push_decimal_list(&mut m, &message.node_id);
                m.append(". ");
                m.append(INVALID_NODE_ID);
                assert(m@ =~= "ReverseConnection with invalid NodeId: "@ + decimal_list(
                    message.node_id@,
                ) + ". "@ + INVALID_NODE_ID@);
                return Err(m);
            },
        };
        assert(node_id.bytes() == message.node_id@);
        if message.endpoints.len() == 0 {
            let mut m = owned("Got ReverseConnection for Node [");
            node_id.push_text(&mut m);
            m.append("] from ");
            from.push_text(&mut m);
            m.append(" with no endpoints to connect to.");
            assert(m@ =~= "Got ReverseConnection for Node ["@ + node_id.text() + "] from "@
                + from.text() + " with no endpoints to connect to."@);
            return Err(m);
        }
        let endpoints = readable_endpoints(&message.endpoints);
        let addrs = self.filter_own_addresses(&endpoints);
        let lock = self.registry.lock_outgoing(node_id, &addrs, now);
        proof {
            lemma_links_kept(before, self@);
            assert(self@ =~= with_registry(before, self@.registry));
        }
        match lock {
            SessionLock::Permit(permit) => {
                let mut dont_use: Vec<ConnectionMethod> = Vec::new();
                dont_use.push(ConnectionMethod::Reverse);
                dont_use.push(ConnectionMethod::Relay);
                assert(dont_use@ =~= seq![ConnectionMethod::Reverse, ConnectionMethod::Relay]);
                let r = Ok(Some(ReverseRequest { node_id, permit, dont_use }));
                r
            },
            SessionLock::Wait(_) => Ok(None),
        }
    }

    /// What connecting back came to.
    pub fn reverse_connection_resolved(
        node_id: NodeId,
        result: Result<SessionHandle, SessionError>,
    ) -> (r: Result<(), String>)
        ensures
            match result {
                Ok(_) => r is Ok,
                Err(e) => r matches Err(text) && text@
                    == "Failed to resolve ReverseConnection. node_id="@ + node_id.text()
                    + " error="@ + e.text(),
            },
    {
        match result {
            Ok(_) => Ok(()),
            Err(e) => {
                let mut m = owned("Failed to resolve ReverseConnection. node_id=");
                node_id.push_text(&mut m);
                m.append(" error=");
                let reason = e.to_text();
                m.append(reason.as_str());
                assert(m@ =~= "Failed to resolve ReverseConnection. node_id="@ + node_id.text()
                    + " error="@ + e.text());
                Err(m)
            },
        }
    }
}

/// Control messages of other nodes and of relay servers.
pub enum ControlKind {
    ReverseConnection(ReverseConnection),
    PauseForwarding,
    ResumeForwarding,
    Disconnected(Option<By>),
    /// Any other message.
    Other,
}

/// What a control message led to.
pub enum ControlAction {
    /// A request to connect back is handled in a task of its own.
    ReverseConnection(ReverseConnection),
    /// Packets over a session are held back, or let through again.
    Forwarding { session: SessionHandle, paused: bool },
    Disconnected(Result<Disconnected, String>),
    Nothing,
}

/// Packets over the session with an address are held back or let through, where there is one.
pub open spec fn forwarding_changed(
    m: LayerModel,
    from: SocketAddr,
    paused: bool,
    after: LayerModel,
    r: ControlAction,
) -> bool {
    if m.p2p_sessions.contains_key(from) {
        let h = m.p2p_sessions[from];
        &&& r == (ControlAction::Forwarding { session: h, paused })
        &&& after == with_session(
            m,
            h,
            SessionModel { forward_pause: paused, ..m.sessions[h] },
        )
    } else {
        after == m && r is Nothing
    }
}

impl SessionLayer {
    /// Handles a control message.
    pub fn on_control(
        &mut self,
        session_id: Vec<u8>,
        control: Option<ControlKind>,
        from: SocketAddr,
        now: i64,
    ) -> (r: ControlAction)
        requires
            old(self)@.wf(),
            old(self)@.registry.nodes.len() < usize::MAX,
        ensures
            final(self)@.wf(),
            match control {
                Some(ControlKind::ReverseConnection(message)) => final(self)@ == old(self)@ && r
                    == ControlAction::ReverseConnection(message),
                Some(ControlKind::PauseForwarding) => forwarding_changed(
                    old(self)@,
                    from,
                    true,
                    final(self)@,
                    r,
                ),
                Some(ControlKind::ResumeForwarding) => forwarding_changed(
                    old(self)@,
                    from,
                    false,
                    final(self)@,
                    r,
                ),
                Some(ControlKind::Disconnected(Some(by))) => r is Disconnected && match by {
                    _ if session_id@.len() != SESSION_ID_LEN => final(self)@ == old(self)@ && (
                    r->Disconnected_0 matches Err(text) && text@ == INVALID_SESSION_ID@),
                    By::Slot(slot) => slot_disconnected(
                        old(self)@,
                        from,
                        slot,
                        now,
                        final(self)@,
                        r->Disconnected_0,
                    ),
                    By::NodeId(bytes) => if bytes@.len() == NODE_ID_LEN {
                        exists|node: NodeId|
                            {
                                &&& #[trigger] node.bytes() == bytes@
                                &&& node_disconnected(
                                    old(self)@,
                                    node,
                                    now,
                                    final(self)@,
                                    r->Disconnected_0,
                                )
                            }
                    } else {
                        final(self)@ == old(self)@ && r->Disconnected_0 == Ok::<
                            Disconnected,
                            String,
                        >(Disconnected::Nothing)
                    },
                    By::SessionId(to_close) => session_disconnected(
                        old(self)@,
                        session_id@,
                        from,
                        to_close@,
                        now,
                        final(self)@,
                        r->Disconnected_0,
                    ),
                },
                _ => final(self)@ == old(self)@ && r is Nothing,
            },
    {
        match control {
            Some(ControlKind::ReverseConnection(message)) => {
                ControlAction::ReverseConnection(message)
            },
            Some(ControlKind::PauseForwarding) => self.change_forwarding(from, true),
            Some(ControlKind::ResumeForwarding) => self.change_forwarding(from, false),
            Some(ControlKind::Disconnected(Some(by))) => {
                ControlAction::Disconnected(self.on_disconnected(session_id, from, by, now))
            },
            _ => ControlAction::Nothing,
        }
    }

    fn change_forwarding(&mut self, from: SocketAddr, paused: bool) -> (r: ControlAction)
        requires
            old(self)@.wf(),
        ensures
            final(self)@.wf(),
            forwarding_changed(old(self)@, from, paused, final(self)@, r),
    {
        match self.find_session(from) {
            Some(session) => {
                assert(self@.sessions.contains_key(self@.p2p_sessions[from]));
                self.set_forward_pause(session, paused);
                ControlAction::Forwarding { session, paused }
            },
            None => ControlAction::Nothing,
        }
    }
}

/// A packet with a payload, as it came in.
pub struct IncomingForward {
    pub session_id: SessionId,
    pub slot: SlotId,
    pub reliable: bool,
    /// Whether the sender encrypted the payload.
    pub encrypted: bool,
    pub payload: Vec<u8>,
    /// Length of the whole packet.
    pub encoded_len: u64,
}

/// A payload for the layers above.
pub struct Forwarded {
    pub transport: TransportType,
    pub node_id: NodeId,
    pub payload: Vec<u8>,
}

/// What a packet with a payload leads to.
pub enum ForwardAction {
    /// The sender is told that there is no session.
    SendDisconnect { session_id: SessionId, to: SocketAddr },
    /// The payload is handed on, and the packet is counted.
    Deliver { packet: Forwarded, counters: (CounterUpdate, CounterUpdate) },
    /// The packet is dropped, because its payload could not be decrypted.
    Discard { sender: NodeId, reason: String },
    /// The relay server is asked which node is on the slot of the packet. A session with that node
    /// is established without the ways of the list, and the payload is handed on under its id. The
    /// packet came over a session with the owner.
    Resolve { forward: IncomingForward, owner: NodeId, dont_use: Vec<ConnectionMethod> },
}

/// Sender of a packet on a slot of a session, if it is known.
pub open spec fn sender_of(session: SessionModel, slot: SlotId) -> Option<NodeId> {
    if slot == FORWARD_SLOT_ID {
        Some(session.owner.default_id)
    } else if session.forwards.slots.contains_key(slot) {
        Some(session.forwards.slots[slot].default_id)
    } else {
        None
    }
}

/// What a node sent in a packet, or why that is not to be found out. An encrypted payload is
/// opened by the encryption that was agreed on with the node.
pub open spec fn unsealed(
    m: LayerModel,
    sender: NodeId,
    encrypted: bool,
    payload: Seq<u8>,
) -> Result<Seq<u8>, Seq<char>> {
    if !encrypted {
        Ok(payload)
    } else if !m.nodes.contains_key(sender) {
        Err("No routing to decrypt a packet from ["@ + sender.text() + "]"@)
    } else {
        let encryption = m.nodes[sender].encryption;
        match encryption.opens(payload) {
            Some(opened) => Ok(opened),
            None => Err(encryption.refusal(payload)),
        }
    }
}

/// What a packet of a known sender leads to. It came over a session with the owner.
pub open spec fn received(
    m: LayerModel,
    owner: NodeId,
    sender: NodeId,
    forward: IncomingForward,
    r: ForwardAction,
) -> bool {
    match unsealed(m, sender, forward.encrypted, forward.payload@) {
        Ok(payload) => r matches ForwardAction::Deliver { packet, counters } && delivered(
            owner,
            sender,
            forward,
            payload,
            packet,
            counters,
        ),
        Err(text) => r matches ForwardAction::Discard { sender: from, reason } && from == sender
            && reason@ == text,
    }
}

/// What a packet with a payload leads to. `session` is the one that it came over, if there is one
/// with its sender.
pub open spec fn forward_received(
    m: LayerModel,
    forward: IncomingForward,
    from: SocketAddr,
    session: Option<SessionModel>,
    r: ForwardAction,
) -> bool {
    match session {
        Some(session) => match sender_of(session, forward.slot) {
            Some(sender) => received(m, session.owner.default_id, sender, forward, r),
            None => r matches ForwardAction::Resolve { forward: same, owner, dont_use } && same
                == forward && owner == session.owner.default_id && dont_use@
                == seq![ConnectionMethod::Reverse, ConnectionMethod::Direct],
        },
        None => r == (ForwardAction::SendDisconnect {
            session_id: forward.session_id,
            to: from,
        }),
    }
}

/// A payload from a node, with the changes of the counters. Its packet came over a session with
/// the owner.
pub open spec fn delivered(
    owner: NodeId,
    sender: NodeId,
    forward: IncomingForward,
    payload: Seq<u8>,
    packet: Forwarded,
    counters: (CounterUpdate, CounterUpdate),
) -> bool {
    let transport = if forward.reliable {
        TransportType::Reliable
    } else {
        TransportType::Unreliable
    };
    &&& packet.transport == transport
    &&& packet.node_id == sender
    &&& packet.payload@ == payload
    &&& counters.0.is(
        incoming_size_name(transport),
        forward.encoded_len,
        "SourceId"@,
        sender,
        owner,
    )
    &&& counters.1.is(incoming_num_name(transport), 1, "SourceId"@, sender, owner)
}

impl SessionLayer {
    /// Handles a packet with a payload that came over a session, if there is one with its sender.
    /// It does not matter whether the session was unregistered since the packet came.
    pub fn on_forward(
        &self,
        forward: IncomingForward,
        from: SocketAddr,
        session: Option<&DirectSession>,
    ) -> (r: ForwardAction)
        ensures
            forward_received(
                self@,
                forward,
                from,
                match session {
                    Some(direct) => Some(direct@),
                    None => None,
                },
                r,
            ),
    {
        let direct = match session {
            Some(direct) => direct,
            None => {
                return ForwardAction::SendDisconnect {
                    session_id: forward.session_id,
                    to: from,
                };
            },
        };
        let owner = direct.owner.default_id;
        let sender = if forward.slot == FORWARD_SLOT_ID {
            Some(owner)
        } else {
            match direct.get_by_slot(forward.slot) {
                Some(node) => Some(node.default_id),
                None => None,
            }
        };
        match sender {
            Some(sender) => self.receive(owner, sender, forward),
            None => {
                let mut dont_use: Vec<ConnectionMethod> = Vec::new();
                dont_use.push(ConnectionMethod::Reverse);
                dont_use.push(ConnectionMethod::Direct);
                assert(dont_use@ =~= seq![ConnectionMethod::Reverse, ConnectionMethod::Direct]);
                ForwardAction::Resolve { forward, owner, dont_use }
            },
        }
    }

    /// Hands on the payload of a packet whose sender had to be asked for.
    pub fn forward_resolved(
        &self,
        forward: IncomingForward,
        owner: NodeId,
        sender: Result<NodeId, SessionError>,
    ) -> (r: Result<ForwardAction, String>)
        ensures
            match sender {
                Ok(sender) => r matches Ok(action) && received(
                    self@,
                    owner,
                    sender,
                    forward,
                    action,
                ),
                Err(e) => r matches Err(text) && text@ == "Failed to resolve node with slot "@
                    + decimal(forward.slot as nat) + ". "@ + e.text(),
            },
    {
        match sender {
            Err(e) => {
                let mut m = owned("Failed to resolve node with slot ");
                push_decimal(&mut m, forward.slot as u128);
                m.append(". ");
                let reason = e.to_text();
                m.append(reason.as_str());
                assert(m@ =~= "Failed to resolve node with slot "@ + decimal(forward.slot as nat)
                    + ". "@ + e.text());
                Err(m)
            },
            Ok(sender) => Ok(self.receive(owner, sender, forward)),
        }
    }

    fn unseal(&self, sender: NodeId, encrypted: bool, payload: Vec<u8>) -> (r: Result<
        Vec<u8>,
        String,
    >)
        ensures
            match (unsealed(self@, sender, encrypted, payload@), r) {
                (Ok(expected), Ok(opened)) => opened@ == expected,
                (Err(expected), Err(text)) => text@ == expected,
                _ => false,
            },
    {
        if !encrypted {
            return Ok(payload);
        }
        match self.nodes.get(&sender) {
            Some(routing) => match routing.encryption.decrypt(payload) {
                Ok(opened) => Ok(opened),
                Err(e) => Err(e.to_text()),
            },
            None => Err(about("No routing to decrypt a packet from [", &sender, "]")),
        }
    }

    fn receive(&self, owner: NodeId, sender: NodeId, forward: IncomingForward) -> (r: ForwardAction)
        ensures
            received(self@, owner, sender, forward, r),
    {
        let IncomingForward { reliable, encrypted, payload, encoded_len, .. } = forward;
        match self.unseal(sender, encrypted, payload) {
            Ok(payload) => {
                let transport = if reliable {
                    TransportType::Reliable
                } else {
                    TransportType::Unreliable
                };
                let counters = count_incoming(owner, sender, transport, encoded_len);
                ForwardAction::Deliver {
                    packet: Forwarded { transport, node_id: sender, payload },
                    counters,
                }
            },
            Err(reason) => ForwardAction::Discard { sender, reason },
        }
    }
}

/// The packet arrives as it was sent, on whatever slot and with whatever length.
pub open spec fn arrived_as(forward: IncomingForward, sent: Forward) -> bool {
    &&& forward.reliable == sent.reliable
    &&& forward.encrypted == sent.encrypted
    &&& forward.payload@ == sent.payload@
}

/// What one node sends reaches the layers above of the other, encrypted or not: if the packet
/// arrives as it was sent, over a session on which the sender is known, the payload is handed on
/// under the id of the sender. Encrypted packets need a routing to the sender with an encryption
/// that opens what that of the sender seals. The transport is kept as far as it is reliable or
/// not.
pub proof fn lemma_what_is_sent_is_handed_on(
    routing: RoutingModel,
    here: &DirectSession,
    payload: Seq<u8>,
    transport: TransportType,
    sent: Forward,
    there: LayerModel,
    session: SessionModel,
    sender: NodeId,
    forward: IncomingForward,
    from: SocketAddr,
    r: ForwardAction,
)
    requires
        routed(routing, Some(here), payload, transport, Ok(sent)),
        arrived_as(forward, sent),
        sender_of(session, forward.slot) == Some(sender),
        sent.encrypted ==> there.nodes.contains_key(sender) && there.nodes[sender].encryption.opens(
            sent.payload@,
        ) == routing.encryption.opens(sent.payload@),
        forward_received(there, forward, from, Some(session), r),
    ensures
        r matches ForwardAction::Deliver { packet, .. } && packet.payload@ == payload
            && packet.node_id == sender && (packet.transport is Unreliable <==> transport is Unreliable),
{
}

/// The same where the sender had to be asked for.
pub proof fn lemma_what_is_sent_is_handed_on_once_resolved(
    routing: RoutingModel,
    here: &DirectSession,
    payload: Seq<u8>,
    transport: TransportType,
    sent: Forward,
    there: LayerModel,
    owner: NodeId,
    sender: NodeId,
    forward: IncomingForward,
    r: ForwardAction,
)
    requires
        routed(routing, Some(here), payload, transport, Ok(sent)),
        arrived_as(forward, sent),
        sent.encrypted ==> there.nodes.contains_key(sender) && there.nodes[sender].encryption.opens(
            sent.payload@,
        ) == routing.encryption.opens(sent.payload@),
        received(there, owner, sender, forward, r),
    ensures
        r matches ForwardAction::Deliver { packet, .. } && packet.payload@ == payload
            && packet.node_id == sender && (packet.transport is Unreliable <==> transport is Unreliable),
{
}

} // verus!
