//! Establishing sessions: which way to a node is tried, and what comes of it.
use vstd::prelude::*;
use vstd::string::*;

#[allow(unused_imports)]
use crate::direct_session::{entry_ids, EntryModel, SessionModel};
use crate::encryption::SessionEncryption;
use crate::error::{owned, SessionError, SessionInitError};
#[allow(unused_imports)]
use crate::error::TransitionError;
#[allow(unused_imports)]
use crate::model::ids_of;
use crate::model::{copy_list, NodeId, NodeInfo, SessionHandle, SocketAddr};
use crate::network_view::{NodeAwaiting, SessionLock, SessionPermit};
#[allow(unused_imports)]
use crate::network_view::{locked, NetworkModel};
use crate::routing_session::RoutingSender;
use crate::session_control::lemma_links_kept;
#[allow(unused_imports)]
use crate::session_control::{foreign, with_registry, with_session};
use crate::session_layer::{ConnectionMethod, SessionLayer};
#[allow(unused_imports)]
use crate::session_layer::LayerModel;
use crate::session_state::{InitState, RelayedState, ReverseState, SessionState};
#[allow(unused_imports)]
use crate::session_state::state_allowed;

verus! {

/// A request for a way to a node.
pub struct Connecting {
    pub node_id: NodeId,
    /// Ways that must not be tried.
    pub dont_use: Vec<ConnectionMethod>,
    pub step: ConnectStep,
}

impl Connecting {
    /// A request for a way to a node, before its first step.
    pub fn new(node_id: NodeId, dont_use: Vec<ConnectionMethod>) -> (r: Connecting)
        ensures
            r == (Connecting { node_id, dont_use, step: ConnectStep::Begin }),
    {
        Connecting { node_id, dont_use, step: ConnectStep::Begin }
    }
}

/// How far a request for a way to a node has got.
#[derive(Clone, Copy, Debug, PartialEq, Eq, Structural)]
pub enum ConnectStep {
    Begin,
    /// There is a routing, but the session may not be ready yet.
    Awaiting(RoutingSender),
    /// Information about the node is being asked for.
    Querying,
    /// A session with the node of this default id is being established.
    Establishing(NodeId),
    Done,
}

/// What a request for a way to a node hears of.
pub enum ConnectEvent {
    Begin,
    /// The session that was waited for is ready, or will not be.
    Connected(Result<(), SessionError>),
    /// Information about the node, or why there is none.
    Info(Result<NodeInfo, String>),
    /// What establishing the session came to, by whoever did so.
    Established(Result<SessionHandle, SessionError>),
}

/// What a request for a way to a node does next.
pub enum ConnectAction {
    /// Waits for a session that is being established.
    AwaitConnected(NodeAwaiting),
    QueryInfo,
    /// Establishes a session under a permit, without the ways of the list.
    Resolve { permit: SessionPermit, dont_use: Vec<ConnectionMethod> },
    /// Waits for the session that someone else establishes.
    Wait(NodeAwaiting),
    /// Returns. `watch` is a session that has to be closed once the other party answers that this
    /// node is not authorized.
    Finish { result: Result<RoutingSender, SessionError>, watch: Option<SessionHandle> },
    /// The event does not belong to the step.
    Ignore,
}

/// Way to a node, if there is one.
pub open spec fn sender_for(m: LayerModel, node_id: NodeId) -> Option<RoutingSender> {
    if m.nodes.contains_key(node_id) {
        Some(RoutingSender { target: node_id, routing: Some(m.nodes[node_id].number) })
    } else {
        None
    }
}

/// The request is over with a result.
pub open spec fn returned(
    after: Connecting,
    r: ConnectAction,
    result: Result<RoutingSender, SessionError>,
) -> bool {
    after.step == ConnectStep::Done && r == ConnectAction::Finish { result, watch: None }
}

/// What information about a node leads to: an error, or an attempt to get the right to establish
/// a session.
pub open spec fn info_stepped(
    m: LayerModel,
    node_id: NodeId,
    dont_use: Seq<ConnectionMethod>,
    info: Result<NodeInfo, String>,
    now: i64,
    after_m: LayerModel,
    after: Connecting,
    r: ConnectAction,
) -> bool {
    match info {
        Err(e) => after_m == m && after.step == ConnectStep::Done && (r matches ConnectAction::Finish {
            result: Err(SessionError::NotFound(text)),
            watch: None,
        } && text@ == "Error querying node "@ + node_id.text() + ": "@ + e@),
        Ok(info) => if info.identities@.len() == 0 {
            after_m == m && after.step == ConnectStep::Done && (r matches ConnectAction::Finish {
                result: Err(SessionError::Unexpected(text)),
                watch: None,
            } && text@ == "No default id from relay response for ["@ + node_id.text() + "]"@)
        } else {
            let remote = info.identities@[0].node_id;
            if remote == m.config.node_id {
                after_m == m && after.step == ConnectStep::Done && (
                r matches ConnectAction::Finish {
                    result: Err(SessionError::BadRequest(text)),
                    watch: None,
                } && text@ == "Remote id ["@ + remote.text() + "] belongs to this node."@)
            } else {
                let addrs = info.endpoints@.filter(|a: SocketAddr| foreign(m, a));
                let (guarded, index) = m.registry.guarded(remote, addrs, now);
                let lock = match r {
                    ConnectAction::Resolve { permit, .. } => SessionLock::Permit(permit),
                    ConnectAction::Wait(awaiting) => SessionLock::Wait(awaiting),
                    _ => arbitrary(),
                };
                &&& after.step == ConnectStep::Establishing(remote)
                &&& after_m == with_registry(m, after_m.registry)
                &&& r is Resolve || r is Wait
                &&& r matches ConnectAction::Resolve { dont_use: left_out, .. } ==> left_out@
                    == dont_use
                &&& locked(
                    guarded,
                    guarded.view_at(index),
                    SessionState::Outgoing(InitState::ConnectIntent),
                    after_m.registry,
                    lock,
                )
            }
        },
    }
}

/// What a step of a request for a way to a node leaves behind and does.
pub open spec fn connect_stepped(
    m: LayerModel,
    before: Connecting,
    event: ConnectEvent,
    now: i64,
    after_m: LayerModel,
    after: Connecting,
    r: ConnectAction,
) -> bool {
    let node_id = before.node_id;
    &&& after.node_id == node_id
    &&& after.dont_use == before.dont_use
    &&& match (before.step, event) {
        (ConnectStep::Begin, ConnectEvent::Begin) => {
            &&& after_m == m
            &&& match sender_for(m, node_id) {
                Some(sender) => if m.registry.by_node_id.contains_key(node_id) {
                    after.step == ConnectStep::Awaiting(sender) && r
                        == ConnectAction::AwaitConnected(
                        NodeAwaiting {
                            registry: m.registry.view_at(m.registry.by_node_id[node_id]),
                        },
                    )
                } else {
                    after.step == ConnectStep::Done && (r matches ConnectAction::Finish {
                        result: Err(SessionError::Internal(text)),
                        watch: None,
                    } && text@ == "Entry for Node ["@ + node_id.text()
                        + "] not found, despite it should exits."@)
                },
                None => after.step == ConnectStep::Querying && r is QueryInfo,
            }
        },
        (ConnectStep::Awaiting(sender), ConnectEvent::Connected(result)) => {
            &&& after_m == m
            &&& returned(
                after,
                r,
                match result {
                    Ok(_) => Ok(sender),
                    Err(e) => Err(e),
                },
            )
        },
        (ConnectStep::Querying, ConnectEvent::Info(info)) => info_stepped(
            m,
            node_id,
            before.dont_use@,
            info,
            now,
            after_m,
            after,
            r,
        ),
        (ConnectStep::Establishing(remote), ConnectEvent::Established(result)) => {
            &&& after_m == m
            &&& after.step == ConnectStep::Done
            &&& match result {
                Err(e) => r matches ConnectAction::Finish {
                    result: Err(SessionError::Generic(text)),
                    watch: None,
                } && text@ == e.text(),
                Ok(session) => match sender_for(m, node_id) {
                    Some(sender) => r == (ConnectAction::Finish {
                        result: Ok::<RoutingSender, SessionError>(sender),
                        watch: Some(session),
                    }),
                    None => r matches ConnectAction::Finish {
                        result: Err(SessionError::Internal(text)),
                        watch: Some(s),
                    } && s == session && text@ == "Session with ["@ + remote.text()
                        + "] closed immediately after establishing."@,
                },
            }
        },
        _ => after_m == m && after.step == before.step && r is Ignore,
    }
}

/// Text around the id of a node.
pub fn about(before: &str, id: &NodeId, after: &str) -> (r: String)
    ensures
        r@ == before@ + id.text() + after@,
{
    let mut m = owned(before);
    id.push_text(&mut m);
    m.append(after);
    m
}

impl SessionLayer {
    /// Takes the next step of a request for a way to a node. The way is the best that there is,
    /// and a session is established where there is none.
    pub fn session_filtered_connection_methods(
        &mut self,
        request: &mut Connecting,
        event: ConnectEvent,
        now: i64,
    ) -> (r: ConnectAction)
        requires
            old(self)@.wf(),
            old(self)@.registry.nodes.len() < usize::MAX,
        ensures
            final(self)@.wf(),
            connect_stepped(
                old(self)@,
                *old(request),
                event,
                now,
                final(self)@,
                *final(request),
                r,
            ),
    {
        let ghost before = self@;
        let node_id = request.node_id;
        match (request.step, event) {
            (ConnectStep::Begin, ConnectEvent::Begin) => match self.get_node_routing(node_id) {
                Some(sender) => match self.await_connected(node_id) {
                    Ok(awaiting) => {
                        request.step = ConnectStep::Awaiting(sender);
                        ConnectAction::AwaitConnected(awaiting)
                    },
                    Err(e) => {
                        request.step = ConnectStep::Done;
                        ConnectAction::Finish { result: Err(e), watch: None }
                    },
                },
                None => {
                    request.step = ConnectStep::Querying;
                    ConnectAction::QueryInfo
                },
            },
            (ConnectStep::Awaiting(sender), ConnectEvent::Connected(result)) => {
                request.step = ConnectStep::Done;
                let result = match result {
                    Ok(_) => Ok(sender),
                    Err(e) => Err(e),
                };
                ConnectAction::Finish { result, watch: None }
            },
            (ConnectStep::Querying, ConnectEvent::Info(info)) => {
                self.lock_session(request, info, now)
            },
            (ConnectStep::Establishing(remote_id), ConnectEvent::Established(result)) => {
                request.step = ConnectStep::Done;
                match result {
                    Err(e) => ConnectAction::Finish {
                        result: Err(SessionError::Generic(e.to_text())),
                        watch: None,
                    },
                    Ok(session) => match self.get_node_routing(node_id) {
                        Some(sender) => ConnectAction::Finish {
                            result: Ok(sender),
                            watch: Some(session),
                        },
                        None => ConnectAction::Finish {
                            result: Err(
                                SessionError::Internal(
                                    about(
                                        "Session with [",
                                        &remote_id,
                                        "] closed immediately after establishing.",
                                    ),
                                ),
                            ),
                            watch: Some(session),
                        },
                    },
                }
            },
            _ => ConnectAction::Ignore,
        }
    }

    fn lock_session(
        &mut self,
        request: &mut Connecting,
        info: Result<NodeInfo, String>,
        now: i64,
    ) -> (r: ConnectAction)
        requires
            old(self)@.wf(),
            old(self)@.registry.nodes.len() < usize::MAX,
        ensures
            final(self)@.wf(),
            final(request).node_id == old(request).node_id,
            final(request).dont_use == old(request).dont_use,
            info_stepped(
                old(self)@,
                old(request).node_id,
                old(request).dont_use@,
                info,
                now,
                final(self)@,
                *final(request),
                r,
            ),
    {
        let ghost before = self@;
        let node_id = request.node_id;
        request.step = ConnectStep::Done;
        let info = match info {
            Ok(info) => info,
            Err(e) => {
                let mut m = about("Error querying node ", &node_id, ": ");
                m.append(e.as_str());
                assert(m@ =~= "Error querying node "@ + node_id.text() + ": "@ + e@);
                return ConnectAction::Finish {
                    result: Err(SessionError::NotFound(m)),
                    watch: None,
                };
            },
        };
        if info.identities.len() == 0 {
            return ConnectAction::Finish {
                result: Err(
                    SessionError::Unexpected(
                        about("No default id from relay response for [", &node_id, "]"),
                    ),
                ),
                watch: None,
            };
        }
        let remote_id = info.identities[0].node_id;
        if remote_id == self.config.node_id {
            return ConnectAction::Finish {
                result: Err(
                    SessionError::BadRequest(
                        about("Remote id [", &remote_id, "] belongs to this node."),
                    ),
                ),
                watch: None,
            };
        }
        request.step = ConnectStep::Establishing(remote_id);
        let addrs = self.filter_own_addresses(&info.endpoints);
        let lock = self.registry.lock_outgoing(remote_id, &addrs, now);
        proof {
            lemma_links_kept(before, self@);
            assert(self@ =~= with_registry(before, self@.registry));
        }
        match lock {
            SessionLock::Permit(permit) => ConnectAction::Resolve {
                permit,
                dont_use: copy_list(&request.dont_use),
            },
            SessionLock::Wait(awaiting) => ConnectAction::Wait(awaiting),
        }
    }

    /// The means to wait until the session with a node that is registered already is ready.
    pub fn await_connected(&self, node_id: NodeId) -> (r: Result<NodeAwaiting, SessionError>)
        requires
            self@.wf(),
        ensures
            if self@.registry.by_node_id.contains_key(node_id) {
                r == Ok::<NodeAwaiting, SessionError>(
                    NodeAwaiting {
                        registry: self@.registry.view_at(self@.registry.by_node_id[node_id]),
                    },
                )
            } else {
                r matches Err(SessionError::Internal(text)) && text@ == "Entry for Node ["@
                    + node_id.text() + "] not found, despite it should exits."@
            },
    {
        match self.registry.get_entry(node_id) {
            Some(entry) => Ok(entry.awaiting_notifier()),
            None => Err(
                SessionError::Internal(
                    about(
                        "Entry for Node [",
                        &node_id,
                        "] not found, despite it should exits.",
                    ),
                ),
            ),
        }
    }
}

/// How a session with the relay server is got.
pub enum ServerAction {
    /// Establishes it under a permit, at the given address.
    Establish { permit: SessionPermit, node_id: NodeId, addr: SocketAddr },
    /// Waits for the session that someone else establishes.
    Wait(NodeAwaiting),
    /// It is there.
    Ready(SessionHandle),
}

/// What a request for the session with the relay server comes to.
pub struct ServerReady {
    pub result: Result<SessionHandle, SessionError>,
    /// Session to close when an answer over it says that this node is not authorized.
    pub watch: Option<SessionHandle>,
}

impl SessionLayer {
    /// Looks for the session with the relay server. The server goes under the zero id.
    pub fn server_session(&mut self, now: i64) -> (r: ServerAction)
        requires
            old(self)@.wf(),
            old(self)@.registry.nodes.len() < usize::MAX,
        ensures
            final(self)@.wf(),
            ({
                let m = old(self)@;
                let addr = m.config.srv_addr;
                if m.p2p_sessions.contains_key(addr) {
                    final(self)@ == m && r == ServerAction::Ready(m.p2p_sessions[addr])
                } else {
                    let (guarded, index) = m.registry.guarded(NodeId::zero(), seq![addr], now);
                    let lock = match r {
                        ServerAction::Establish { permit, .. } => SessionLock::Permit(permit),
                        ServerAction::Wait(awaiting) => SessionLock::Wait(awaiting),
                        _ => arbitrary(),
                    };
                    &&& r is Establish || r is Wait
                    &&& r matches ServerAction::Establish { node_id, addr: a, .. } ==> node_id
                        == NodeId::zero() && a == addr
                    &&& final(self)@ == with_registry(m, final(self)@.registry)
                    &&& locked(
                        guarded,
                        guarded.view_at(index),
                        SessionState::Outgoing(InitState::ConnectIntent),
                        final(self)@.registry,
                        lock,
                    )
                }
            }),
    {
        let ghost before = self@;
        let addr = self.config.srv_addr;
        match self.find_session(addr) {
            Some(session) => {
                return ServerAction::Ready(session);
            },
            None => {},
        }
        let remote_id = NodeId::default();
        let mut addrs: Vec<SocketAddr> = Vec::new();
        addrs.push(addr);
        assert(addrs@ =~= seq![addr]);
        let lock = self.registry.lock_outgoing(remote_id, &addrs, now);
        proof {
            lemma_links_kept(before, self@);
            assert(self@ =~= with_registry(before, self@.registry));
        }
        match lock {
            SessionLock::Permit(permit) => ServerAction::Establish {
                permit,
                node_id: remote_id,
                addr,
            },
            SessionLock::Wait(awaiting) => ServerAction::Wait(awaiting),
        }
    }

    /// The session with the relay server, by whoever it was established. Whoever established it or
    /// waited for it watches it for the answer that this node is not authorized, on which it is
    /// closed.
    pub fn server_established(result: Result<SessionHandle, SessionError>) -> (r: ServerReady)
        ensures
            match result {
                Ok(session) => r == (ServerReady {
                    result: Ok::<SessionHandle, SessionError>(session),
                    watch: Some(session),
                }),
                Err(e) => r.watch is None && (r.result matches Err(SessionError::Generic(text))
                    && text@ == e.text()),
            },
    {
        match result {
            Ok(session) => ServerReady { result: Ok(session), watch: Some(session) },
            Err(e) => ServerReady {
                result: Err(SessionError::Generic(e.to_text())),
                watch: None,
            },
        }
    }

    /// Takes over the outcome of a handshake with the relay server, and what registering endpoints
    /// with it gave: those under which the server sees this node, as far as they could be read.
    /// Any endpoint means that this node has a public address, and the first one is it. Returns
    /// beside the session whether there was one.
    pub fn try_server_session(
        &mut self,
        outcome: Result<SessionHandle, SessionInitError>,
        endpoints: Result<Vec<Option<SocketAddr>>, SessionError>,
    ) -> (r: Result<(SessionHandle, bool), SessionError>)
        requires
            old(self)@.wf(),
        ensures
            final(self)@.wf(),
            if old(self)@.protocol is None {
                final(self)@ == old(self)@ && (r matches Err(SessionError::Internal(m)) && m@
                    == "`SessionProtocol` empty (not initialized?)"@)
            } else {
                match (outcome, endpoints) {
                    (Err(e), _) => final(self)@ == old(self)@ && r == Err::<
                        (SessionHandle, bool),
                        SessionError,
                    >(e.inner()),
                    (Ok(_), Err(e)) => final(self)@ == old(self)@ && r == Err::<
                        (SessionHandle, bool),
                        SessionError,
                    >(e),
                    (Ok(session), Ok(list)) => {
                        let found = first_some(list@);
                        &&& r == Ok::<(SessionHandle, bool), SessionError>((session, found is Some))
                        &&& final(self)@ == match found {
                            Some(addr) => LayerModel { public_addr: Some(addr), ..old(self)@ },
                            None => old(self)@,
                        }
                    },
                }
            },
    {
        match self.get_protocol() {
            Ok(_) => {},
            Err(e) => {
                return Err(e);
            },
        }
        let session = match outcome {
            Ok(session) => session,
            Err(e) => {
                return Err(SessionError::from_init(e));
            },
        };
        let endpoints = match endpoints {
            Ok(endpoints) => endpoints,
            Err(e) => {
                return Err(e);
            },
        };
        match first_endpoint(&endpoints) {
            Some(addr) => {
                self.set_public_addr(Some(addr));
                Ok((session, true))
            },
            None => Ok((session, false)),
        }
    }
}

/// The first endpoint of a list that could be read.
pub fn first_endpoint(endpoints: &Vec<Option<SocketAddr>>) -> (r: Option<SocketAddr>)
    ensures
        r == first_some(endpoints@),
{
    let mut i: usize = 0;
    assert(endpoints@.skip(0) =~= endpoints@);
    while i < endpoints.len()
        invariant
            0 <= i <= endpoints@.len(),
            first_some(endpoints@) == first_some(endpoints@.skip(i as int)),
        decreases endpoints@.len() - i,
    {
        assert(endpoints@.skip(i as int)[0] == endpoints@[i as int]);
        assert(endpoints@.skip(i as int).skip(1) =~= endpoints@.skip(i + 1));
        if endpoints[i].is_some() {
            return endpoints[i];
        }
        i += 1;
    }
    assert(endpoints@.skip(i as int) =~= Seq::empty());
    None
}

/// The first value of a list that is there.
pub open spec fn first_some(list: Seq<Option<SocketAddr>>) -> Option<SocketAddr>
    decreases list.len(),
{
    if list.len() == 0 {
        None
    } else if list[0] is Some {
        list[0]
    } else {
        first_some(list.skip(1))
    }
}

/// Which way is tried after another, if it may be used. `None` stands before the first.
pub open spec fn next_method(
    last: Option<ConnectionMethod>,
    dont_use: Seq<ConnectionMethod>,
) -> Option<ConnectionMethod> {
    if last is None && !dont_use.contains(ConnectionMethod::Direct) {
        Some(ConnectionMethod::Direct)
    } else if (last is None || last == Some(ConnectionMethod::Direct)) && !dont_use.contains(
        ConnectionMethod::Reverse,
    ) {
        Some(ConnectionMethod::Reverse)
    } else if last != Some(ConnectionMethod::Relay) && !dont_use.contains(
        ConnectionMethod::Relay,
    ) {
        Some(ConnectionMethod::Relay)
    } else {
        None
    }
}

/// What is next in the search for a way to a node.
pub enum ResolveAction {
    /// Tries a way.
    Try(ConnectionMethod),
    /// Returns. `established` is the way that led to the session, to be reported.
    Finish {
        result: Result<SessionHandle, SessionError>,
        established: Option<ConnectionMethod>,
    },
}

/// What has become of the last way that was tried in the search for a way to a node.
pub enum ResolveEvent {
    Begin,
    Succeeded(ConnectionMethod, SessionHandle),
    Failed(ConnectionMethod),
}

/// The next way is tried, or none is left.
pub open spec fn tries_next(
    node_id: NodeId,
    last: Option<ConnectionMethod>,
    dont_use: Seq<ConnectionMethod>,
    r: ResolveAction,
) -> bool {
    match next_method(last, dont_use) {
        Some(method) => r == ResolveAction::Try(method),
        None => r matches ResolveAction::Finish {
            result: Err(SessionError::Generic(text)),
            established: None,
        } && text@ == "All attempts to establish session with node ["@ + node_id.text()
            + "] failed"@,
    }
}

/// What a step in the search for a way to a node leaves behind and does.
pub open spec fn resolve_stepped(
    m: NetworkModel,
    permit: SessionPermit,
    node_id: NodeId,
    dont_use: Seq<ConnectionMethod>,
    event: ResolveEvent,
    after: NetworkModel,
    r: ResolveAction,
) -> bool {
    match event {
        ResolveEvent::Begin => after == m && tries_next(node_id, None, dont_use, r),
        ResolveEvent::Succeeded(method, session) => after == m && r == (ResolveAction::Finish {
            result: Ok::<SessionHandle, SessionError>(session),
            established: Some(method),
        }),
        ResolveEvent::Failed(method) => if method == ConnectionMethod::Relay {
            after == m && tries_next(node_id, Some(method), dont_use, r)
        } else {
            let state = m.nodes[permit.registry.index as int].state;
            if state_allowed(state, SessionState::RestartConnect) {
                &&& after == m.with_state(permit.registry.index, SessionState::RestartConnect)
                &&& tries_next(node_id, Some(method), dont_use, r)
            } else {
                &&& after == m
                &&& r matches ResolveAction::Finish {
                    result: Err(SessionError::Internal(text)),
                    established: None,
                } && text@ == TransitionError::InvalidTransition(
                    state,
                    SessionState::RestartConnect,
                ).text()
            }
        },
    }
}

fn not_used(dont_use: &Vec<ConnectionMethod>, method: ConnectionMethod) -> (r: bool)
    ensures
        r == dont_use@.contains(method),
{
    let mut i: usize = 0;
    while i < dont_use.len()
        invariant
            0 <= i <= dont_use@.len(),
            forall|j: int| 0 <= j < i ==> dont_use@[j] != method,
        decreases dont_use@.len() - i,
    {
        if dont_use[i] == method {
            return true;
        }
        i += 1;
    }
    false
}

fn next_try(
    node_id: &NodeId,
    last: Option<ConnectionMethod>,
    dont_use: &Vec<ConnectionMethod>,
) -> (r: ResolveAction)
    ensures
        tries_next(*node_id, last, dont_use@, r),
{
    let (direct, reverse, relay) = match last {
        None => (true, true, true),
        Some(ConnectionMethod::Direct) => (false, true, true),
        Some(ConnectionMethod::Reverse) => (false, false, true),
        Some(ConnectionMethod::Relay) => (false, false, false),
    };
    if direct && !not_used(dont_use, ConnectionMethod::Direct) {
        ResolveAction::Try(ConnectionMethod::Direct)
    } else if reverse && !not_used(dont_use, ConnectionMethod::Reverse) {
        ResolveAction::Try(ConnectionMethod::Reverse)
    } else if relay && !not_used(dont_use, ConnectionMethod::Relay) {
        ResolveAction::Try(ConnectionMethod::Relay)
    } else {
        ResolveAction::Finish {
            result: Err(
                SessionError::Generic(
                    about(
                        "All attempts to establish session with node [",
                        node_id,
                        "] failed",
                    ),
                ),
            ),
            established: None,
        }
    }
}

/// An attempt to connect directly to one address of a node after the other.
pub struct DirectAttempt {
    pub node_id: NodeId,
    /// Addresses that were not tried yet.
    pub addrs: Vec<SocketAddr>,
}

/// What is next in an attempt to connect directly.
pub enum DirectAction {
    /// Starts a handshake with an address.
    Init(SocketAddr),
    Finish(Result<SessionHandle, SessionError>),
}

impl DirectAttempt {
    /// Takes the outcome of the handshake with the last address, if there was one already. The
    /// first address that a session is established with ends the attempt.
    pub fn step(&mut self, last: Option<Result<SessionHandle, SessionInitError>>) -> (r:
        DirectAction)
        ensures
            final(self).node_id == old(self).node_id,
            match last {
                Some(Ok(session)) => *final(self) == *old(self) && r == DirectAction::Finish(
                    Ok::<SessionHandle, SessionError>(session),
                ),
                _ => if old(self).addrs@.len() > 0 {
                    r == DirectAction::Init(old(self).addrs@[0]) && final(self).addrs@ == old(
                        self,
                    ).addrs@.skip(1)
                } else {
                    final(self).addrs@ == old(self).addrs@ && (r matches DirectAction::Finish(
                        Err(SessionError::Generic(text)),
                    ) && text@ == "All attempts to establish direct session with node ["@ + old(
                        self,
                    ).node_id.text() + "] failed"@)
                },
            },
    {
        match last {
            Some(Ok(session)) => {
                return DirectAction::Finish(Ok(session));
            },
            _ => {},
        }
        if self.addrs.len() > 0 {
            let addr = self.addrs.remove(0);
            assert(self.addrs@ =~= old(self).addrs@.skip(1));
            return DirectAction::Init(addr);
        }
        DirectAction::Finish(
            Err(
                SessionError::Generic(
                    about(
                        "All attempts to establish direct session with node [",
                        &self.node_id,
                        "] failed",
                    ),
                ),
            ),
        )
    }
}

impl SessionLayer {
    /// Takes the next step in the search for a way to a node: direct sessions first, then a
    /// reverse connection, and a relay as the last resort. Ways in `dont_use` are left out. That
    /// is necessary when a reverse connection was asked for, since nodes could go on asking each
    /// other for it for ever otherwise.
    pub fn resolve(
        &mut self,
        node_id: NodeId,
        permit: &SessionPermit,
        dont_use: &Vec<ConnectionMethod>,
        event: ResolveEvent,
    ) -> (r: ResolveAction)
        requires
            old(self)@.wf(),
            old(self)@.registry.has(permit.registry),
        ensures
            final(self)@.wf(),
            final(self)@ == with_registry(old(self)@, final(self)@.registry),
            resolve_stepped(
                old(self)@.registry,
                *permit,
                node_id,
                dont_use@,
                event,
                final(self)@.registry,
                r,
            ),
    {
        let ghost before = self@;
        match event {
            ResolveEvent::Begin => next_try(&node_id, None, dont_use),
            ResolveEvent::Succeeded(method, session) => ResolveAction::Finish {
                result: Ok(session),
                established: Some(method),
            },
            ResolveEvent::Failed(method) => {
                let restart = match method {
                    ConnectionMethod::Relay => false,
                    _ => true,
                };
                if restart {
                    let result = permit.registry.transition(
                        &mut self.registry,
                        SessionState::RestartConnect,
                    );
                    proof {
                        lemma_links_kept(before, self@);
                        assert(self@ =~= with_registry(before, self@.registry));
                    }
                    match result {
                        Ok(_) => {},
                        Err(e) => {
                            assert(self@.registry.nodes =~= before.registry.nodes);
                            return ResolveAction::Finish {
                                result: Err(SessionError::from_transition(&e)),
                                established: None,
                            };
                        },
                    }
                }
                next_try(&node_id, Some(method), dont_use)
            },
        }
    }

    /// Starts an attempt to connect directly to a node, which must have public addresses.
    pub fn try_direct_session(&self, node_id: NodeId, permit: &SessionPermit) -> (r: Result<
        DirectAttempt,
        SessionError,
    >)
        requires
            self@.wf(),
            self@.registry.has(permit.registry),
        ensures
            ({
                let addrs = self@.registry.nodes[permit.registry.index as int].addresses;
                if self@.protocol is None {
                    r matches Err(SessionError::Internal(m)) && m@
                        == "`SessionProtocol` empty (not initialized?)"@
                } else if addrs.len() == 0 {
                    r matches Err(SessionError::NotApplicable(m)) && m@ == "Node ["@
                        + node_id.text() + "] has no public endpoints."@
                } else {
                    r matches Ok(attempt) && attempt.node_id == node_id && attempt.addrs@ == addrs
                }
            }),
    {
        match self.get_protocol() {
            Ok(_) => {},
            Err(e) => {
                return Err(e);
            },
        }
        let addrs = permit.registry.public_addresses(&self.registry);
        if addrs.len() == 0 {
            return Err(
                SessionError::NotApplicable(
                    about("Node [", &node_id, "] has no public endpoints."),
                ),
            );
        }
        Ok(DirectAttempt { node_id, addrs })
    }
}

/// Every way that may be used is tried once at most, in a fixed order, and the search comes to an
/// end.
pub proof fn lemma_ways_are_tried_in_order(
    last: Option<ConnectionMethod>,
    dont_use: Seq<ConnectionMethod>,
)
    ensures
        next_method(last, dont_use) matches Some(next) ==> !dont_use.contains(next) && (
        last matches Some(l) ==> l.number() < next.number()),
        next_method(Some(ConnectionMethod::Relay), dont_use) is None,
{
}

/// A node that was asked to connect back tries a direct session only.
pub proof fn lemma_reverse_request_is_answered_directly(dont_use: Seq<ConnectionMethod>)
    requires
        dont_use == seq![ConnectionMethod::Reverse, ConnectionMethod::Relay],
    ensures
        next_method(None, dont_use) == Some(ConnectionMethod::Direct),
        next_method(Some(ConnectionMethod::Direct), dont_use) is None,
{
    assert(dont_use[0] == ConnectionMethod::Reverse);
    assert(dont_use[1] == ConnectionMethod::Relay);
}

/// What `humantime::format_duration` makes of so many milliseconds.
pub uninterp spec fn duration_text_of(millis: u64) -> Seq<char>;

/// Calls `humantime::format_duration`, and gives the text of what it returns. The text depends on
/// the duration alone.
#[verifier::external_body]
fn duration_text(millis: u64) -> (r: String)
    ensures
        r@ == duration_text_of(millis),
{
    humantime::format_duration(std::time::Duration::from_millis(millis)).to_string()
}

/// How far a request for a reverse connection has got.
#[derive(Clone, Copy, Debug, PartialEq, Eq, Structural)]
pub enum ReverseStep {
    Begin,
    /// The session with the relay server is being got.
    Server,
    /// The relay server is being told.
    Requesting,
    /// Any message of the other node is being waited for. That need not take long, and other ways
    /// can be tried soon where none comes.
    Handshake,
    /// The end of the handshake is being waited for. The other node is responsive.
    Finishing,
    Done,
}

/// What a request for a reverse connection hears of.
pub enum ReverseEvent {
    Begin,
    Server(Result<SessionHandle, SessionError>),
    Requested(Result<(), SessionError>),
    /// A message of the other node came in, or none will.
    Handshake(Result<(), SessionError>),
    /// No message of the other node came in in time. Says how that shows.
    NoHandshake(String),
    Finished(Result<SessionHandle, SessionError>),
    /// The handshake did not end in time.
    NotFinished,
}

/// What a request for a reverse connection does next.
pub enum ReverseAction {
    /// Gets the session with the relay server. Changes of the session with the node must be
    /// listened to from now on, so that the incoming connection is not missed.
    GetServer(NodeAwaiting),
    /// Asks the relay server to tell the other node.
    Request { server: SessionHandle, node_id: NodeId },
    /// Waits for a message of the other node, for so many milliseconds at most.
    AwaitHandshake(u64),
    /// Waits for the end of the handshake, for so many milliseconds at most.
    AwaitFinish(u64),
    Finish(Result<SessionHandle, SessionError>),
    /// The event does not belong to the step.
    Ignore,
}

/// A request for a reverse connection with a node.
pub struct ReverseAttempt {
    pub node_id: NodeId,
    pub step: ReverseStep,
}

/// The request for a reverse connection is over with an error.
pub open spec fn reverse_failed(after: ReverseAttempt, r: ReverseAction, e: SessionError) -> bool {
    after.step == ReverseStep::Done && r == ReverseAction::Finish(
        Err::<SessionHandle, SessionError>(e),
    )
}

/// What a step of a request for a reverse connection leaves behind and does.
pub open spec fn reverse_stepped(
    m: LayerModel,
    permit: SessionPermit,
    before: ReverseAttempt,
    event: ReverseEvent,
    after_m: LayerModel,
    after: ReverseAttempt,
    r: ReverseAction,
) -> bool {
    let node_id = before.node_id;
    let index = permit.registry.index;
    &&& after.node_id == node_id
    &&& match (before.step, event) {
        (ReverseStep::Begin, ReverseEvent::Begin) => {
            let state = m.registry.nodes[index as int].state;
            let target = SessionState::ReverseConnection(ReverseState::Awaiting);
            if m.public_addr is None {
                &&& after_m == m
                &&& after.step == ReverseStep::Done
                &&& r matches ReverseAction::Finish(Err(SessionError::NotApplicable(text))) && text@
                    == "We don't have public endpoints."@
            } else if state_allowed(state, target) {
                &&& after_m == with_registry(m, m.registry.with_state(index, target))
                &&& after.step == ReverseStep::Server
                &&& r == ReverseAction::GetServer(NodeAwaiting { registry: permit.registry })
            } else {
                &&& after_m == m
                &&& after.step == ReverseStep::Done
                &&& r matches ReverseAction::Finish(Err(SessionError::Internal(text))) && text@
                    == TransitionError::InvalidTransition(state, target).text()
            }
        },
        (ReverseStep::Server, ReverseEvent::Server(result)) => {
            &&& after_m == m
            &&& match result {
                Ok(server) => after.step == ReverseStep::Requesting && r
                    == (ReverseAction::Request { server, node_id }),
                Err(e) => reverse_failed(after, r, e),
            }
        },
        (ReverseStep::Requesting, ReverseEvent::Requested(result)) => {
            &&& after_m == m
            &&& match result {
                Ok(_) => after.step == ReverseStep::Handshake && r
                    == ReverseAction::AwaitHandshake(m.config.reverse_connection_tmp_timeout),
                Err(e) => reverse_failed(after, r, e),
            }
        },
        (ReverseStep::Handshake, ReverseEvent::Handshake(result)) => {
            &&& after_m == m
            &&& match result {
                Ok(_) => after.step == ReverseStep::Finishing && r == ReverseAction::AwaitFinish(
                    m.config.reverse_connection_real_timeout,
                ),
                Err(e) => reverse_failed(after, r, e),
            }
        },
        (ReverseStep::Handshake, ReverseEvent::NoHandshake(e)) => {
            &&& after_m == m
            &&& after.step == ReverseStep::Done
            &&& r matches ReverseAction::Finish(Err(SessionError::Timeout(text))) && text@
                == "Timeout ("@ + duration_text_of(m.config.reverse_connection_tmp_timeout)
                + ") elapsed when waiting for `ReverseConnection` handshake. "@ + e@
        },
        (ReverseStep::Finishing, ReverseEvent::Finished(result)) => {
            &&& after_m == m
            &&& after.step == ReverseStep::Done
            &&& r == ReverseAction::Finish(result)
        },
        (ReverseStep::Finishing, ReverseEvent::NotFinished) => {
            &&& after_m == m
            &&& after.step == ReverseStep::Done
            &&& r matches ReverseAction::Finish(Err(SessionError::Timeout(text))) && text@
                == "Not able to setup ReverseConnection within timeout with node: ["@
                + node_id.text() + "]"@
        },
        _ => after_m == m && after.step == before.step && r is Ignore,
    }
}

/// Text of the error for a reverse connection that nothing was heard of in time.
fn no_handshake(timeout: u64, reason: &String) -> (r: String)
    ensures
        r@ == "Timeout ("@ + duration_text_of(timeout)
            + ") elapsed when waiting for `ReverseConnection` handshake. "@ + reason@,
{
    let mut m = owned("Timeout (");
    let duration = duration_text(timeout);
    m.append(duration.as_str());
    m.append(") elapsed when waiting for `ReverseConnection` handshake. ");
    m.append(reason.as_str());
    assert(m@ =~= "Timeout ("@ + duration_text_of(timeout)
        + ") elapsed when waiting for `ReverseConnection` handshake. "@ + reason@);
    m
}

impl SessionLayer {
    /// Takes the next step of a request for a reverse connection: a node without a public address
    /// is asked, through the relay server, to connect to this one.
    pub fn try_reverse_connection(
        &mut self,
        attempt: &mut ReverseAttempt,
        permit: &SessionPermit,
        event: ReverseEvent,
    ) -> (r: ReverseAction)
        requires
            old(self)@.wf(),
            old(self)@.registry.has(permit.registry),
        ensures
            final(self)@.wf(),
            reverse_stepped(
                old(self)@,
                *permit,
                *old(attempt),
                event,
                final(self)@,
                *final(attempt),
                r,
            ),
    {
        let ghost before = self@;
        let node_id = attempt.node_id;
        match (attempt.step, event) {
            (ReverseStep::Begin, ReverseEvent::Begin) => {
                attempt.step = ReverseStep::Done;
                if self.public_addr.is_none() {
                    return ReverseAction::Finish(
                        Err(SessionError::NotApplicable(owned("We don't have public endpoints."))),
                    );
                }
                let awaiting = permit.registry.awaiting_notifier();
                let result = permit.registry.transition(
                    &mut self.registry,
                    SessionState::ReverseConnection(ReverseState::Awaiting),
                );
                proof {
                    lemma_links_kept(before, self@);
                }
                match result {
                    Ok(_) => {
                        attempt.step = ReverseStep::Server;
                        assert(self@ =~= with_registry(before, self@.registry));
                        ReverseAction::GetServer(awaiting)
                    },
                    Err(e) => {
                        assert(self@.registry.nodes =~= before.registry.nodes);
                        assert(self@ =~= before);
                        ReverseAction::Finish(Err(SessionError::from_transition(&e)))
                    },
                }
            },
            (ReverseStep::Server, ReverseEvent::Server(result)) => match result {
                Ok(server) => {
                    attempt.step = ReverseStep::Requesting;
                    ReverseAction::Request { server, node_id }
                },
                Err(e) => {
                    attempt.step = ReverseStep::Done;
                    ReverseAction::Finish(Err(e))
                },
            },
            (ReverseStep::Requesting, ReverseEvent::Requested(result)) => match result {
                Ok(_) => {
                    attempt.step = ReverseStep::Handshake;
                    ReverseAction::AwaitHandshake(self.config.reverse_connection_tmp_timeout)
                },
                Err(e) => {
                    attempt.step = ReverseStep::Done;
                    ReverseAction::Finish(Err(e))
                },
            },
            (ReverseStep::Handshake, ReverseEvent::Handshake(result)) => match result {
                Ok(_) => {
                    attempt.step = ReverseStep::Finishing;
                    ReverseAction::AwaitFinish(self.config.reverse_connection_real_timeout)
                },
                Err(e) => {
                    attempt.step = ReverseStep::Done;
                    ReverseAction::Finish(Err(e))
                },
            },
            (ReverseStep::Handshake, ReverseEvent::NoHandshake(reason)) => {
                attempt.step = ReverseStep::Done;
                let m = no_handshake(self.config.reverse_connection_tmp_timeout, &reason);
                ReverseAction::Finish(Err(SessionError::Timeout(m)))
            },
            (ReverseStep::Finishing, ReverseEvent::Finished(result)) => {
                attempt.step = ReverseStep::Done;
                ReverseAction::Finish(result)
            },
            (ReverseStep::Finishing, ReverseEvent::NotFinished) => {
                attempt.step = ReverseStep::Done;
                ReverseAction::Finish(
                    Err(
                        SessionError::Timeout(
                            about(
                                "Not able to setup ReverseConnection within timeout with node: [",
                                &node_id,
                                "]",
                            ),
                        ),
                    ),
                )
            },
            _ => ReverseAction::Ignore,
        }
    }

    /// Makes known that a relayed connection with a node is set up.
    pub fn begin_relayed_connection(&mut self, permit: &SessionPermit) -> (r: Result<
        (),
        SessionError,
    >)
        requires
            old(self)@.wf(),
            old(self)@.registry.has(permit.registry),
        ensures
            final(self)@.wf(),
            relayed_transition(
                old(self)@,
                *permit,
                RelayedState::Initializing,
                final(self)@,
                r,
            ),
    {
        self.relayed_transition(permit, RelayedState::Initializing)
    }

    fn relayed_transition(&mut self, permit: &SessionPermit, state: RelayedState) -> (r: Result<
        (),
        SessionError,
    >)
        requires
            old(self)@.wf(),
            old(self)@.registry.has(permit.registry),
        ensures
            final(self)@.wf(),
            relayed_transition(old(self)@, *permit, state, final(self)@, r),
    {
        let ghost before = self@;
        let result = permit.registry.transition(&mut self.registry, SessionState::Relayed(state));
        proof {
            lemma_links_kept(before, self@);
        }
        match result {
            Ok(_) => {
                assert(self@ =~= with_registry(before, self@.registry));
                Ok(())
            },
            Err(e) => {
                assert(self@.registry.nodes =~= before.registry.nodes);
                assert(self@ =~= before);
                Err(SessionError::from_transition(&e))
            },
        }
    }

    /// Sets up a connection with a node through the relay server. What is known of the node says
    /// on which slot the server forwards packets to it.
    pub fn try_relayed_connection(
        &mut self,
        permit: &SessionPermit,
        server: Result<SessionHandle, SessionError>,
        encryption: SessionEncryption,
    ) -> (r: Result<SessionHandle, SessionError>)
        requires
            old(self)@.wf(),
            old(self)@.registry.has(permit.registry),
            old(self)@.next_number < u64::MAX,
        ensures
            final(self)@.wf(),
            ({
                let m = old(self)@;
                let node = m.registry.nodes[permit.registry.index as int];
                match server {
                    Err(e) => final(self)@ == m && (r matches Err(SessionError::Relay(text))
                        && text@ == e.text()),
                    Ok(server) => if node.node.len() == 0 {
                        final(self)@ == m && (r matches Err(SessionError::Internal(text)) && text@
                            == "Identities list is empty"@)
                    } else if !m.sessions.contains_key(server) {
                        final(self)@ == m && (r matches Err(SessionError::Unexpected(text))
                            && text@ == "`DirectSession` was closed"@)
                    } else {
                        let done = relayed(m, *permit, server, encryption);
                        let state = node.state;
                        let target = SessionState::Relayed(RelayedState::Ready);
                        if state_allowed(state, target) {
                            r == Ok::<SessionHandle, SessionError>(server) && final(self)@
                                == with_registry(
                                done,
                                done.registry.with_state(permit.registry.index, target),
                            )
                        } else {
                            final(self)@ == done && (r matches Err(SessionError::Internal(text))
                                && text@ == TransitionError::InvalidTransition(
                                state,
                                target,
                            ).text())
                        }
                    },
                }
            }),
    {
        let ghost before = self@;
        let server = match server {
            Ok(server) => server,
            Err(e) => {
                return Err(SessionError::Relay(e.to_text()));
            },
        };
        let slot = permit.registry.slot(&self.registry);
        let authenticated = permit.registry.authenticated_identities(&self.registry);
        let ids = match permit.registry.identities(&self.registry) {
            Ok(ids) => ids,
            Err(e) => {
                return Err(SessionError::Internal(e));
            },
        };
        if !self.is_open(&server) {
            return Err(SessionError::Unexpected(owned("`DirectSession` was closed")));
        }
        let node_ids = ids.to_node_ids();
        proof {
            assert(node_ids@.identities[0] == node_ids@.default_id);
        }
        self.register_forward(server, node_ids, slot);
        let ghost entry = ids@;
        match self.register_routing(
            ids,
            server,
            encryption,
            authenticated,
            permit.generation,
        ) {
            Ok(_) => {},
            Err(e) => {
                return Err(SessionError::Unexpected(e));
            },
        }
        assert(self@ == relayed(before, *permit, server, encryption));
        match self.relayed_transition(permit, RelayedState::Ready) {
            Ok(_) => Ok(server),
            Err(e) => Err(e),
        }
    }
}

/// What moving a relayed connection to another state leaves behind and returns.
pub open spec fn relayed_transition(
    m: LayerModel,
    permit: SessionPermit,
    state: RelayedState,
    after: LayerModel,
    r: Result<(), SessionError>,
) -> bool {
    let before = m.registry.nodes[permit.registry.index as int].state;
    let target = SessionState::Relayed(state);
    if state_allowed(before, target) {
        r is Ok && after == with_registry(m, m.registry.with_state(permit.registry.index, target))
    } else {
        after == m && (r matches Err(SessionError::Internal(text)) && text@
            == TransitionError::InvalidTransition(before, target).text())
    }
}

/// Packets for a node are forwarded by a server, and the node is reached over it under all ids.
pub open spec fn relayed(
    m: LayerModel,
    permit: SessionPermit,
    server: SessionHandle,
    encryption: SessionEncryption,
) -> LayerModel {
    let node = m.registry.nodes[permit.registry.index as int];
    let entry = EntryModel { default_id: node.node[0], identities: node.node };
    with_session(
        m,
        server,
        SessionModel {
            forwards: m.sessions[server].forwards.added(entry_ids(entry), node.slot),
            ..m.sessions[server]
        },
    ).with_routing(
        entry,
        server,
        encryption,
        node.authenticated_identities,
        permit.generation,
    )
}

/// A node behind a relay is reached over the session with the relay: packets for it, under any of
/// its ids, go on the slot that the relay knows it by.
pub proof fn lemma_relayed_node_is_reached(
    m: LayerModel,
    permit: SessionPermit,
    server: SessionHandle,
    encryption: SessionEncryption,
    id: NodeId,
)
    requires
        m.wf(),
        m.sessions.contains_key(server),
        ids_of(m.registry.nodes[permit.registry.index as int].node).contains(id),
    ensures
        ({
            let node = m.registry.nodes[permit.registry.index as int];
            let after = relayed(m, permit, server, encryption);
            &&& after.nodes.contains_key(id)
            &&& after.nodes[id].route == server
            &&& after.nodes[id].generation == permit.generation
            &&& after.sessions[server].forwards.nodes.contains_key(id)
            &&& after.sessions[server].forwards.nodes[id] == node.slot
        }),
{
    let node = m.registry.nodes[permit.registry.index as int];
    let entry = EntryModel { default_id: node.node[0], identities: node.node };
    crate::direct_session::lemma_added_is_found(
        m.sessions[server].forwards,
        entry_ids(entry),
        node.slot,
    );
    assert(entry_ids(entry).identities.contains(id));
}

} // verus!
