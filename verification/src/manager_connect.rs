//! How a node that knows of one relay server finds ways to other nodes.
use vstd::prelude::*;
use vstd::string::*;

use crate::connect::{about, first_endpoint};
#[allow(unused_imports)]
use crate::connect::first_some;
use crate::direct_session::{Forward, RawSession};
use crate::error::{owned, prefixed};
#[allow(unused_imports)]
use crate::manager_events::{forward_handled, sender_entry, ForwardHandled};
use crate::model::{NodeId, NodeInfo, SlotId, SocketAddr, FORWARD_SLOT_ID, INVALID_NODE_ID};
use crate::registry::NodeEntry;
#[allow(unused_imports)]
use crate::registry::node_not_found;
use crate::session_events::readable_endpoints;
#[allow(unused_imports)]
use crate::session_events::{arrived_as, readable, IncomingForward};
use crate::session_guard::{ConnectError, NodeAwaiting};
#[allow(unused_imports)]
use crate::session_guard::not_guarded;
use crate::session_manager::{RemovedNode, SessionManager};
#[allow(unused_imports)]
use crate::session_manager::{channels_of, session_closed, ManagerModel};
use crate::transport_layer::ForwardSender;

verus! {

/// Whether an address is none of this node.
pub open spec fn not_own(m: ManagerModel, addr: SocketAddr) -> bool {
    m.bind_addr != Some(addr) && m.public_addr != Some(addr)
}

/// A node that is being resolved, under the lock that has to be held meanwhile.
pub struct Resolving {
    pub node_id: NodeId,
    /// Addresses to try.
    pub addrs: Vec<SocketAddr>,
    pub lock: u64,
}

/// What follows an attempt to reach a node directly.
pub enum Resolution {
    Finish(Result<NodeEntry, ConnectError>),
    /// The relay server has to forward.
    ServerSession,
}

/// A node that could not be reached directly, and is not to be reached in any other way.
pub open spec fn no_slot(node_id: NodeId) -> Seq<char> {
    "Failed to establish p2p connection with ["@ + node_id.text()
        + "] and relay Server won't be used, since slot = 0."@
}

/// The nodes with one that was reached, under the slot by which it was reached and the one that
/// was asked for.
pub open spec fn reached(
    m: ManagerModel,
    node_id: NodeId,
    session: RawSession,
    slot: SlotId,
    requested: SlotId,
) -> ManagerModel {
    ManagerModel {
        registry: m.registry.with_node(NodeEntry { id: node_id, session, slot }).with_slot(
            node_id,
            requested,
        ),
        ..m
    }
}

impl SessionManager {
    /// Endpoints of a list that can be read and are not addresses of this node.
    pub fn filter_own_addresses(&self, endpoints: &Vec<Option<SocketAddr>>) -> (r: Vec<SocketAddr>)
        ensures
            r@ == readable(endpoints@).filter(|a: SocketAddr| not_own(self@, a)),
    {
        let all = readable_endpoints(endpoints);
        let ghost keep = |a: SocketAddr| not_own(self@, a);
        let mut r: Vec<SocketAddr> = Vec::new();
        let mut i: usize = 0;
        proof {
            reveal(Seq::filter);
            assert(all@.take(0) =~= Seq::empty());
        }
        while i < all.len()
            invariant
                0 <= i <= all@.len(),
                keep == (|a: SocketAddr| not_own(self@, a)),
                r@ == all@.take(i as int).filter(keep),
            decreases all@.len() - i,
        {
            let addr = all[i];
            let own = match self.bind_addr {
                Some(a) => a == addr,
                None => false,
            } || match self.public_addr {
                Some(a) => a == addr,
                None => false,
            };
            proof {
                reveal(Seq::filter);
                let next = all@.take(i + 1);
                assert(next.drop_last() =~= all@.take(i as int));
                assert(next.last() == addr);
            }
            if !own {
                r.push(addr);
            }
            i += 1;
        }
        assert(all@.take(i as int) =~= all@);
        r
    }

    /// Begins to look for a way to a node. The lock that is returned has to be held before
    /// anything else is done.
    pub fn resolve(
        &mut self,
        node_id: &Vec<u8>,
        endpoints: &Vec<Option<SocketAddr>>,
        lock: u64,
    ) -> (r: Result<Resolving, String>)
        requires
            old(self)@.wf(),
        ensures
            final(self)@.wf(),
            match r {
                Ok(resolving) => {
                    let m = old(self)@;
                    &&& node_id@.len() == 20 && resolving.node_id.bytes() == node_id@
                    &&& resolving.node_id != m.config.node_id
                    &&& resolving.addrs@ == readable(endpoints@).filter(
                        |a: SocketAddr| not_own(m, a),
                    )
                    &&& match m.guarded.found(resolving.node_id, resolving.addrs@) {
                        Some(id) => resolving.lock == m.guarded.targets[id].lock && final(self)@
                            == m,
                        None => resolving.lock == lock && final(self)@ == (ManagerModel {
                            guarded: m.guarded.guarding(
                                resolving.node_id,
                                resolving.addrs@,
                                lock,
                            ),
                            ..m
                        }),
                    }
                },
                Err(text) => final(self)@ == old(self)@ && if node_id@.len() != 20 {
                    text@ == INVALID_NODE_ID@
                } else {
                    node_id@ == old(self)@.config.node_id.bytes() && text@
                        == "Remote id belongs to this node."@
                },
            },
    {
        let node_id = match NodeId::try_from_bytes(node_id) {
            Some(id) => id,
            None => {
                return Err(owned(INVALID_NODE_ID));
            },
        };
        if node_id == self.config.node_id {
            return Err(owned("Remote id belongs to this node."));
        }
        let addrs = self.filter_own_addresses(endpoints);
        let lock = self.guarded.guard_initialization(node_id, &addrs, lock);
        Ok(Resolving { node_id, addrs, lock })
    }

    /// Looks, with the lock held, whether there is a way to a node by now. If so, nothing else has
    /// to be done.
    pub fn resolve_locked(&self, node_id: NodeId) -> (r: Option<NodeEntry>)
        ensures
            r == self@.registry.node(node_id),
    {
        match self.registry.resolve_node(node_id) {
            Ok(entry) => Some(entry),
            Err(_) => None,
        }
    }

    fn add_resolved(
        &mut self,
        node_id: NodeId,
        session: RawSession,
        slot: SlotId,
        requested: SlotId,
    ) -> (r: NodeEntry)
        requires
            old(self)@.wf(),
        ensures
            final(self)@.wf(),
            r == (NodeEntry { id: node_id, session, slot }),
            final(self)@ == reached(old(self)@, node_id, session, slot, requested),
    {
        let node = self.registry.add_node(node_id, session, slot);
        self.registry.add_slot_for_node(node_id, requested);
        node
    }

    /// Takes in the outcome of an attempt to reach a node directly. Where it failed for good, or
    /// there is no slot under which the relay server could forward, the node is not reached.
    pub fn try_resolve(
        &mut self,
        node_id: NodeId,
        slot: SlotId,
        direct: Result<RawSession, ConnectError>,
    ) -> (r: Resolution)
        requires
            old(self)@.wf(),
        ensures
            final(self)@.wf(),
            match direct {
                Ok(session) => r == Resolution::Finish(
                    Ok::<NodeEntry, ConnectError>(
                        NodeEntry { id: node_id, session, slot: FORWARD_SLOT_ID },
                    ),
                ) && final(self)@ == reached(old(self)@, node_id, session, FORWARD_SLOT_ID, slot),
                Err(ConnectError::Drop(e)) => r == Resolution::Finish(
                    Err::<NodeEntry, ConnectError>(ConnectError::Drop(e)),
                ) && final(self)@ == old(self)@,
                Err(ConnectError::Retry(_)) => final(self)@ == old(self)@ && if slot
                    == FORWARD_SLOT_ID {
                    r matches Resolution::Finish(Err(ConnectError::Retry(text))) && text@
                        == no_slot(node_id)
                } else {
                    r is ServerSession
                },
            },
    {
        match direct {
            Ok(session) => Resolution::Finish(
                Ok(self.add_resolved(node_id, session, FORWARD_SLOT_ID, slot)),
            ),
            Err(ConnectError::Drop(e)) => Resolution::Finish(Err(ConnectError::Drop(e))),
            Err(ConnectError::Retry(_)) => {
                if slot == FORWARD_SLOT_ID {
                    let text = about(
                        "Failed to establish p2p connection with [",
                        &node_id,
                        "] and relay Server won't be used, since slot = 0.",
                    );
                    return Resolution::Finish(Err(ConnectError::Retry(text)));
                }
                Resolution::ServerSession
            },
        }
    }

    /// Lets the relay server forward to a node that could not be reached directly.
    pub fn resolve_through_server(
        &mut self,
        node_id: NodeId,
        slot: SlotId,
        server: Result<RawSession, String>,
    ) -> (r: Result<NodeEntry, ConnectError>)
        requires
            old(self)@.wf(),
        ensures
            final(self)@.wf(),
            match server {
                Ok(session) => r == Ok::<NodeEntry, ConnectError>(
                    NodeEntry { id: node_id, session, slot },
                ) && final(self)@ == reached(old(self)@, node_id, session, slot, slot),
                Err(e) => r == Err::<NodeEntry, ConnectError>(ConnectError::Retry(e)) && final(
                    self)@ == old(self)@,
            },
    {
        match server {
            Ok(session) => Ok(self.add_resolved(node_id, session, slot, slot)),
            Err(e) => Err(ConnectError::Retry(e)),
        }
    }

    /// Ends the guard over a node, however the look for a way to it ended. Whoever waits for the
    /// lock that is returned has to be told.
    pub fn resolved(&mut self, node_id: NodeId) -> (r: Option<u64>)
        requires
            old(self)@.wf(),
        ensures
            final(self)@.wf(),
            final(self)@ == (ManagerModel {
                guarded: old(self)@.guarded.released(node_id),
                ..old(self)@
            }),
            r == if old(self)@.guarded.targets.contains_key(node_id) {
                Some(old(self)@.guarded.targets[node_id].lock)
            } else {
                None
            },
    {
        self.guarded.stop_guarding(node_id)
    }
}

/// A node to which a way was found is known afterwards, with the session that leads to it. Under
/// the slot that was asked for, if any, it is found as well.
pub proof fn lemma_resolved_node_is_known(
    m: ManagerModel,
    node_id: NodeId,
    session: RawSession,
    slot: SlotId,
    requested: SlotId,
)
    ensures
        reached(m, node_id, session, slot, requested).registry.node(node_id) == Some(
            NodeEntry { id: node_id, session, slot },
        ),
        requested != FORWARD_SLOT_ID ==> reached(
            m,
            node_id,
            session,
            slot,
            requested,
        ).registry.by_slot(requested) == Some(NodeEntry { id: node_id, session, slot }),
{
}

/// A request to reach a node directly.
pub struct DirectTry {
    pub node_id: NodeId,
    pub addrs: Vec<SocketAddr>,
    /// The first address that was not tried yet.
    pub next: usize,
    /// Whether the node may be asked to connect.
    pub try_reverse: bool,
}

/// What a request to reach a node directly hears of.
pub enum DirectEvent {
    Begin,
    /// An address was tried.
    Attempted(Result<RawSession, ConnectError>),
    /// The node was asked to connect.
    Reversed(Result<RawSession, String>),
}

/// What a request to reach a node directly does next.
pub enum DirectNext {
    /// An address is tried.
    InitP2p(SocketAddr),
    /// The node is asked to connect.
    Reverse,
    Finish(Result<RawSession, ConnectError>),
}

/// Text of a failed request to reach a node directly.
pub open spec fn all_failed(node_id: NodeId) -> Seq<char> {
    "All attempts to establish direct session with node ["@ + node_id.text() + "] failed"@
}

/// A request to reach a node directly failed, and another way can be tried.
pub open spec fn direct_failed(h: DirectTry, r: DirectNext) -> bool {
    r matches DirectNext::Finish(Err(ConnectError::Retry(text))) && text@ == all_failed(h.node_id)
}

/// The next way to reach a node directly is tried: first the addresses in their order, then, where
/// this node can be reached itself, the node is asked to connect.
pub open spec fn next_direct(h: DirectTry, m: ManagerModel, after: DirectTry, r: DirectNext) -> bool {
    if h.next < h.addrs@.len() {
        r == DirectNext::InitP2p(h.addrs@[h.next as int]) && after == (DirectTry {
            next: (h.next + 1) as usize,
            ..h
        })
    } else if h.try_reverse && m.public_addr is Some {
        r is Reverse && after == h
    } else {
        direct_failed(h, r) && after == h
    }
}

/// What an event does to a request to reach a node directly.
pub open spec fn direct_stepped(
    h: DirectTry,
    m: ManagerModel,
    event: DirectEvent,
    after: DirectTry,
    r: DirectNext,
) -> bool {
    match event {
        DirectEvent::Begin => next_direct(h, m, after, r),
        DirectEvent::Attempted(Err(ConnectError::Retry(_))) => next_direct(h, m, after, r),
        DirectEvent::Attempted(result) => after == h && r == DirectNext::Finish(result),
        DirectEvent::Reversed(Ok(session)) => after == h && r == DirectNext::Finish(
            Ok::<RawSession, ConnectError>(session),
        ),
        DirectEvent::Reversed(Err(_)) => after == h && direct_failed(h, r),
    }
}

impl DirectTry {
    fn failed(&self) -> (r: DirectNext)
        ensures
            direct_failed(*self, r),
    {
        let text = about(
            "All attempts to establish direct session with node [",
            &self.node_id,
            "] failed",
        );
        DirectNext::Finish(Err(ConnectError::Retry(text)))
    }

    fn go_on(&mut self, manager: &SessionManager) -> (r: DirectNext)
        ensures
            next_direct(*old(self), manager@, *final(self), r),
    {
        if self.next < self.addrs.len() {
            let addr = self.addrs[self.next];
            self.next = self.next + 1;
            DirectNext::InitP2p(addr)
        } else if self.try_reverse && manager.public_addr.is_some() {
            DirectNext::Reverse
        } else {
            self.failed()
        }
    }

    /// Goes on with what happened outside, and says what has to be done next.
    pub fn try_direct_session(&mut self, manager: &SessionManager, event: DirectEvent) -> (r:
        DirectNext)
        ensures
            direct_stepped(*old(self), manager@, event, *final(self), r),
    {
        match event {
            DirectEvent::Begin => self.go_on(manager),
            DirectEvent::Attempted(Err(ConnectError::Retry(_))) => self.go_on(manager),
            DirectEvent::Attempted(result) => DirectNext::Finish(result),
            DirectEvent::Reversed(Ok(session)) => DirectNext::Finish(Ok(session)),
            DirectEvent::Reversed(Err(_)) => self.failed(),
        }
    }
}

/// A request to reach a node directly ends: each step that does not end it leaves fewer addresses,
/// until only the node itself can be asked.
pub proof fn lemma_direct_attempts_end(
    h: DirectTry,
    m: ManagerModel,
    event: DirectEvent,
    after: DirectTry,
    r: DirectNext,
)
    requires
        direct_stepped(h, m, event, after, r),
        r is InitP2p,
    ensures
        after.next == h.next + 1,
        after.next <= after.addrs@.len(),
        after.addrs == h.addrs,
{
    assert(h.addrs@.len() == h.addrs.len());
}

/// Where a request to be connected to by a node stands.
#[derive(Clone, Copy, Debug, PartialEq, Eq, Structural)]
pub enum ReverseWait {
    Start,
    /// The relay server has to be reached.
    Server(NodeAwaiting),
    /// The relay server passes the request on.
    Requesting(NodeAwaiting),
    /// The first message of the node is awaited, for a short time.
    FirstMessage(NodeAwaiting),
    /// The session is awaited, for a longer time.
    Connection(NodeAwaiting),
    Done,
}

/// What a request to be connected to by a node hears of.
pub enum ReverseHeard {
    Begin,
    Server(Result<(), String>),
    Requested(Result<(), String>),
    /// A message came in time, or none did.
    FirstMessage(Result<(), String>),
    /// How the wait for a session ended. Nothing, if time ran out.
    Connection(Option<Option<Result<RawSession, ConnectError>>>),
}

/// What a request to be connected to by a node does next.
pub enum ReverseNext {
    ServerSession,
    Request,
    /// Waits for a message, for a time, which is in milliseconds.
    AwaitFirstMessage { awaiting: NodeAwaiting, timeout: u64 },
    /// Waits for a session, for a time, which is in milliseconds.
    AwaitConnection { awaiting: NodeAwaiting, timeout: u64 },
    Finish(Result<RawSession, String>),
    Ignore,
}

/// Text of a request that a node did not follow in time.
pub open spec fn reverse_timed_out(node_id: NodeId) -> Seq<char> {
    "Not able to setup ReverseConnection within timeout with node: ["@ + node_id.text() + "]"@
}

/// What an event does to a request to be connected to by a node.
pub open spec fn reverse_heard(
    m: ManagerModel,
    node_id: NodeId,
    step: ReverseWait,
    event: ReverseHeard,
    m_after: ManagerModel,
    after: ReverseWait,
    r: ReverseNext,
) -> bool {
    let failed = |e: String|
        after == ReverseWait::Done && r == ReverseNext::Finish(Err::<RawSession, String>(e));
    match (step, event) {
        (ReverseWait::Start, ReverseHeard::Begin) => if m.guarded.targets.contains_key(node_id) {
            let awaiting = NodeAwaiting { lock: m.guarded.targets[node_id].lock };
            &&& m_after == (ManagerModel { guarded: m.guarded.waiting(node_id, true), ..m })
            &&& after == ReverseWait::Server(awaiting)
            &&& r == ReverseNext::ServerSession
        } else {
            &&& m_after == m
            &&& after == ReverseWait::Done
            &&& r matches ReverseNext::Finish(Err(text)) && text@ == not_guarded(node_id)
        },
        (ReverseWait::Server(awaiting), ReverseHeard::Server(result)) => m_after == m
            && match result {
            Ok(_) => after == ReverseWait::Requesting(awaiting) && r == ReverseNext::Request,
            Err(e) => failed(e),
        },
        (ReverseWait::Requesting(awaiting), ReverseHeard::Requested(result)) => m_after == m
            && match result {
            Ok(_) => after == ReverseWait::FirstMessage(awaiting) && r
                == (ReverseNext::AwaitFirstMessage {
                awaiting,
                timeout: m.config.reverse_connection_tmp_timeout,
            }),
            Err(e) => failed(e),
        },
        (ReverseWait::FirstMessage(awaiting), ReverseHeard::FirstMessage(result)) => m_after == m
            && match result {
            Ok(_) => after == ReverseWait::Connection(awaiting) && r
                == (ReverseNext::AwaitConnection {
                awaiting,
                timeout: m.config.reverse_connection_real_timeout,
            }),
            Err(e) => failed(e),
        },
        (ReverseWait::Connection(awaiting), ReverseHeard::Connection(result)) => m_after == m
            && after == ReverseWait::Done && match result {
            None => r matches ReverseNext::Finish(Err(text)) && text@ == reverse_timed_out(node_id),
            Some(None) => r matches ReverseNext::Finish(Err(text)) && text@
                == "Channel error while waiting for connection"@,
            Some(Some(Ok(session))) => r == ReverseNext::Finish(Ok::<RawSession, String>(session)),
            Some(Some(Err(e))) => r matches ReverseNext::Finish(Err(text)) && text@ == e.text(),
        },
        _ => m_after == m && after == step && r == ReverseNext::Ignore,
    }
}

impl SessionManager {
    /// Takes the next step of a request to be connected to by a node.
    pub fn try_reverse_connection(
        &mut self,
        node_id: NodeId,
        step: ReverseWait,
        event: ReverseHeard,
    ) -> (r: (ReverseWait, ReverseNext))
        requires
            old(self)@.wf(),
        ensures
            final(self)@.wf(),
            reverse_heard(old(self)@, node_id, step, event, final(self)@, r.0, r.1),
    {
        match (step, event) {
            (ReverseWait::Start, ReverseHeard::Begin) => {
                match self.guarded.register_waiting_for_node(node_id) {
                    Ok(awaiting) => (ReverseWait::Server(awaiting), ReverseNext::ServerSession),
                    Err(e) => (ReverseWait::Done, ReverseNext::Finish(Err(e))),
                }
            },
            (ReverseWait::Server(awaiting), ReverseHeard::Server(result)) => match result {
                Ok(_) => (ReverseWait::Requesting(awaiting), ReverseNext::Request),
                Err(e) => (ReverseWait::Done, ReverseNext::Finish(Err(e))),
            },
            (ReverseWait::Requesting(awaiting), ReverseHeard::Requested(result)) => match result {
                Ok(_) => (
                    ReverseWait::FirstMessage(awaiting),
                    ReverseNext::AwaitFirstMessage {
                        awaiting,
                        timeout: self.config.reverse_connection_tmp_timeout,
                    },
                ),
                Err(e) => (ReverseWait::Done, ReverseNext::Finish(Err(e))),
            },
            (ReverseWait::FirstMessage(awaiting), ReverseHeard::FirstMessage(result)) => {
                match result {
                    Ok(_) => (
                        ReverseWait::Connection(awaiting),
                        ReverseNext::AwaitConnection {
                            awaiting,
                            timeout: self.config.reverse_connection_real_timeout,
                        },
                    ),
                    Err(e) => (ReverseWait::Done, ReverseNext::Finish(Err(e))),
                }
            },
            (ReverseWait::Connection(awaiting), ReverseHeard::Connection(result)) => {
                let outcome = match result {
                    None => Err(
                        about(
                            "Not able to setup ReverseConnection within timeout with node: [",
                            &node_id,
                            "]",
                        ),
                    ),
                    Some(received) => match awaiting.wait_for_connection(received) {
                        Ok(session) => Ok(session),
                        Err(e) => Err(e.to_text()),
                    },
                };
                (ReverseWait::Done, ReverseNext::Finish(outcome))
            },
            _ => (step, ReverseNext::Ignore),
        }
    }
}

/// Where a request for a session with the relay server stands.
#[derive(Clone, Copy, Debug, PartialEq, Eq, Structural)]
pub enum ServerStep {
    Start,
    Locking,
    Initializing,
    /// Endpoints of this node are registered.
    Registering(RawSession),
    Done,
}

/// What a request for a session with the relay server hears of.
pub enum ServerEvent {
    /// A new lock is ready to be put in place.
    Begin { lock: u64 },
    Locked,
    Initialized(Result<RawSession, ConnectError>),
    /// Endpoints under which the server sees this node.
    Endpoints(Result<Vec<Option<SocketAddr>>, String>),
}

/// What a request for a session with the relay server does next.
pub enum ServerNext {
    /// The lock has to be held.
    Lock(u64),
    InitServerSession(SocketAddr),
    /// Whoever waits for the lock is told. Where the server says that it does not know the session,
    /// it is dropped and requested anew. Endpoints are registered.
    Established { session: RawSession, notify: Option<u64> },
    /// Whoever waits for the lock is told. The request failed.
    Failed { error: String, notify: Option<u64> },
    Finish(Result<RawSession, String>),
    Ignore,
}

/// What an event does to a request for a session with the relay server, which goes by the id of
/// all zeros.
pub open spec fn server_stepped(
    m: ManagerModel,
    step: ServerStep,
    event: ServerEvent,
    m_after: ManagerModel,
    after: ServerStep,
    r: ServerNext,
) -> bool {
    let id = NodeId::zero();
    match (step, event) {
        (ServerStep::Start, ServerEvent::Begin { lock }) => after == ServerStep::Locking
            && match m.guarded.found(id, seq![m.config.srv_addr]) {
            Some(found) => m_after == m && r == ServerNext::Lock(m.guarded.targets[found].lock),
            None => m_after == (ManagerModel {
                guarded: m.guarded.guarding(id, seq![m.config.srv_addr], lock),
                ..m
            }) && r == ServerNext::Lock(lock),
        },
        (ServerStep::Locking, ServerEvent::Locked) => m_after == m && match m.session(m.config.srv_addr) {
            Some(session) => after == ServerStep::Done && r == ServerNext::Finish(
                Ok::<RawSession, String>(session),
            ),
            None => after == ServerStep::Initializing && r == ServerNext::InitServerSession(
                m.config.srv_addr,
            ),
        },
        (ServerStep::Initializing, ServerEvent::Initialized(result)) => {
            let lock = if m.guarded.targets.contains_key(id) {
                Some(m.guarded.targets[id].lock)
            } else {
                None
            };
            &&& m_after == (ManagerModel { guarded: m.guarded.released(id), ..m })
            &&& match result {
                Ok(session) => after == ServerStep::Registering(session) && r == (
                ServerNext::Established { session, notify: lock }),
                Err(e) => after == ServerStep::Done && (r matches ServerNext::Failed {
                    error,
                    notify,
                } && error@ == e.text() && notify == lock),
            }
        },
        (ServerStep::Registering(session), ServerEvent::Endpoints(result)) => after
            == ServerStep::Done && match result {
            Err(e) => m_after == m && r == ServerNext::Finish(Err::<RawSession, String>(e)),
            Ok(endpoints) => r == ServerNext::Finish(Ok::<RawSession, String>(session)) && m_after
                == match first_some(endpoints@) {
                Some(addr) => ManagerModel { public_addr: Some(addr), ..m },
                None => m,
            },
        },
        _ => m_after == m && after == step && r == ServerNext::Ignore,
    }
}

impl SessionManager {
    /// Takes the next step of a request for a session with the relay server.
    pub fn server_session(&mut self, step: ServerStep, event: ServerEvent) -> (r: (
        ServerStep,
        ServerNext,
    ))
        requires
            old(self)@.wf(),
        ensures
            final(self)@.wf(),
            server_stepped(old(self)@, step, event, final(self)@, r.0, r.1),
    {
        match (step, event) {
            (ServerStep::Start, ServerEvent::Begin { lock }) => {
                let mut addrs: Vec<SocketAddr> = Vec::new();
                addrs.push(self.config.srv_addr);
                assert(addrs@ =~= seq![self.config.srv_addr]);
                let lock = self.guarded.guard_initialization(NodeId::default(), &addrs, lock);
                (ServerStep::Locking, ServerNext::Lock(lock))
            },
            (ServerStep::Locking, ServerEvent::Locked) => match self.get_server_session() {
                Some(session) => (ServerStep::Done, ServerNext::Finish(Ok(session))),
                None => (ServerStep::Initializing, ServerNext::InitServerSession(self.config.srv_addr)),
            },
            (ServerStep::Initializing, ServerEvent::Initialized(result)) => {
                let notify = self.guarded.stop_guarding(NodeId::default());
                match result {
                    Ok(session) => (
                        ServerStep::Registering(session),
                        ServerNext::Established { session, notify },
                    ),
                    Err(e) => (
                        ServerStep::Done,
                        ServerNext::Failed { error: e.to_text(), notify },
                    ),
                }
            },
            (ServerStep::Registering(session), ServerEvent::Endpoints(result)) => match result {
                Err(e) => (ServerStep::Done, ServerNext::Finish(Err(e))),
                Ok(endpoints) => {
                    match first_endpoint(&endpoints) {
                        Some(addr) => {
                            self.set_public_addr(Some(addr));
                        },
                        None => {},
                    }
                    (ServerStep::Done, ServerNext::Finish(Ok(session)))
                },
            },
            _ => (step, ServerNext::Ignore),
        }
    }
}

/// What a request for the best session to a node hears of.
pub enum OptimalEvent {
    Begin,
    Server(Result<(), String>),
    /// The server knows the node, or does not.
    Found(Result<(), String>),
    /// What the server told of the node makes sense, or does not.
    Identified(Result<NodeInfo, String>),
    Resolved(Result<NodeEntry, String>),
}

/// What a request for the best session to a node does next.
pub enum OptimalNext {
    ServerSession,
    FindNode,
    Identify,
    Resolve(NodeInfo),
    Finish(Result<RawSession, String>),
}

/// What an event does to a request for the best session to a node.
pub open spec fn optimal_stepped(
    m: ManagerModel,
    node_id: NodeId,
    event: OptimalEvent,
    r: OptimalNext,
) -> bool {
    let failed = |prefix: Seq<char>, e: String|
        r matches OptimalNext::Finish(Err(text)) && text@ == prefix + e@;
    match event {
        OptimalEvent::Begin => match m.registry.node(node_id) {
            Some(entry) => r == OptimalNext::Finish(Ok::<RawSession, String>(entry.session)),
            None => r is ServerSession,
        },
        OptimalEvent::Server(result) => match result {
            Ok(_) => r is FindNode,
            Err(e) => failed("Failed to get relay server session: "@, e),
        },
        OptimalEvent::Found(result) => match result {
            Ok(_) => r is Identify,
            Err(e) => failed("Failed to find Node on relay server: "@, e),
        },
        OptimalEvent::Identified(result) => match result {
            Ok(info) => r == OptimalNext::Resolve(info),
            Err(e) => failed("Unable to get identity from Node info: "@, e),
        },
        OptimalEvent::Resolved(result) => match result {
            Ok(entry) => r == OptimalNext::Finish(Ok::<RawSession, String>(entry.session)),
            Err(e) => failed("Failed to resolve session: "@, e),
        },
    }
}

/// What a request for a reliable channel to a node hears of.
pub enum ForwardHeard {
    Begin,
    /// The lock over connections to the node is held. It was perhaps held by another before.
    Locked { node: NodeEntry, was_locked: bool },
    /// A connection was opened, or could not be. A new channel is ready to be put in place.
    Connected { node: NodeEntry, result: Result<(), String>, tx: ForwardSender },
}

/// What a request for a channel to a node does next.
pub enum ForwardNext {
    /// Connections to the node have to be locked.
    Lock(NodeEntry),
    Connect(NodeEntry),
    /// The new channel can be used, and what is put into it goes to the node.
    Spawn { node: NodeEntry, tx: ForwardSender },
    Finish(Result<ForwardSender, String>),
}

/// The channel to a node.
pub open spec fn channel(channels: Map<NodeId, ForwardSender>, node_id: NodeId) -> Option<
    ForwardSender,
> {
    if channels.contains_key(node_id) {
        Some(channels[node_id])
    } else {
        None
    }
}

/// What an event does to a request for a reliable channel to a node. The node is looked up once,
/// when the request begins.
pub open spec fn forward_stepped(
    m: ManagerModel,
    node_id: NodeId,
    event: ForwardHeard,
    m_after: ManagerModel,
    r: ForwardNext,
) -> bool {
    let existing = channel(m.forward_reliable, node_id);
    match event {
        ForwardHeard::Begin => match (m.registry.node(node_id), existing) {
            (None, _) => m_after == m && (r matches ForwardNext::Finish(Err(text)) && text@
                == node_not_found(node_id)),
            (Some(_), Some(tx)) => m_after == m && r == ForwardNext::Finish(
                Ok::<ForwardSender, String>(tx),
            ),
            (Some(node), None) => m_after == (ManagerModel { fast_lane: Map::empty(), ..m }) && r
                == ForwardNext::Lock(node),
        },
        ForwardHeard::Locked { node, was_locked } => m_after == m && if was_locked && existing
            is Some {
            r == ForwardNext::Finish(Ok::<ForwardSender, String>(existing.unwrap()))
        } else {
            r == ForwardNext::Connect(node)
        },
        ForwardHeard::Connected { node, result, tx } => match result {
            Err(e) => m_after == m && r == ForwardNext::Finish(Err::<ForwardSender, String>(e)),
            Ok(_) => m_after == (ManagerModel {
                forward_reliable: m.forward_reliable.insert(node_id, tx),
                ..m
            }) && r == (ForwardNext::Spawn { node, tx }),
        },
    }
}

impl SessionManager {
    /// Takes the next step of a request for the best session to a node.
    pub fn optimal_session(&self, node_id: NodeId, event: OptimalEvent) -> (r: OptimalNext)
        ensures
            optimal_stepped(self@, node_id, event, r),
    {
        match event {
            OptimalEvent::Begin => match self.registry.resolve_node(node_id) {
                Ok(entry) => OptimalNext::Finish(Ok(entry.session)),
                Err(_) => OptimalNext::ServerSession,
            },
            OptimalEvent::Server(result) => match result {
                Ok(_) => OptimalNext::FindNode,
                Err(e) => OptimalNext::Finish(
                    Err(prefixed("Failed to get relay server session: ", e.as_str())),
                ),
            },
            OptimalEvent::Found(result) => match result {
                Ok(_) => OptimalNext::Identify,
                Err(e) => OptimalNext::Finish(
                    Err(prefixed("Failed to find Node on relay server: ", e.as_str())),
                ),
            },
            OptimalEvent::Identified(result) => match result {
                Ok(info) => OptimalNext::Resolve(info),
                Err(e) => OptimalNext::Finish(
                    Err(prefixed("Unable to get identity from Node info: ", e.as_str())),
                ),
            },
            OptimalEvent::Resolved(result) => match result {
                Ok(entry) => OptimalNext::Finish(Ok(entry.session)),
                Err(e) => OptimalNext::Finish(
                    Err(prefixed("Failed to resolve session: ", e.as_str())),
                ),
            },
        }
    }

    /// Takes the next step of a request for a reliable channel to a node.
    pub fn forward(&mut self, node_id: NodeId, event: ForwardHeard) -> (r: ForwardNext)
        requires
            old(self)@.wf(),
        ensures
            final(self)@.wf(),
            forward_stepped(old(self)@, node_id, event, final(self)@, r),
    {
        let existing = match self.forward_reliable.get(&node_id) {
            Some(tx) => Some(*tx),
            None => None,
        };
        match event {
            ForwardHeard::Begin => match self.registry.resolve_node(node_id) {
                Err(e) => ForwardNext::Finish(Err(e)),
                Ok(node) => match existing {
                    Some(tx) => ForwardNext::Finish(Ok(tx)),
                    None => {
                        self.fast_lane.clear();
                        ForwardNext::Lock(node)
                    },
                },
            },
            ForwardHeard::Locked { node, was_locked } => {
                if was_locked {
                    match existing {
                        Some(tx) => {
                            return ForwardNext::Finish(Ok(tx));
                        },
                        None => {},
                    }
                }
                ForwardNext::Connect(node)
            },
            ForwardHeard::Connected { node, result, tx } => match result {
                Err(e) => ForwardNext::Finish(Err(e)),
                Ok(_) => {
                    self.forward_reliable.insert(node_id, tx);
                    ForwardNext::Spawn { node, tx }
                },
            },
        }
    }

    /// An unreliable channel to a node. Where there is none, the new one is put in place.
    pub fn forward_unreliable(&mut self, node_id: NodeId, tx: ForwardSender) -> (r: ForwardNext)
        requires
            old(self)@.wf(),
        ensures
            final(self)@.wf(),
            match old(self)@.registry.node(node_id) {
                None => final(self)@ == old(self)@ && (r matches ForwardNext::Finish(Err(text))
                    && text@ == node_not_found(node_id)),
                Some(node) => match channel(old(self)@.forward_unreliable, node_id) {
                    Some(existing) => final(self)@ == old(self)@ && r == ForwardNext::Finish(
                        Ok::<ForwardSender, String>(existing),
                    ),
                    None => final(self)@ == (ManagerModel {
                        forward_unreliable: old(self)@.forward_unreliable.insert(node_id, tx),
                        ..old(self)@
                    }) && r == (ForwardNext::Spawn { node, tx }),
                },
            },
    {
        let node = match self.registry.resolve_node(node_id) {
            Ok(node) => node,
            Err(e) => {
                return ForwardNext::Finish(Err(e));
            },
        };
        match self.forward_unreliable.get(&node_id) {
            Some(existing) => ForwardNext::Finish(Ok(*existing)),
            None => {
                self.forward_unreliable.insert(node_id, tx);
                ForwardNext::Spawn { node, tx }
            },
        }
    }
}

/// What a channel to a node hears of.
pub enum ChannelHeard {
    /// The next payload, once packets are not held back. Nothing, if there will be none.
    Payload(Option<Vec<u8>>),
    /// A payload was sent, or could not be.
    Sent(Result<(), String>),
}

/// What a channel to a node does next.
pub enum ChannelNext {
    /// Waits for the next payload.
    Receive,
    /// A packet is sent over the session of the channel.
    Send(Forward),
    /// The tcp stack sends the payload over the connection of the channel.
    SendReliable(Vec<u8>),
    /// The channel is closed, and these are all channels that nobody uses any more.
    Close(Vec<RemovedNode>),
}

/// The packet that carries a payload to a node over a session unreliably.
pub open spec fn unreliable_packet(
    session: RawSession,
    node: NodeEntry,
    payload: Vec<u8>,
) -> Forward {
    Forward {
        session_id: session.id,
        slot: node.slot,
        reliable: false,
        encrypted: false,
        payload,
    }
}

impl SessionManager {
    /// Takes the next step of a reliable channel to a node. Once there are no more payloads, or one
    /// can't be sent, the session of the node is closed.
    pub fn forward_reliable_handler(&mut self, node: NodeEntry, event: ChannelHeard) -> (r:
        ChannelNext)
        requires
            old(self)@.wf(),
        ensures
            final(self)@.wf(),
            match event {
                ChannelHeard::Payload(Some(payload)) => final(self)@ == old(self)@ && r
                    == ChannelNext::SendReliable(payload),
                ChannelHeard::Sent(Ok(_)) => final(self)@ == old(self)@ && r
                    == ChannelNext::Receive,
                _ => r matches ChannelNext::Close(removed) && session_closed(
                    old(self)@,
                    node.session,
                    final(self)@,
                    removed@,
                ),
            },
    {
        match event {
            ChannelHeard::Payload(Some(payload)) => ChannelNext::SendReliable(payload),
            ChannelHeard::Sent(Ok(_)) => ChannelNext::Receive,
            _ => ChannelNext::Close(self.close_session(node.session)),
        }
    }

    /// Takes the next step of an unreliable channel to a node over a session. Once there are no
    /// more payloads, or one can't be sent, communication with the node stops.
    pub fn forward_unreliable_handler(
        &mut self,
        session: RawSession,
        node: NodeEntry,
        event: ChannelHeard,
    ) -> (r: ChannelNext)
        requires
            old(self)@.wf(),
        ensures
            final(self)@.wf(),
            match event {
                ChannelHeard::Payload(Some(payload)) => final(self)@ == old(self)@ && r
                    == ChannelNext::Send(unreliable_packet(session, node, payload)),
                ChannelHeard::Sent(Ok(_)) => final(self)@ == old(self)@ && r
                    == ChannelNext::Receive,
                _ => {
                    &&& final(self)@ == old(self)@.without_node(node.id)
                    &&& r matches ChannelNext::Close(removed) && removed@ == seq![
                        channels_of(old(self)@, node.id),
                    ]
                },
            },
    {
        match event {
            ChannelHeard::Payload(Some(payload)) => ChannelNext::Send(
                Forward {
                    session_id: session.id,
                    slot: node.slot,
                    reliable: false,
                    encrypted: false,
                    payload,
                },
            ),
            ChannelHeard::Sent(Ok(_)) => ChannelNext::Receive,
            _ => {
                let mut removed: Vec<RemovedNode> = Vec::new();
                removed.push(self.remove_node(node.id));
                assert(removed@ =~= seq![channels_of(old(self)@, node.id)]);
                ChannelNext::Close(removed)
            },
        }
    }
}

/// What one node sends unreliably reaches whoever uses it at the other: if the packet arrives as it
/// was sent, on a slot that leads to the sender, its payload is handed on under the id of the
/// sender.
pub proof fn lemma_unreliable_payload_is_handed_on(
    session: RawSession,
    node: NodeEntry,
    payload: Vec<u8>,
    there: ManagerModel,
    forward: IncomingForward,
    from: SocketAddr,
    sender: NodeEntry,
    after: ManagerModel,
    r: ForwardHandled,
)
    requires
        arrived_as(forward, unreliable_packet(session, node, payload)),
        sender_entry(there, forward.slot, from) == Some(sender),
        forward_handled(there, forward, from, after, r),
    ensures
        after == there,
        r matches ForwardHandled::Ingress { node_id, payload: got } && node_id == sender.id && got@
            == payload@,
{
}

} // verus!
