//! What packets of other nodes do to the sessions of a node that knows of one relay server.
use vstd::prelude::*;
use vstd::string::*;

use crate::direct_session::RawSession;
use crate::model::{NodeId, RequestId, SessionId, SocketAddr, FORWARD_SLOT_ID};
#[allow(unused_imports)]
use crate::model::SlotId;
use crate::registry::NodeEntry;
#[allow(unused_imports)]
use crate::registry::node_not_found;
use crate::session_events::{By, ControlKind, IncomingForward, RequestKind, ReverseConnection};
use crate::session_initializer::SessionRequest;
use crate::session_manager::{Lane, RemovedNode, SessionManager};
#[allow(unused_imports)]
use crate::session_manager::{channels_of, session_closed, ManagerModel};

verus! {

/// What a control message leads to.
pub enum ControlHandled {
    /// A way to the node is looked for in a task of its own, without the relay server.
    Resolve(ReverseConnection),
    /// Packets over a session are held back, or let through again.
    Forwarding { session: RawSession, paused: bool },
    /// A session was closed.
    Closed { session: RawSession, removed: Vec<RemovedNode> },
    /// Communication with a node stopped.
    Removed(RemovedNode),
    Nothing,
}

/// Communication with a node stops, if the node is known.
pub open spec fn known_removed(
    m: ManagerModel,
    node: Option<NodeEntry>,
    after: ManagerModel,
    r: ControlHandled,
) -> bool {
    match node {
        Some(entry) => after == m.without_node(entry.id) && r == ControlHandled::Removed(
            channels_of(m, entry.id),
        ),
        None => after == m && r is Nothing,
    }
}

/// What a message about a disconnection leads to. The session over which it came is closed,
/// whatever session id it holds.
pub open spec fn disconnect_handled(
    m: ManagerModel,
    by: By,
    from: SocketAddr,
    after: ManagerModel,
    r: ControlHandled,
) -> bool {
    match by {
        By::Slot(slot) => known_removed(m, m.registry.by_slot(slot), after, r),
        By::NodeId(bytes) => if bytes@.len() == 20 {
            exists|id: NodeId|
                #[trigger] id.bytes() == bytes@ && known_removed(
                    m,
                    m.registry.node(id),
                    after,
                    r,
                )
        } else {
            after == m && r is Nothing
        },
        By::SessionId(_) => match m.session(from) {
            Some(session) => r matches ControlHandled::Closed { session: closed, removed } && closed
                == session && session_closed(m, session, after, removed@),
            None => after == m && r is Nothing,
        },
    }
}

/// Packets over the session with an address are held back or let through, where there is one.
pub open spec fn forwarding_handled(
    m: ManagerModel,
    from: SocketAddr,
    paused: bool,
    r: ControlHandled,
) -> bool {
    match m.session(from) {
        Some(session) => r == (ControlHandled::Forwarding { session, paused }),
        None => r is Nothing,
    }
}

/// What a control message leads to.
pub open spec fn control_handled(
    m: ManagerModel,
    kind: Option<ControlKind>,
    from: SocketAddr,
    after: ManagerModel,
    r: ControlHandled,
) -> bool {
    match kind {
        Some(ControlKind::ReverseConnection(message)) => after == m && if message.endpoints@.len()
            == 0 {
            r is Nothing
        } else {
            r == ControlHandled::Resolve(message)
        },
        Some(ControlKind::PauseForwarding) => after == m && forwarding_handled(m, from, true, r),
        Some(ControlKind::ResumeForwarding) => after == m && forwarding_handled(m, from, false, r),
        Some(ControlKind::Disconnected(Some(by))) => disconnect_handled(m, by, from, after, r),
        _ => after == m && r is Nothing,
    }
}

/// What a request leads to.
pub enum RequestHandled {
    /// A ping is answered.
    Pong { session_id: Vec<u8>, request_id: RequestId, to: SocketAddr },
    /// A request of the handshake is handled.
    Session {
        session_id: Vec<u8>,
        request_id: RequestId,
        from: SocketAddr,
        request: SessionRequest,
    },
    Nothing,
}

/// What a packet with a payload leads to.
pub enum ForwardHandled {
    /// The payload goes to the tcp stack without further ado.
    Inject(Vec<u8>),
    /// The tcp stack gets the payload, and learns of the node that it came from.
    Receive { node: NodeEntry, payload: Vec<u8> },
    /// Whoever uses the node gets the payload.
    Ingress { node_id: NodeId, payload: Vec<u8> },
    /// The sender is told that there is no session.
    Disconnect(RawSession),
    /// The relay server is asked which node is on the slot, and a way to it is looked for.
    Resolve { forward: IncomingForward },
    Failed(String),
}

/// The payload of a packet from a known node is handed on. Further packets for the tcp stack from
/// the same address through the same slot need no look for the node.
pub open spec fn handed_on(
    m: ManagerModel,
    forward: IncomingForward,
    from: SocketAddr,
    node: NodeEntry,
    after: ManagerModel,
    r: ForwardHandled,
) -> bool {
    if forward.reliable {
        &&& after == (ManagerModel {
            fast_lane: m.fast_lane.insert(Lane { from, slot: forward.slot }, ()),
            ..m
        })
        &&& r == (ForwardHandled::Receive { node, payload: forward.payload })
    } else {
        &&& after == m
        &&& r == (ForwardHandled::Ingress { node_id: node.id, payload: forward.payload })
    }
}

/// What a packet that came directly from a node leads to.
pub open spec fn direct_forward_handled(
    m: ManagerModel,
    forward: IncomingForward,
    from: SocketAddr,
    after: ManagerModel,
    r: ForwardHandled,
) -> bool {
    if !m.nodes_addr.contains_key(from) {
        &&& after == m
        &&& if m.sink {
            r == ForwardHandled::Disconnect(RawSession { id: forward.session_id, remote: from })
        } else {
            r matches ForwardHandled::Failed(text) && text@ == "Network sink not initialized"@
        }
    } else {
        match m.registry.node(m.nodes_addr[from]) {
            Some(node) => handed_on(m, forward, from, node, after, r),
            None => after == m && (r matches ForwardHandled::Failed(text) && text@
                == node_not_found(m.nodes_addr[from])),
        }
    }
}

/// Node that a packet on a slot comes from, if it is known.
pub open spec fn sender_entry(m: ManagerModel, slot: SlotId, from: SocketAddr) -> Option<NodeEntry> {
    if slot != FORWARD_SLOT_ID {
        m.registry.by_slot(slot)
    } else if m.nodes_addr.contains_key(from) {
        m.registry.node(m.nodes_addr[from])
    } else {
        None
    }
}

/// What a packet with a payload leads to.
pub open spec fn forward_handled(
    m: ManagerModel,
    forward: IncomingForward,
    from: SocketAddr,
    after: ManagerModel,
    r: ForwardHandled,
) -> bool {
    if forward.reliable && m.fast_lane.contains_key(Lane { from, slot: forward.slot }) {
        after == m && r == ForwardHandled::Inject(forward.payload)
    } else if forward.slot == FORWARD_SLOT_ID {
        direct_forward_handled(m, forward, from, after, r)
    } else {
        match m.registry.by_slot(forward.slot) {
            Some(node) => handed_on(m, forward, from, node, after, r),
            None => after == m && r == (ForwardHandled::Resolve { forward }),
        }
    }
}

impl SessionManager {
    /// Session whose dispatcher gets a packet from an address: an established one, or else one that
    /// is being initialized.
    pub fn dispatcher(&self, from: SocketAddr) -> (r: Option<RawSession>)
        ensures
            r == match self@.session(from) {
                Some(session) => Some(session),
                None => if self@.guarded.tmp.contains_key(from) {
                    Some(self@.guarded.tmp[from])
                } else {
                    None
                },
            },
    {
        match self.find_session(from) {
            Some(session) => Some(session),
            None => self.guarded.get_temporary_session(&from),
        }
    }

    /// Handles a control message.
    pub fn on_control(&mut self, kind: Option<ControlKind>, from: SocketAddr) -> (r: ControlHandled)
        requires
            old(self)@.wf(),
        ensures
            final(self)@.wf(),
            control_handled(old(self)@, kind, from, final(self)@, r),
    {
        match kind {
            Some(ControlKind::ReverseConnection(message)) => {
                if message.endpoints.len() == 0 {
                    ControlHandled::Nothing
                } else {
                    ControlHandled::Resolve(message)
                }
            },
            Some(ControlKind::PauseForwarding) => self.change_forwarding(from, true),
            Some(ControlKind::ResumeForwarding) => self.change_forwarding(from, false),
            Some(ControlKind::Disconnected(Some(by))) => self.on_disconnected(by, from),
            _ => ControlHandled::Nothing,
        }
    }

    fn change_forwarding(&self, from: SocketAddr, paused: bool) -> (r: ControlHandled)
        ensures
            forwarding_handled(self@, from, paused, r),
    {
        match self.find_session(from) {
            Some(session) => ControlHandled::Forwarding { session, paused },
            None => ControlHandled::Nothing,
        }
    }

    fn remove_known(&mut self, node: Result<NodeEntry, String>) -> (r: ControlHandled)
        requires
            old(self)@.wf(),
        ensures
            final(self)@.wf(),
            known_removed(
                old(self)@,
                match node {
                    Ok(entry) => Some(entry),
                    Err(_) => None,
                },
                final(self)@,
                r,
            ),
    {
        match node {
            Ok(entry) => ControlHandled::Removed(self.remove_node(entry.id)),
            Err(_) => ControlHandled::Nothing,
        }
    }

    fn on_disconnected(&mut self, by: By, from: SocketAddr) -> (r: ControlHandled)
        requires
            old(self)@.wf(),
        ensures
            final(self)@.wf(),
            disconnect_handled(old(self)@, by, from, final(self)@, r),
    {
        match by {
            By::Slot(slot) => {
                let node = self.registry.resolve_slot(slot);
                self.remove_known(node)
            },
            By::NodeId(bytes) => match NodeId::try_from_bytes(&bytes) {
                Some(id) => {
                    assert(id.bytes() == bytes@);
                    let node = self.registry.resolve_node(id);
                    self.remove_known(node)
                },
                None => ControlHandled::Nothing,
            },
            By::SessionId(_) => match self.find_session(from) {
                Some(session) => {
                    let removed = self.close_session(session);
                    ControlHandled::Closed { session, removed }
                },
                None => ControlHandled::Nothing,
            },
        }
    }

    /// Handles a request. Requests of the handshake are handled only while sessions are accepted.
    pub fn on_request(
        &self,
        session_id: Vec<u8>,
        request_id: RequestId,
        kind: Option<RequestKind>,
        from: SocketAddr,
    ) -> (r: RequestHandled)
        ensures
            r == match kind {
                Some(RequestKind::Ping) => RequestHandled::Pong { session_id, request_id, to: from },
                Some(RequestKind::Session(request)) => if self@.starting {
                    RequestHandled::Session { session_id, request_id, from, request }
                } else {
                    RequestHandled::Nothing
                },
                _ => RequestHandled::Nothing,
            },
    {
        match kind {
            Some(RequestKind::Ping) => RequestHandled::Pong { session_id, request_id, to: from },
            Some(RequestKind::Session(request)) => {
                if self.starting {
                    RequestHandled::Session { session_id, request_id, from, request }
                } else {
                    RequestHandled::Nothing
                }
            },
            _ => RequestHandled::Nothing,
        }
    }

    fn hand_on(&mut self, forward: IncomingForward, from: SocketAddr, node: NodeEntry) -> (r:
        ForwardHandled)
        requires
            old(self)@.wf(),
        ensures
            final(self)@.wf(),
            handed_on(old(self)@, forward, from, node, final(self)@, r),
    {
        if forward.reliable {
            self.fast_lane.insert(Lane { from, slot: forward.slot }, ());
            ForwardHandled::Receive { node, payload: forward.payload }
        } else {
            ForwardHandled::Ingress { node_id: node.id, payload: forward.payload }
        }
    }

    /// Handles a packet with a payload.
    pub fn on_forward(&mut self, forward: IncomingForward, from: SocketAddr) -> (r: ForwardHandled)
        requires
            old(self)@.wf(),
        ensures
            final(self)@.wf(),
            forward_handled(old(self)@, forward, from, final(self)@, r),
    {
        if forward.reliable && self.fast_lane.contains_key(
            &Lane { from, slot: forward.slot },
        ) {
            return ForwardHandled::Inject(forward.payload);
        }
        if forward.slot == FORWARD_SLOT_ID {
            match self.remote_id(&from) {
                Some(id) => match self.registry.resolve_node(id) {
                    Ok(node) => self.hand_on(forward, from, node),
                    Err(e) => ForwardHandled::Failed(e),
                },
                None => match self.out_stream() {
                    Ok(_) => ForwardHandled::Disconnect(
                        RawSession { id: forward.session_id, remote: from },
                    ),
                    Err(e) => ForwardHandled::Failed(e),
                },
            }
        } else {
            match self.registry.resolve_slot(forward.slot) {
                Ok(node) => self.hand_on(forward, from, node),
                Err(_) => ForwardHandled::Resolve { forward },
            }
        }
    }

    /// Handles a packet whose sender was looked for.
    pub fn forward_resolved(
        &mut self,
        forward: IncomingForward,
        from: SocketAddr,
        result: Result<NodeEntry, String>,
    ) -> (r: ForwardHandled)
        requires
            old(self)@.wf(),
        ensures
            final(self)@.wf(),
            match result {
                Ok(node) => handed_on(old(self)@, forward, from, node, final(self)@, r),
                Err(e) => final(self)@ == old(self)@ && r == ForwardHandled::Failed(e),
            },
    {
        match result {
            Ok(node) => self.hand_on(forward, from, node),
            Err(e) => ForwardHandled::Failed(e),
        }
    }

    /// Closes a session that went silent. The address of the relay server stands for whatever
    /// session there is with it.
    pub fn close_silent(&mut self, session: RawSession) -> (r: Option<(
        RawSession,
        Vec<RemovedNode>,
    )>)
        requires
            old(self)@.wf(),
        ensures
            final(self)@.wf(),
            match r {
                Some((closed, removed)) => session_closed(old(self)@, closed, final(self)@, removed@)
                    && if session.remote == old(self)@.config.srv_addr {
                    old(self)@.session(old(self)@.config.srv_addr) == Some(closed)
                } else {
                    closed == session
                },
                None => session.remote == old(self)@.config.srv_addr && old(self)@.session(
                    old(self)@.config.srv_addr,
                ) is None && final(self)@ == old(self)@,
            },
    {
        if session.remote == self.config.srv_addr {
            return self.drop_server_session();
        }
        let removed = self.close_session(session);
        Some((session, removed))
    }
}

/// A second packet for the tcp stack from the same address through the same slot goes there without
/// a look for the node, as long as communication with no node stops in between.
pub proof fn lemma_second_packet_takes_the_fast_lane(
    m: ManagerModel,
    first: IncomingForward,
    from: SocketAddr,
    node: NodeEntry,
    between: ManagerModel,
    handled: ForwardHandled,
    second: IncomingForward,
    after: ManagerModel,
    r: ForwardHandled,
)
    requires
        first.reliable,
        second.reliable,
        second.slot == first.slot,
        handed_on(m, first, from, node, between, handled),
        forward_handled(between, second, from, after, r),
    ensures
        r == ForwardHandled::Inject(second.payload),
        after == between,
{
}

/// Once communication with a node stopped, no packet goes to the tcp stack without a look for the
/// node that it came from.
pub proof fn lemma_fast_lane_ends(
    m: ManagerModel,
    node_id: NodeId,
    forward: IncomingForward,
    from: SocketAddr,
    after: ManagerModel,
    r: ForwardHandled,
)
    requires
        forward_handled(m.without_node(node_id), forward, from, after, r),
    ensures
        !(r is Inject),
{
}

} // verus!
