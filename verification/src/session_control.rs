//! Questions to the session layer, and the ways in which sessions end.
use std::sync::Arc;

use vstd::prelude::*;
use vstd::string::*;

use crate::direct_session::{DirectSession, Forward, NodeEntry, RawSession};
#[allow(unused_imports)]
use crate::direct_session::SessionModel;
use crate::error::{owned, SessionError, TransitionError};
use crate::model::{
    NodeId, NodeInfo, SessionHandle, SessionId, SessionType, SlotId, SocketAddr, TransportType,
};
#[allow(unused_imports)]
use crate::model::ids_of;
use crate::network_view::{NodeView, Validity};
#[allow(unused_imports)]
use crate::network_view::{info_of, outdated, NetworkModel, NodeModel};
use crate::routing_session::{NodeRouting, RoutingSender};
#[allow(unused_imports)]
use crate::routing_session::RoutingModel;
use crate::session_initializer::{IncomingAction, IncomingEvent, IncomingHandshake};
#[allow(unused_imports)]
use crate::session_initializer::{forgets_one, incoming_stepped, InitializerModel};
use crate::session_layer::{Closed, SessionLayer};
#[allow(unused_imports)]
use crate::session_layer::LayerModel;
use crate::session_state::SessionState;
#[allow(unused_imports)]
use crate::session_state::state_allowed;

verus! {

/// Whether an address is not one of this node.
pub open spec fn foreign(m: LayerModel, addr: SocketAddr) -> bool {
    m.bind_addr != Some(addr) && m.public_addr != Some(addr)
}

/// Whether a routing is still in use.
pub open spec fn in_use(m: LayerModel, number: u64) -> bool {
    exists|id: NodeId| m.nodes.contains_key(id) && (#[trigger] m.nodes[id]).number == number
}

/// The layer with its view of the network replaced.
pub open spec fn with_registry(m: LayerModel, registry: NetworkModel) -> LayerModel {
    LayerModel { registry, ..m }
}

/// The layer while the session with a node is being closed.
pub open spec fn closing(m: LayerModel, node_id: NodeId, now: i64) -> LayerModel {
    let (guarded, index) = m.registry.guarded(node_id, Seq::empty(), now);
    with_registry(m, guarded.with_state(index, SessionState::Closing))
}

/// What the end of a session leaves behind and returns. `gone` is the layer after the session was
/// taken out of it while it was being closed, and `closed` says what is left to do then.
pub open spec fn ended(
    m: LayerModel,
    node_id: NodeId,
    now: i64,
    gone: LayerModel,
    closed: Closed,
    after: LayerModel,
    r: Result<Closed, SessionError>,
) -> bool {
    let (guarded, index) = m.registry.guarded(node_id, Seq::empty(), now);
    let before = guarded.nodes[index as int].state;
    if state_allowed(before, SessionState::Closing) {
        &&& r == Ok::<Closed, SessionError>(closed)
        &&& after == with_registry(gone, gone.registry.with_state(index, SessionState::Closed))
    } else {
        &&& after == with_registry(m, guarded)
        &&& r matches Err(SessionError::Internal(text)) && text@
            == TransitionError::InvalidTransition(before, SessionState::Closing).text()
    }
}

/// What an abort removes from the handshakes with an address.
pub open spec fn init_aborted(
    before: InitializerModel,
    remote: SocketAddr,
    after: InitializerModel,
) -> bool {
    if before.tmp.contains_key(remote) {
        let id = before.tmp[remote].session.id;
        &&& after.incoming == before.incoming.remove(id)
        &&& after.handles == before.handles.remove(id)
        &&& after.admitted == before.admitted
        &&& after.challenges == before.challenges
        &&& forgets_one(before.tmp, id, after.tmp)
    } else {
        after == before
    }
}

/// How to get information about a node.
pub enum InfoQuery {
    /// It is known and up to date.
    Known(NodeInfo),
    /// The relay server has to be asked.
    Ask,
}

/// What asking the relay server for a node gave.
pub enum InfoReply {
    /// There is no session with a relay server.
    NoServer(SessionError),
    /// The server did not answer with a node.
    NotFound(String),
    /// The answer could not be read.
    Malformed(String),
    Found(NodeInfo),
}

/// What it means for the node and its neighbours to be stopped.
pub struct Stopped {
    /// Background tasks to abort.
    pub tasks: Vec<u64>,
    /// Tasks of handshakes to abort.
    pub handshakes: Vec<(SessionId, u64)>,
}

impl SessionLayer {
    /// Addresses of a list that are not addresses of this node.
    pub fn filter_own_addresses(&self, endpoints: &Vec<SocketAddr>) -> (r: Vec<SocketAddr>)
        ensures
            r@ == endpoints@.filter(|a: SocketAddr| foreign(self@, a)),
    {
        let ghost keep = |a: SocketAddr| foreign(self@, a);
        let mut r: Vec<SocketAddr> = Vec::new();
        let mut i: usize = 0;
        proof {
            reveal(Seq::filter);
            assert(endpoints@.take(0) =~= Seq::empty());
        }
        while i < endpoints.len()
            invariant
                0 <= i <= endpoints@.len(),
                keep == (|a: SocketAddr| foreign(self@, a)),
                r@ == endpoints@.take(i as int).filter(keep),
            decreases endpoints@.len() - i,
        {
            let addr = endpoints[i];
            let own = match self.bind_addr {
                Some(a) => a == addr,
                None => false,
            } || match self.public_addr {
                Some(a) => a == addr,
                None => false,
            };
            proof {
                reveal(Seq::filter);
                let next = endpoints@.take(i + 1);
                assert(next.drop_last() =~= endpoints@.take(i as int));
                assert(next.last() == addr);
            }
            if !own {
                r.push(addr);
            }
            i += 1;
        }
        assert(endpoints@.take(i as int) =~= endpoints@);
        r
    }

    /// Id of the node that the session with an address belongs to.
    pub fn remote_id(&self, addr: &SocketAddr) -> (r: Option<NodeId>)
        requires
            self@.wf(),
        ensures
            r == if self@.p2p_sessions.contains_key(*addr) {
                Some(self@.sessions[self@.p2p_sessions[*addr]].owner.default_id)
            } else {
                None
            },
    {
        match self.p2p_sessions.get(addr) {
            Some(h) => {
                assert(self@.sessions.contains_key(self@.p2p_sessions[*addr]));
                match self.sessions.get(h) {
                    Some(session) => Some(session.owner.default_id),
                    None => None,
                }
            },
            None => None,
        }
    }

    /// All ids under which nodes can be reached, each once.
    pub fn list_connected(&self) -> (r: Vec<NodeId>)
        ensures
            r@.no_duplicates(),
            r@.to_set() == self@.nodes.dom(),
    {
        assert(self@.nodes.dom() =~= self.nodes@.dom());
        self.nodes.keys()
    }

    /// Default id of the node that an id belongs to, if the node is known.
    pub fn default_id(&self, node_id: NodeId) -> (r: Option<NodeId>)
        requires
            self@.wf(),
        ensures
            r == if self@.registry.by_node_id.contains_key(node_id) {
                Some(self@.registry.nodes[self@.registry.by_node_id[node_id] as int].id)
            } else {
                None
            },
    {
        match self.registry.get_entry(node_id) {
            Some(entry) => Some(entry.id),
            None => None,
        }
    }

    /// Address under which this node is reachable, if it is.
    pub fn get_public_addr(&self) -> (r: Option<SocketAddr>)
        ensures
            r == self@.public_addr,
    {
        self.public_addr
    }

    /// Changes the address under which this node is reachable.
    pub fn set_public_addr(&mut self, addr: Option<SocketAddr>)
        requires
            old(self)@.wf(),
        ensures
            final(self)@.wf(),
            final(self)@ == (LayerModel { public_addr: addr, ..old(self)@ }),
    {
        self.public_addr = addr;
        assert(self@.wf()) by {
            lemma_links_kept(old(self)@, self@);
        }
    }

    /// Address that this node listens on.
    pub fn get_local_addr(&self) -> (r: Option<SocketAddr>)
        ensures
            r == self@.bind_addr,
    {
        self.bind_addr
    }

    /// Way to a node, if there is one. No session is initialized.
    pub fn get_node_routing(&self, node_id: NodeId) -> (r: Option<RoutingSender>)
        ensures
            r == if self@.nodes.contains_key(node_id) {
                Some(
                    RoutingSender {
                        target: node_id,
                        routing: Some(self@.nodes[node_id].number),
                    },
                )
            } else {
                None
            },
    {
        match self.nodes.get(&node_id) {
            Some(routing) => Some(RoutingSender::from_node_routing(node_id, &**routing)),
            None => None,
        }
    }

    /// All sessions that an address leads to, each address once.
    pub fn sessions(&self) -> (r: Vec<(SocketAddr, SessionHandle)>)
        ensures
            crate::assoc::unique_keys(r@),
            crate::assoc::as_map(r@) == self@.p2p_sessions,
    {
        self.p2p_sessions.items()
    }

    /// Session with an address.
    pub fn find_session(&self, addr: SocketAddr) -> (r: Option<SessionHandle>)
        ensures
            r == if self@.p2p_sessions.contains_key(addr) {
                Some(self@.p2p_sessions[addr])
            } else {
                None
            },
    {
        match self.p2p_sessions.get(&addr) {
            Some(h) => Some(*h),
            None => None,
        }
    }

    /// The session with the relay server, if there is one.
    pub fn get_server_session(&self) -> (r: Option<SessionHandle>)
        ensures
            r == if self@.p2p_sessions.contains_key(self@.config.srv_addr) {
                Some(self@.p2p_sessions[self@.config.srv_addr])
            } else {
                None
            },
    {
        self.find_session(self.config.srv_addr)
    }

    fn routing_with(&self, number: u64) -> (r: Option<Arc<NodeRouting>>)
        ensures
            r is Some <==> in_use(self@, number),
            r matches Some(routing) ==> routing.number == number && exists|id: NodeId|
                self@.nodes.contains_key(id) && #[trigger] self@.nodes[id] == (*routing)@,
    {
        let keys = self.nodes.keys();
        let mut i: usize = 0;
        while i < keys.len()
            invariant
                0 <= i <= keys@.len(),
                keys@.to_set() == self.nodes@.dom(),
                forall|j: int|
                    0 <= j < i ==> (#[trigger] self@.nodes[keys@[j]]).number != number,
            decreases keys@.len() - i,
        {
            let key = keys[i];
            proof {
                assert(keys@.contains(key));
                assert(self.nodes@.dom().contains(key));
                assert(self@.nodes.contains_key(key));
            }
            match self.nodes.get(&key) {
                Some(routing) => {
                    assert(self@.nodes[key] == (**routing)@);
                    if routing.number == number {
                        return Some(routing.clone());
                    }
                },
                None => {},
            }
            i += 1;
        }
        proof {
            assert forall|id: NodeId| self@.nodes.contains_key(id) implies (
            #[trigger] self@.nodes[id]).number != number by {
                assert(keys@.to_set().contains(id));
                let j = choose|j: int| 0 <= j < keys@.len() && keys@[j] == id;
                assert(self@.nodes[keys@[j]].number != number);
            }
        }
        None
    }

    /// Whether a node is reached over a session with itself. The session of its routing must be
    /// open.
    pub fn is_p2p(&self, node_id: NodeId) -> (r: bool)
        requires
            self@.nodes.contains_key(node_id) ==> self@.sessions.contains_key(
                self@.nodes[node_id].route,
            ),
        ensures
            r == (self@.nodes.contains_key(node_id) && p2p(self@, self@.nodes[node_id])),
    {
        match self.nodes.get(&node_id) {
            Some(routing) => {
                assert(self@.nodes[node_id] == (**routing)@);
                match self.sessions.get(&routing.route) {
                    Some(session) => routing.node.default_id.node_id == session.owner.default_id,
                    None => false,
                }
            },
            None => false,
        }
    }

    /// Whether handshakes can be held.
    pub fn get_protocol(&self) -> (r: Result<(), SessionError>)
        ensures
            self@.protocol is Some ==> r is Ok,
            self@.protocol is None ==> (r matches Err(SessionError::Internal(m)) && m@
                == "`SessionProtocol` empty (not initialized?)"@),
    {
        match self.init_protocol {
            Some(_) => Ok(()),
            None => Err(
                SessionError::Internal(owned("`SessionProtocol` empty (not initialized?)")),
            ),
        }
    }

    /// Information about a node that need not be asked for.
    pub fn query_node_info(&self, node_id: NodeId, now: i64) -> (r: InfoQuery)
        requires
            self@.wf(),
        ensures
            ({
                let m = self@.registry;
                let known = m.by_node_id.contains_key(node_id);
                let node = m.nodes[m.by_node_id[node_id] as int];
                if known && !outdated(node, now, m.ttl) {
                    r matches InfoQuery::Known(info) && info@ == info_of(node)
                } else {
                    r is Ask
                }
            }),
    {
        match self.registry.get_entry(node_id) {
            Some(entry) => match entry.info(&self.registry, now) {
                Validity::UpToDate(info) => InfoQuery::Known(info),
                Validity::UpdateRecommended(_) => InfoQuery::Ask,
            },
            None => InfoQuery::Ask,
        }
    }

    /// Takes over what asking the relay server for a node gave.
    pub fn node_info_received(&mut self, reply: InfoReply, now: i64) -> (r: Result<
        NodeInfo,
        String,
    >)
        requires
            old(self)@.wf(),
            old(self)@.registry.nodes.len() < usize::MAX,
        ensures
            final(self)@.wf(),
            match reply {
                InfoReply::NoServer(e) => final(self)@ == old(self)@ && (r matches Err(m) && m@
                    == "Failed to get relay server session: "@ + e.text()),
                InfoReply::NotFound(e) => final(self)@ == old(self)@ && (r matches Err(m) && m@
                    == "Failed to find Node on relay server: "@ + e@),
                InfoReply::Malformed(e) => final(self)@ == old(self)@ && (r matches Err(m) && m@
                    == "Failed to convert NodeInfo: "@ + e@),
                InfoReply::Found(info) => if old(self)@.registry.consistent(
                    ids_of(info@.identities),
                ) {
                    (r matches Ok(i) && i@ == info@) && final(self)@ == (LayerModel {
                        registry: old(self)@.registry.updated(info@, now),
                        ..old(self)@
                    })
                } else {
                    final(self)@ == old(self)@ && (r matches Err(m) && m@
                        == "Internal error: NetworkView update failed: Inconsistent `NetworkView` state. A few entries are pointing to the same Node."@)
                },
            },
    {
        match reply {
            InfoReply::NoServer(e) => {
                let text = e.to_text();
                Err(
                    crate::error::prefixed("Failed to get relay server session: ", text.as_str()),
                )
            },
            InfoReply::NotFound(e) => Err(
                crate::error::prefixed("Failed to find Node on relay server: ", e.as_str()),
            ),
            InfoReply::Malformed(e) => Err(
                crate::error::prefixed("Failed to convert NodeInfo: ", e.as_str()),
            ),
            InfoReply::Found(info) => {
                let result = self.registry.update_entry(&info, now);
                assert(self@.wf()) by {
                    lemma_links_kept(old(self)@, self@);
                }
                match result {
                    Ok(_) => Ok(info),
                    Err(e) => {
                        let m = SessionError::Internal(
                            crate::error::prefixed("NetworkView update failed: ", e.as_str()),
                        ).to_text();
                        proof {
                            reveal_strlit("Internal error: ");
                            reveal_strlit("NetworkView update failed: ");
                            reveal_strlit(
                                "Inconsistent `NetworkView` state. A few entries are pointing to the same Node.",
                            );
                            reveal_strlit(
                                "Internal error: NetworkView update failed: Inconsistent `NetworkView` state. A few entries are pointing to the same Node.",
                            );
                            assert(m@
                                =~= "Internal error: NetworkView update failed: Inconsistent `NetworkView` state. A few entries are pointing to the same Node."@);
                        }
                        Err(m)
                    },
                }
            },
        }
    }
}

/// Whether a routing goes over a session with the node itself.
pub open spec fn p2p(m: LayerModel, routing: RoutingModel) -> bool {
    routing.node.default_id.node_id == m.sessions[routing.route].owner.default_id
}

/// Nothing that leads to sessions, and no session, differs.
pub proof fn lemma_links_kept(before: LayerModel, after: LayerModel)
    requires
        before.wf(),
        after.registry.wf(),
        after.protocol matches Some(p) ==> p.wf(),
        after.requests.len() <= crate::requests::REQ_DEDUPLICATE_BUF_SIZE,
        after.p2p_sessions == before.p2p_sessions,
        after.p2p_nodes == before.p2p_nodes,
        after.sessions == before.sessions,
        after.nodes == before.nodes,
        after.next_number >= before.next_number,
    ensures
        after.wf(),
{
    assert forall|a: SocketAddr|
        after.p2p_sessions.contains_key(a) implies after.sessions.contains_key(
        #[trigger] after.p2p_sessions[a],
    ) && after.sessions[after.p2p_sessions[a]].raw.remote == a by {
        assert(before.sessions.contains_key(before.p2p_sessions[a]));
    }
    assert forall|id: NodeId| after.p2p_nodes.contains_key(id) implies after.sessions.contains_key(
        #[trigger] after.p2p_nodes[id],
    ) && after.sessions[after.p2p_nodes[id]].owner.identities.contains(id) by {
        assert(before.sessions.contains_key(before.p2p_nodes[id]));
    }
    assert forall|h: SessionHandle| #[trigger]
        after.sessions.contains_key(h) implies after.referenced(h) by {
        assert(before.sessions.contains_key(h));
        assert(before.referenced(h));
        if exists|k: SocketAddr|
            before.p2p_sessions.contains_key(k) && #[trigger] before.p2p_sessions[k] == h {
            let k = choose|k: SocketAddr|
                before.p2p_sessions.contains_key(k) && #[trigger] before.p2p_sessions[k] == h;
            assert(after.p2p_sessions[k] == h);
        } else {
            let k = choose|k: NodeId|
                before.p2p_nodes.contains_key(k) && #[trigger] before.p2p_nodes[k] == h;
            assert(after.p2p_nodes[k] == h);
        }
    }
    assert forall|id: NodeId| after.nodes.contains_key(id) implies (
    #[trigger] after.nodes[id]).number < after.next_number by {
        assert(before.nodes[id].number < before.next_number);
    }
}

/// Whether the session that a sender uses is open.
pub open spec fn connected(m: LayerModel, sender: RoutingSender) -> bool {
    exists|id: NodeId|
        m.nodes.contains_key(id) && sender.routing == Some((#[trigger] m.nodes[id]).number)
            && m.sessions.contains_key(m.nodes[id].route)
}

/// What comes of sending with a sender.
pub enum Sending {
    Done(Result<Forward, SessionError>),
    /// A session has to be established first. The packet is handed back.
    Connect(Vec<u8>),
}

impl RoutingSender {
    fn upgrade(&self, layer: &SessionLayer) -> (r: Option<Arc<NodeRouting>>)
        ensures
            r is Some <==> self.routing is Some && in_use(layer@, self.routing->Some_0),
            r matches Some(routing) ==> self.routing == Some(routing.number) && exists|id: NodeId|
                layer@.nodes.contains_key(id) && #[trigger] layer@.nodes[id] == (*routing)@,
    {
        match self.routing {
            Some(number) => layer.routing_with(number),
            None => None,
        }
    }

    fn session<'a>(&self, layer: &'a SessionLayer) -> (r: Option<(Arc<NodeRouting>, &'a DirectSession)>)
        requires
            layer@.wf(),
        ensures
            r is Some <==> connected(layer@, *self),
            r matches Some((routing, session)) ==> self.routing == Some(routing.number) && (
            exists|id: NodeId|
                layer@.nodes.contains_key(id) && #[trigger] layer@.nodes[id] == (*routing)@)
                && layer@.sessions.contains_key(routing.route) && session@
                == layer@.sessions[routing.route],
    {
        let found = self.upgrade(layer);
        match found {
            Some(routing) => {
                let ghost id = choose|id: NodeId|
                    layer@.nodes.contains_key(id) && #[trigger] layer@.nodes[id] == (*routing)@;
                match layer.sessions.get(&routing.route) {
                    Some(session) => {
                        assert(layer@.nodes[id].route == routing.route);
                        Some((routing, session))
                    },
                    None => {
                        proof {
                            if connected(layer@, *self) {
                                let other = choose|other: NodeId|
                                    layer@.nodes.contains_key(other) && self.routing == Some(
                                        (#[trigger] layer@.nodes[other]).number,
                                    ) && layer@.sessions.contains_key(layer@.nodes[other].route);
                                assert(layer@.nodes[id] == layer@.nodes[other]);
                            }
                        }
                        None
                    },
                }
            },
            None => None,
        }
    }

    /// The session that packets go over, if it is open.
    pub fn route_session(&self, layer: &SessionLayer) -> (r: Option<SessionHandle>)
        requires
            layer@.wf(),
        ensures
            r is Some <==> connected(layer@, *self),
            forall|id: NodeId|
                layer@.nodes.contains_key(id) && self.routing == Some(
                    (#[trigger] layer@.nodes[id]).number,
                ) && r is Some ==> r == Some(layer@.nodes[id].route),
    {
        match self.session(layer) {
            Some((routing, _)) => Some(routing.route),
            None => None,
        }
    }

    /// Id of the node that packets go to first. The session must be open.
    pub fn route(&self, layer: &SessionLayer) -> (r: NodeId)
        requires
            layer@.wf(),
            connected(layer@, *self),
        ensures
            forall|id: NodeId|
                layer@.nodes.contains_key(id) && self.routing == Some(
                    (#[trigger] layer@.nodes[id]).number,
                ) ==> r == layer@.sessions[layer@.nodes[id].route].owner.default_id,
    {
        match self.session(layer) {
            Some((_, session)) => session.owner.default_id,
            None => NodeId::default(),
        }
    }

    /// Id of the session that packets go over. The session must be open.
    pub fn session_id(&self, layer: &SessionLayer) -> (r: SessionId)
        requires
            layer@.wf(),
            connected(layer@, *self),
        ensures
            forall|id: NodeId|
                layer@.nodes.contains_key(id) && self.routing == Some(
                    (#[trigger] layer@.nodes[id]).number,
                ) ==> r == layer@.sessions[layer@.nodes[id].route].raw.id,
    {
        match self.session(layer) {
            Some((_, session)) => session.raw.id,
            None => SessionId { value: 0 },
        }
    }

    /// Whether packets go to the node directly or through a relay. The session must be open.
    pub fn session_type(&self, layer: &SessionLayer) -> (r: SessionType)
        requires
            layer@.wf(),
            connected(layer@, *self),
        ensures
            forall|id: NodeId|
                layer@.nodes.contains_key(id) && self.routing == Some(
                    (#[trigger] layer@.nodes[id]).number,
                ) ==> r == if p2p(layer@, layer@.nodes[id]) {
                    SessionType::P2P
                } else {
                    SessionType::Relay
                },
    {
        match self.session(layer) {
            Some((routing, session)) => {
                if routing.node.default_id.node_id == session.owner.default_id {
                    SessionType::P2P
                } else {
                    SessionType::Relay
                }
            },
            None => SessionType::Relay,
        }
    }
}

/// What comes of sending a packet with a sender: it goes over the routing of the sender, as long as
/// that is in use.
pub open spec fn sent(
    layer: &SessionLayer,
    sender: RoutingSender,
    packet: Seq<u8>,
    transport: TransportType,
    r: Result<Forward, SessionError>,
) -> bool {
    if in_use(layer@, sender.routing->Some_0) && sender.routing is Some {
        exists|id: NodeId|
            {
                let routing = #[trigger] layer@.nodes[id];
                &&& layer@.nodes.contains_key(id)
                &&& sender.routing == Some(routing.number)
                &&& if layer@.sessions.contains_key(routing.route) {
                    crate::routing_session::routed(
                        routing,
                        Some(&layer.sessions@[routing.route]),
                        packet,
                        transport,
                        r,
                    )
                } else {
                    crate::routing_session::routed(routing, None, packet, transport, r)
                }
            }
    } else {
        r matches Err(SessionError::Unexpected(m)) && m@ == "Routing session closed unexpectedly."@
    }
}

impl RoutingSender {
    /// Packet that carries a payload to the node, where there is a routing. Otherwise a session
    /// has to be established, and the packet sent with the sender that this gives.
    pub fn send(&self, layer: &SessionLayer, packet: Vec<u8>, transport: TransportType) -> (r:
        Sending)
        requires
            layer@.wf(),
        ensures
            if self.routing is Some && in_use(layer@, self.routing->Some_0) {
                r matches Sending::Done(result) && sent(layer, *self, packet@, transport, result)
            } else {
                r == Sending::Connect(packet)
            },
    {
        match self.upgrade(layer) {
            Some(_) => Sending::Done(self.send_connected(layer, packet, transport)),
            None => Sending::Connect(packet),
        }
    }

    /// Packet that carries a payload to the node, after a session was established.
    pub fn send_connected(
        &self,
        layer: &SessionLayer,
        packet: Vec<u8>,
        transport: TransportType,
    ) -> (r: Result<Forward, SessionError>)
        requires
            layer@.wf(),
        ensures
            sent(layer, *self, packet@, transport, r),
    {
        match self.upgrade(layer) {
            Some(routing) => {
                let ghost id = choose|id: NodeId|
                    layer@.nodes.contains_key(id) && #[trigger] layer@.nodes[id] == (*routing)@;
                let route = layer.sessions.get(&routing.route);
                let r = routing.send(route, packet, transport);
                assert(layer@.nodes[id].number == routing.number);
                r
            },
            None => Err(SessionError::Unexpected(owned("Routing session closed unexpectedly."))),
        }
    }
}

/// What is left of initializations with an address after they were aborted.
pub struct Aborted {
    /// Initializations to abort.
    pub initializations: Vec<u64>,
    /// Temporary session over which the other party is told, or why nothing was cleaned up.
    pub disconnect: Result<Option<RawSession>, SessionError>,
}

/// What aborting initializations leaves behind and returns.
pub open spec fn abort_outcome(
    m: LayerModel,
    remote: SocketAddr,
    after: LayerModel,
    r: Result<Aborted, SessionError>,
) -> bool {
    if !m.registry.by_addr.contains_key(remote) {
        &&& after == m
        &&& r matches Err(SessionError::NotFound(text)) && text@
            == "Can't find `NodeView` by addr "@ + remote.text()
    } else {
        let index = m.registry.by_addr[remote];
        let node = m.registry.nodes[index as int];
        &&& r matches Ok(aborted)
        &&& aborted.initializations@ == node.abort_handle
        &&& after == (LayerModel {
            registry: m.registry.with_node(
                index,
                NodeModel { abort_handle: Seq::empty(), ..node },
            ),
            protocol: after.protocol,
            ..m
        })
        &&& match m.protocol {
            None => after.protocol is None && (aborted.disconnect matches Err(
                SessionError::Internal(text),
            ) && text@ == "`SessionProtocol` empty (not initialized?)"@),
            Some(p) => {
                &&& after.protocol is Some
                &&& init_aborted(p, remote, after.protocol->Some_0)
                &&& aborted.disconnect == Ok::<Option<RawSession>, SessionError>(
                    if p.tmp.contains_key(remote) {
                        Some(p.tmp[remote].session)
                    } else {
                        None
                    },
                )
            },
        }
    }
}

impl SessionLayer {
    /// Aborts the initialization of sessions with an address, without waiting for its end.
    pub fn abort_initializations(&mut self, remote: SocketAddr) -> (r: Result<
        Aborted,
        SessionError,
    >)
        requires
            old(self)@.wf(),
        ensures
            final(self)@.wf(),
            abort_outcome(old(self)@, remote, final(self)@, r),
    {
        let ghost before = self@;
        let entry = match self.registry.get_entry_by_addr(&remote) {
            Some(entry) => entry,
            None => {
                let mut m = owned("Can't find `NodeView` by addr ");
                remote.push_text(&mut m);
                return Err(SessionError::NotFound(m));
            },
        };
        let initializations = entry.abort_initialization(&mut self.registry);
        let protocol = self.init_protocol.take();
        let disconnect = match protocol {
            Some(protocol) => {
                let mut protocol = protocol;
                let session = protocol.get_temporary_session(&remote);
                match session {
                    Some(session) => {
                        protocol.cleanup_initialization(&session.id);
                    },
                    None => {},
                }
                self.init_protocol = Some(protocol);
                Ok(session)
            },
            None => Err(
                SessionError::Internal(owned("`SessionProtocol` empty (not initialized?)")),
            ),
        };
        assert(self@ =~= (LayerModel {
            registry: self@.registry,
            protocol: self@.protocol,
            ..before
        }));
        proof {
            lemma_links_kept(before, self@);
        }
        Ok(Aborted { initializations, disconnect })
    }

    fn enter_closing(&mut self, node_id: NodeId, now: i64) -> (r: Result<NodeView, SessionError>)
        requires
            old(self)@.wf(),
            old(self)@.registry.nodes.len() < usize::MAX,
        ensures
            final(self)@.wf(),
            ({
                let (guarded, index) = old(self)@.registry.guarded(node_id, Seq::empty(), now);
                let before = guarded.nodes[index as int].state;
                if state_allowed(before, SessionState::Closing) {
                    &&& r == Ok::<NodeView, SessionError>(guarded.view_at(index))
                    &&& index < guarded.nodes.len()
                    &&& final(self)@ == closing(old(self)@, node_id, now)
                } else {
                    &&& final(self)@ == with_registry(old(self)@, guarded)
                    &&& r matches Err(SessionError::Internal(text)) && text@
                        == TransitionError::InvalidTransition(before, SessionState::Closing).text()
                }
            }),
    {
        let ghost before = self@;
        let none: Vec<SocketAddr> = Vec::new();
        assert(none@ =~= Seq::empty());
        let entry = self.registry.guard(node_id, &none, now);
        let ghost guarded = self.registry@;
        let result = entry.transition(&mut self.registry, SessionState::Closing);
        proof {
            lemma_links_kept(before, self@);
        }
        match result {
            Ok(_) => {
                assert(self@ =~= closing(before, node_id, now));
                Ok(entry)
            },
            Err(e) => {
                assert(self.registry@.nodes =~= guarded.nodes);
                assert(self@ =~= with_registry(before, guarded));
                Err(SessionError::from_transition(&e))
            },
        }
    }

    fn enter_closed(&mut self, entry: NodeView)
        requires
            old(self)@.wf(),
            old(self)@.registry.has(entry),
            old(self)@.registry.nodes[entry.index as int].state == SessionState::Closing,
        ensures
            final(self)@.wf(),
            final(self)@ == with_registry(
                old(self)@,
                old(self)@.registry.with_state(entry.index, SessionState::Closed),
            ),
    {
        let _ = entry.transition(&mut self.registry, SessionState::Closed);
        proof {
            lemma_links_kept(old(self)@, self@);
            assert(self@ =~= with_registry(
                old(self)@,
                old(self)@.registry.with_state(entry.index, SessionState::Closed),
            ));
        }
    }

    /// Disconnects from a node under all its ids. A session with it is closed.
    pub fn disconnect(&mut self, node_id: NodeId, now: i64) -> (r: Result<Closed, SessionError>)
        requires
            old(self)@.wf(),
            old(self)@.registry.nodes.len() < usize::MAX,
        ensures
            final(self)@.wf(),
            ended(
                old(self)@,
                node_id,
                now,
                closing(old(self)@, node_id, now).unregistered(node_id),
                closing(old(self)@, node_id, now).report(node_id),
                final(self)@,
                r,
            ),
    {
        let ghost before = self@;
        match self.enter_closing(node_id, now) {
            Ok(entry) => {
                let ghost closing = self@;
                let closed = self.unregister(node_id);
                proof {
                    lemma_unregistered_keeps_entries(closing, node_id);
                }
                self.enter_closed(entry);
                Ok(closed)
            },
            Err(e) => Err(e),
        }
    }

    /// Closes an open session.
    pub fn close_session(&mut self, session: SessionHandle, now: i64) -> (r: Result<
        Closed,
        SessionError,
    >)
        requires
            old(self)@.wf(),
            old(self)@.registry.nodes.len() < usize::MAX,
            old(self)@.sessions.contains_key(session),
        ensures
            final(self)@.wf(),
            ({
                let content = old(self)@.sessions[session];
                let node_id = content.owner.default_id;
                ended(
                    old(self)@,
                    node_id,
                    now,
                    closing(old(self)@, node_id, now).closed(content),
                    Closed { disconnect: Some(content.raw), target: node_id },
                    final(self)@,
                    r,
                )
            }),
    {
        let ghost before = self@;
        let node_id = match self.sessions.get(&session) {
            Some(session) => session.owner.default_id,
            None => NodeId::default(),
        };
        match self.enter_closing(node_id, now) {
            Ok(entry) => {
                let closed = self.unregister_session(session);
                self.enter_closed(entry);
                Ok(closed)
            },
            Err(e) => Err(e),
        }
    }

    /// Starts to shut down: takes out the tasks to abort, and forgets all handshakes.
    pub fn begin_shutdown(&mut self) -> (r: Stopped)
        requires
            old(self)@.wf(),
        ensures
            final(self)@.wf(),
            final(self)@ == (LayerModel { protocol: None, handles: Seq::empty(), ..old(self)@ }),
            r.tasks@ == old(self)@.handles,
            match old(self)@.protocol {
                Some(p) => crate::assoc::unique_keys(r.handshakes@) && crate::assoc::as_map(
                    r.handshakes@,
                ) == p.handles,
                None => r.handshakes@.len() == 0,
            },
    {
        let ghost before = self@;
        let mut tasks: Vec<u64> = Vec::new();
        std::mem::swap(&mut tasks, &mut self.handles);
        let protocol = self.init_protocol.take();
        let handshakes = match protocol {
            Some(protocol) => {
                let mut protocol = protocol;
                protocol.shutdown()
            },
            None => Vec::new(),
        };
        assert(self@ =~= (LayerModel { protocol: None, handles: Seq::empty(), ..before }));
        proof {
            lemma_links_kept(before, self@);
        }
        Stopped { tasks, handshakes }
    }

    /// Closes one of the open sessions while shutting down, if there is one left.
    pub fn close_next(&mut self) -> (r: Option<Closed>)
        requires
            old(self)@.wf(),
        ensures
            final(self)@.wf(),
            match r {
                Some(closed) => exists|a: SocketAddr|
                    {
                        let h = #[trigger] old(self)@.p2p_sessions[a];
                        &&& old(self)@.p2p_sessions.contains_key(a)
                        &&& final(self)@ == old(self)@.closed(old(self)@.sessions[h])
                        &&& closed == (Closed {
                            disconnect: Some(old(self)@.sessions[h].raw),
                            target: old(self)@.sessions[h].owner.default_id,
                        })
                    },
                None => final(self)@ == old(self)@ && old(self)@.p2p_sessions == Map::<
                    SocketAddr,
                    SessionHandle,
                >::empty(),
            },
    {
        let keys = self.p2p_sessions.keys();
        if keys.len() == 0 {
            assert(keys@.to_set() =~= Set::empty());
            assert(self@.p2p_sessions =~= Map::empty());
            return None;
        }
        let addr = keys[0];
        proof {
            assert(keys@.contains(addr));
            assert(self.p2p_sessions@.dom().contains(addr));
            assert(self@.sessions.contains_key(self@.p2p_sessions[addr]));
        }
        match self.p2p_sessions.get(&addr) {
            Some(h) => {
                let h = *h;
                let r = self.unregister_session(h);
                assert(old(self)@.p2p_sessions[addr] == h);
                Some(r)
            },
            None => None,
        }
    }

    /// Ends the shutdown: no packets can be sent any more.
    pub fn end_shutdown(&mut self)
        requires
            old(self)@.wf(),
        ensures
            final(self)@.wf(),
            final(self)@ == (LayerModel { listening: false, ..old(self)@ }),
    {
        self.listening = false;
        proof {
            lemma_links_kept(old(self)@, self@);
        }
    }
}

/// Unregistering a node keeps the entries of all nodes.
proof fn lemma_unregistered_keeps_entries(m: LayerModel, node_id: NodeId)
    requires
        m.wf(),
    ensures
        m.unregistered(node_id).registry.nodes == m.registry.nodes,
{
}

/// Each session that is closed while shutting down leaves one address less that leads to a
/// session, so that closing comes to an end.
pub proof fn lemma_shutdown_ends(m: LayerModel, a: SocketAddr)
    requires
        m.wf(),
        m.p2p_sessions.dom().finite(),
        m.p2p_sessions.contains_key(a),
    ensures
        m.closed(m.sessions[m.p2p_sessions[a]]).p2p_sessions.dom().finite(),
        m.closed(m.sessions[m.p2p_sessions[a]]).p2p_sessions.len() < m.p2p_sessions.len(),
{
    let h = m.p2p_sessions[a];
    assert(m.sessions.contains_key(m.p2p_sessions[a]));
    assert(m.sessions[h].raw.remote == a);
    assert(m.closed(m.sessions[h]).p2p_sessions == m.p2p_sessions.remove(a));
    assert(m.p2p_sessions.remove(a).dom() =~= m.p2p_sessions.dom().remove(a));
}

/// The layer with the content of a session replaced.
pub open spec fn with_session(m: LayerModel, h: SessionHandle, session: SessionModel) -> LayerModel {
    LayerModel { sessions: m.sessions.insert(h, session), ..m }
}

/// The layer before a step of a handshake is taken outside: packets over a session wait where its
/// last response is about to be sent.
pub open spec fn held_back(m: LayerModel, action: IncomingAction) -> LayerModel {
    match action {
        IncomingAction::Respond { session, .. } => if m.sessions.contains_key(session) {
            with_session(m, session, SessionModel { forward_pause: true, ..m.sessions[session] })
        } else {
            m
        },
        _ => m,
    }
}

/// A session may change the nodes it forwards packets to, and whether it does so.
pub proof fn lemma_session_replaced(m: LayerModel, h: SessionHandle, session: SessionModel)
    requires
        m.wf(),
        m.sessions.contains_key(h),
        session.owner == m.sessions[h].owner,
        session.raw == m.sessions[h].raw,
        session.forwards.wf(),
    ensures
        with_session(m, h, session).wf(),
{
    let after = with_session(m, h, session);
    assert forall|a: SocketAddr|
        after.p2p_sessions.contains_key(a) implies after.sessions.contains_key(
        #[trigger] after.p2p_sessions[a],
    ) && after.sessions[after.p2p_sessions[a]].raw.remote == a by {
        assert(m.sessions.contains_key(m.p2p_sessions[a]));
    }
    assert forall|id: NodeId| after.p2p_nodes.contains_key(id) implies after.sessions.contains_key(
        #[trigger] after.p2p_nodes[id],
    ) && after.sessions[after.p2p_nodes[id]].owner.identities.contains(id) by {
        assert(m.sessions.contains_key(m.p2p_nodes[id]));
    }
    assert forall|k: SessionHandle| #[trigger]
        after.sessions.contains_key(k) implies after.referenced(k) by {
        assert(m.sessions.contains_key(k));
        assert(m.referenced(k));
        if exists|a: SocketAddr|
            m.p2p_sessions.contains_key(a) && #[trigger] m.p2p_sessions[a] == k {
            let a = choose|a: SocketAddr|
                m.p2p_sessions.contains_key(a) && #[trigger] m.p2p_sessions[a] == k;
            assert(after.p2p_sessions[a] == k);
        } else {
            let a = choose|a: NodeId|
                m.p2p_nodes.contains_key(a) && #[trigger] m.p2p_nodes[a] == k;
            assert(after.p2p_nodes[a] == k);
        }
    }
    assert forall|id: NodeId| after.nodes.contains_key(id) implies (
    #[trigger] after.nodes[id]).number < after.next_number by {
        assert(m.nodes[id].number < m.next_number);
    }
    assert forall|k: SessionHandle| #[trigger] after.sessions.contains_key(k) implies k.number
        < after.next_number && after.sessions[k].forwards.wf() by {
        assert(m.sessions.contains_key(k));
    }
}

impl SessionLayer {
    /// Starts to forward packets for a node over a session, where it is open.
    pub fn register_forward(&mut self, h: SessionHandle, node: NodeEntry<NodeId>, slot: SlotId)
        requires
            old(self)@.wf(),
            node@.wf(),
        ensures
            final(self)@.wf(),
            final(self)@ == if old(self)@.sessions.contains_key(h) {
                with_session(
                    old(self)@,
                    h,
                    SessionModel {
                        forwards: old(self)@.sessions[h].forwards.added(node@, slot),
                        ..old(self)@.sessions[h]
                    },
                )
            } else {
                old(self)@
            },
    {
        let ghost before = self@;
        match self.sessions.remove(&h) {
            Some(session) => {
                let mut session = session;
                assert(before.sessions.contains_key(h) && session@ == before.sessions[h]);
                let ghost unchanged = session@;
                session.register(node, slot);
                let ghost changed = session@;
                assert(changed =~= (SessionModel {
                    forwards: unchanged.forwards.added(node@, slot),
                    ..unchanged
                }));
                self.sessions.insert(h, session);
                assert(self@.sessions =~= before.sessions.insert(h, changed));
                assert(self@ =~= with_session(before, h, changed));
                proof {
                    lemma_session_replaced(before, h, changed);
                }
            },
            None => {
                assert(self@.sessions =~= before.sessions);
                assert(self@ =~= before);
            },
        }
    }

    /// Stops forwarding packets for the node on a slot of an open session.
    pub fn remove_forward(&mut self, h: SessionHandle, slot: SlotId) -> (r: Result<NodeId, String>)
        requires
            old(self)@.wf(),
            old(self)@.sessions.contains_key(h),
        ensures
            final(self)@.wf(),
            final(self)@ == with_session(
                old(self)@,
                h,
                SessionModel {
                    forwards: old(self)@.sessions[h].forwards.removed_by_slot(slot),
                    ..old(self)@.sessions[h]
                },
            ),
            match r {
                Ok(node) => old(self)@.sessions[h].forwards.slots.contains_key(slot) && node
                    == old(self)@.sessions[h].forwards.slots[slot].default_id,
                Err(_) => !old(self)@.sessions[h].forwards.slots.contains_key(slot),
            },
    {
        let ghost before = self@;
        match self.sessions.remove(&h) {
            Some(session) => {
                let mut session = session;
                assert(session@ == before.sessions[h]);
                let ghost unchanged = session@;
                let r = session.remove_by_slot(slot);
                let ghost changed = session@;
                assert(changed =~= (SessionModel {
                    forwards: unchanged.forwards.removed_by_slot(slot),
                    ..unchanged
                }));
                self.sessions.insert(h, session);
                assert(self@.sessions =~= before.sessions.insert(h, changed));
                assert(self@ =~= with_session(before, h, changed));
                proof {
                    assert(before.sessions.contains_key(h));
                    lemma_session_replaced(before, h, changed);
                }
                r
            },
            None => Err(owned("")),
        }
    }

    /// Goes on with a handshake that another node started, and says what has to be done next.
    /// Where that is to send the last response, packets over the new session are held back from
    /// here on, until the node asks for them.
    pub fn init_session_handler(
        &mut self,
        handshake: &mut IncomingHandshake,
        event: IncomingEvent,
    ) -> (r: IncomingAction)
        requires
            old(self)@.wf(),
            old(self)@.registry.has(old(handshake).node),
        ensures
            final(self)@.wf(),
            final(self)@.registry.has(final(handshake).node),
            incoming_stepped(
                *old(handshake),
                old(self)@.registry,
                event,
                *final(handshake),
                final(self)@.registry,
                r,
            ),
            final(self)@ == held_back(with_registry(old(self)@, final(self)@.registry), r),
            r matches IncomingAction::Respond { session, .. } ==> old(self)@.sessions.contains_key(
                session,
            ) ==> final(self)@.sessions[session].forward_pause,
    {
        let ghost before = self@;
        let action = handshake.init_session_handler(&mut self.registry, event);
        assert(self@ =~= with_registry(before, self@.registry));
        proof {
            lemma_links_kept(before, self@);
        }
        if let IncomingAction::Respond { session, .. } = &action {
            if self.is_open(session) {
                self.set_forward_pause(*session, true);
            }
        }
        action
    }

    /// Holds packets over an open session back, or lets them through again.
    pub fn set_forward_pause(&mut self, h: SessionHandle, paused: bool)
        requires
            old(self)@.wf(),
            old(self)@.sessions.contains_key(h),
        ensures
            final(self)@.wf(),
            final(self)@ == with_session(
                old(self)@,
                h,
                SessionModel { forward_pause: paused, ..old(self)@.sessions[h] },
            ),
    {
        let ghost before = self@;
        match self.sessions.remove(&h) {
            Some(session) => {
                let mut session = session;
                assert(session@ == before.sessions[h]);
                let ghost unchanged = session@;
                if paused {
                    session.pause_forwarding();
                } else {
                    session.resume_forwarding();
                }
                let ghost changed = session@;
                assert(changed =~= (SessionModel { forward_pause: paused, ..unchanged }));
                self.sessions.insert(h, session);
                assert(self@.sessions =~= before.sessions.insert(h, changed));
                assert(self@ =~= with_session(before, h, changed));
                proof {
                    assert(before.sessions.contains_key(h));
                    lemma_session_replaced(before, h, changed);
                }
            },
            None => {},
        }
    }
}

} // verus!
