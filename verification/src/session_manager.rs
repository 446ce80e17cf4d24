//! Sessions of a node that reaches others directly or through one relay server.
//!
//! This is the only place that knows real addresses of other nodes. What stands above it uses
//! node ids and slots.
use vstd::prelude::*;
use vstd::string::*;

use crate::assoc::{AssocMap, Key};
use crate::config::ClientConfig;
use crate::direct_session::RawSession;
use crate::error::owned;
use crate::model::{
    Identity, NodeId, PublicKey, SessionId, SlotId, SocketAddr, FORWARD_SLOT_ID,
};
use crate::registry::{NodeEntry, NodesRegistry};
#[allow(unused_imports)]
use crate::registry::RegistryModel;
use crate::session_guard::GuardedSessions;
#[allow(unused_imports)]
use crate::session_guard::GuardModel;
use crate::transport_layer::ForwardSender;

verus! {

/// Packets for the tcp stack that come from this address through this slot need no look for the
/// node.
#[derive(Clone, Copy, Debug, PartialEq, Eq, Structural)]
pub struct Lane {
    pub from: SocketAddr,
    pub slot: SlotId,
}

impl Key for Lane {
    fn same(&self, other: &Self) -> (r: bool) {
        *self == *other
    }
}

/// Sessions with other nodes and with the relay server.
pub struct SessionManager {
    pub config: ClientConfig,
    /// Whether packets can be sent.
    pub sink: bool,
    /// Unknown also where this node has no public address.
    pub public_addr: Option<SocketAddr>,
    /// Unknown when this node does not listen.
    pub bind_addr: Option<SocketAddr>,
    pub registry: NodesRegistry,
    pub guarded: GuardedSessions,
    pub fast_lane: AssocMap<Lane, ()>,
    pub sessions: AssocMap<SocketAddr, RawSession>,
    pub nodes_addr: AssocMap<SocketAddr, NodeId>,
    pub nodes_identity: AssocMap<NodeId, (NodeId, PublicKey)>,
    pub forward_reliable: AssocMap<NodeId, ForwardSender>,
    pub forward_unreliable: AssocMap<NodeId, ForwardSender>,
    pub p2p_sessions: AssocMap<NodeId, RawSession>,
    /// Whether nodes can start sessions with this one.
    pub starting: bool,
    /// Background tasks that have to be stopped on shutdown, by their numbers.
    pub handles: Vec<u64>,
}

/// Mathematical content of a [`SessionManager`].
#[verifier::ext_equal]
pub struct ManagerModel {
    pub config: ClientConfig,
    pub sink: bool,
    pub public_addr: Option<SocketAddr>,
    pub bind_addr: Option<SocketAddr>,
    pub registry: RegistryModel,
    pub guarded: GuardModel,
    pub fast_lane: Map<Lane, ()>,
    pub sessions: Map<SocketAddr, RawSession>,
    pub nodes_addr: Map<SocketAddr, NodeId>,
    pub nodes_identity: Map<NodeId, (NodeId, PublicKey)>,
    pub forward_reliable: Map<NodeId, ForwardSender>,
    pub forward_unreliable: Map<NodeId, ForwardSender>,
    pub p2p_sessions: Map<NodeId, RawSession>,
    pub starting: bool,
    pub handles: Seq<u64>,
}

impl View for SessionManager {
    type V = ManagerModel;

    open spec fn view(&self) -> ManagerModel {
        ManagerModel {
            config: self.config,
            sink: self.sink,
            public_addr: self.public_addr,
            bind_addr: self.bind_addr,
            registry: self.registry@,
            guarded: self.guarded@,
            fast_lane: self.fast_lane@,
            sessions: self.sessions@,
            nodes_addr: self.nodes_addr@,
            nodes_identity: self.nodes_identity@,
            forward_reliable: self.forward_reliable@,
            forward_unreliable: self.forward_unreliable@,
            p2p_sessions: self.p2p_sessions@,
            starting: self.starting,
            handles: self.handles@,
        }
    }
}

/// Identities with the node that they belong to under their ids, but for the id of the node
/// itself. Where an id occurs twice, the last one counts.
pub open spec fn with_identities(
    m: Map<NodeId, (NodeId, PublicKey)>,
    node_id: NodeId,
    identities: Seq<Identity>,
) -> Map<NodeId, (NodeId, PublicKey)>
    decreases identities.len(),
{
    if identities.len() == 0 {
        m
    } else {
        let before = with_identities(m, node_id, identities.drop_last());
        if identities.last().node_id == node_id {
            before
        } else {
            before.insert(identities.last().node_id, (node_id, identities.last().public_key))
        }
    }
}

impl ManagerModel {
    /// Both the nodes and the guards are consistent.
    pub open spec fn wf(self) -> bool {
        self.registry.wf() && self.guarded.wf()
    }

    /// Session with an address.
    pub open spec fn session(self, addr: SocketAddr) -> Option<RawSession> {
        if self.sessions.contains_key(addr) {
            Some(self.sessions[addr])
        } else {
            None
        }
    }

    /// The same with a session and the identities of the node behind it. A session that the
    /// address had stays.
    pub open spec fn with_session(
        self,
        session: RawSession,
        node_id: NodeId,
        identities: Seq<Identity>,
    ) -> ManagerModel {
        ManagerModel {
            sessions: if self.sessions.contains_key(session.remote) {
                self.sessions
            } else {
                self.sessions.insert(session.remote, session)
            },
            nodes_identity: with_identities(self.nodes_identity, node_id, identities),
            ..self
        }
    }

    /// The same with a direct session to a node.
    pub open spec fn with_p2p(self, node_id: NodeId, session: RawSession, addr: SocketAddr) -> ManagerModel {
        ManagerModel {
            nodes_addr: self.nodes_addr.insert(addr, node_id),
            p2p_sessions: self.p2p_sessions.insert(node_id, session),
            ..self
        }
    }

    /// The same after communication with a node stopped.
    pub open spec fn without_node(self, node_id: NodeId) -> ManagerModel {
        ManagerModel {
            fast_lane: Map::empty(),
            registry: self.registry.without_node(node_id),
            forward_reliable: self.forward_reliable.remove(node_id),
            forward_unreliable: self.forward_unreliable.remove(node_id),
            nodes_addr: if self.p2p_sessions.contains_key(node_id) {
                self.nodes_addr.remove(self.p2p_sessions[node_id].remote)
            } else {
                self.nodes_addr
            },
            p2p_sessions: self.p2p_sessions.remove(node_id),
            ..self
        }
    }

    /// The same after communication with some nodes stopped, one after the other.
    pub open spec fn without_nodes(self, ids: Seq<NodeId>) -> ManagerModel
        decreases ids.len(),
    {
        if ids.len() == 0 {
            self
        } else {
            self.without_nodes(ids.drop_last()).without_node(ids.last())
        }
    }

    /// The same without a session, before the nodes behind it are dealt with. No packet takes the
    /// fast lane any more when the session with the relay server is gone.
    pub open spec fn without_session(self, session: RawSession) -> ManagerModel {
        ManagerModel {
            fast_lane: if session.remote == self.config.srv_addr {
                Map::empty()
            } else {
                self.fast_lane
            },
            sessions: self.sessions.remove(session.remote),
            nodes_addr: self.nodes_addr.remove(session.remote),
            ..self
        }
    }
}

/// Channels to a node that have to be closed.
#[derive(Clone, Copy, Debug, PartialEq, Eq, Structural)]
pub struct RemovedNode {
    pub node_id: NodeId,
    pub reliable: Option<ForwardSender>,
    pub unreliable: Option<ForwardSender>,
}

/// The channels to a node.
pub open spec fn channels_of(m: ManagerModel, node_id: NodeId) -> RemovedNode {
    RemovedNode {
        node_id,
        reliable: if m.forward_reliable.contains_key(node_id) {
            Some(m.forward_reliable[node_id])
        } else {
            None
        },
        unreliable: if m.forward_unreliable.contains_key(node_id) {
            Some(m.forward_unreliable[node_id])
        } else {
            None
        },
    }
}

/// A node is known behind one of the addresses.
pub open spec fn some_connected(m: ManagerModel, addrs: Seq<SocketAddr>) -> bool {
    exists|i: int| 0 <= i < addrs.len() && m.nodes_addr.contains_key(#[trigger] addrs[i])
}

/// Ids of nodes that were removed.
pub open spec fn removed_ids(removed: Seq<RemovedNode>) -> Seq<NodeId> {
    removed.map_values(|r: RemovedNode| r.node_id)
}

/// Whether the closing of a session touches a node: the one that is known under its address, or
/// where none is, each one for which data goes through the session.
pub open spec fn touched(m: ManagerModel, session: RawSession, node_id: NodeId) -> bool {
    if m.nodes_addr.contains_key(session.remote) {
        node_id == m.nodes_addr[session.remote]
    } else {
        m.registry.uses(node_id, session)
    }
}

/// What the closing of a session leaves behind.
pub open spec fn session_closed(
    m: ManagerModel,
    session: RawSession,
    after: ManagerModel,
    removed: Seq<RemovedNode>,
) -> bool {
    &&& removed_ids(removed).no_duplicates()
    &&& forall|id: NodeId| #[trigger] removed_ids(removed).contains(id) <==> touched(m, session, id)
    &&& forall|i: int|
        0 <= i < removed.len() ==> #[trigger] removed[i] == channels_of(m, removed[i].node_id)
    &&& after == m.without_session(session).without_nodes(removed_ids(removed))
}

impl SessionManager {
    /// Without sessions, before packets can be sent.
    pub fn new(config: ClientConfig) -> (r: SessionManager)
        ensures
            r@.wf(),
            r@ == (ManagerModel {
                config,
                sink: false,
                public_addr: None,
                bind_addr: None,
                registry: RegistryModel::empty(),
                guarded: GuardModel {
                    targets: Map::empty(),
                    by_addr: Map::empty(),
                    tmp: Map::empty(),
                },
                fast_lane: Map::empty(),
                sessions: Map::empty(),
                nodes_addr: Map::empty(),
                nodes_identity: Map::empty(),
                forward_reliable: Map::empty(),
                forward_unreliable: Map::empty(),
                p2p_sessions: Map::empty(),
                starting: false,
                handles: Seq::empty(),
            }),
    {
        SessionManager {
            config,
            sink: false,
            public_addr: None,
            bind_addr: None,
            registry: NodesRegistry::new(),
            guarded: GuardedSessions::new(),
            fast_lane: AssocMap::new(),
            sessions: AssocMap::new(),
            nodes_addr: AssocMap::new(),
            nodes_identity: AssocMap::new(),
            forward_reliable: AssocMap::new(),
            forward_unreliable: AssocMap::new(),
            p2p_sessions: AssocMap::new(),
            starting: false,
            handles: Vec::new(),
        }
    }

    /// Packets can be sent from an address from now on, sessions are accepted, and the tasks that
    /// read packets and look for silent sessions run.
    pub fn spawn(&mut self, bind_addr: SocketAddr, dispatcher: u64, expiration: u64)
        requires
            old(self)@.wf(),
        ensures
            final(self)@.wf(),
            final(self)@ == (ManagerModel {
                sink: true,
                bind_addr: Some(bind_addr),
                starting: true,
                handles: old(self)@.handles.push(dispatcher).push(expiration),
                ..old(self)@
            }),
    {
        self.sink = true;
        self.bind_addr = Some(bind_addr);
        self.handles.push(dispatcher);
        self.handles.push(expiration);
        self.starting = true;
    }

    /// Public address of this node, if it has one that is known.
    pub fn get_public_addr(&self) -> (r: Option<SocketAddr>)
        ensures
            r == self@.public_addr,
    {
        self.public_addr
    }

    /// Remembers the public address of this node.
    pub fn set_public_addr(&mut self, addr: Option<SocketAddr>)
        requires
            old(self)@.wf(),
        ensures
            final(self)@.wf(),
            final(self)@ == (ManagerModel { public_addr: addr, ..old(self)@ }),
    {
        self.public_addr = addr;
    }

    /// Node behind an address.
    pub fn remote_id(&self, addr: &SocketAddr) -> (r: Option<NodeId>)
        ensures
            r == if self@.nodes_addr.contains_key(*addr) {
                Some(self@.nodes_addr[*addr])
            } else {
                None
            },
    {
        match self.nodes_addr.get(addr) {
            Some(id) => Some(*id),
            None => None,
        }
    }

    /// Default id of the node that has another id.
    pub fn alias(&self, node_id: &NodeId) -> (r: Option<NodeId>)
        ensures
            r == if self@.nodes_identity.contains_key(*node_id) {
                Some(self@.nodes_identity[*node_id].0)
            } else {
                None
            },
    {
        match self.nodes_identity.get(node_id) {
            Some(found) => Some(found.0),
            None => None,
        }
    }

    /// Whether there is a direct session with a node.
    pub fn is_p2p(&self, node_id: &NodeId) -> (r: bool)
        ensures
            r == self@.p2p_sessions.contains_key(*node_id),
    {
        self.p2p_sessions.contains_key(node_id)
    }

    /// All ids of nodes: first the aliases, each once, then the default ids, each once.
    pub fn list_identities(&self) -> (r: Vec<NodeId>)
        ensures
            exists|k: int|
                0 <= k <= r@.len() && (#[trigger] r@.take(k)).no_duplicates() && r@.take(k).to_set()
                    == self@.nodes_identity.dom() && r@.skip(k).no_duplicates() && r@.skip(
                    k,
                ).to_set() == self@.registry.nodes.dom(),
    {
        let mut ids = self.nodes_identity.keys();
        let mut nodes = self.registry.list_nodes();
        let ghost aliases = ids@;
        let ghost defaults = nodes@;
        ids.append(&mut nodes);
        proof {
            let k = aliases.len() as int;
            assert(ids@.take(k) =~= aliases);
            assert(ids@.skip(k) =~= defaults);
        }
        ids
    }

    /// Packets can be sent only once there is somewhere to put them.
    pub fn out_stream(&self) -> (r: Result<(), String>)
        ensures
            match r {
                Ok(_) => self@.sink,
                Err(text) => !self@.sink && text@ == "Network sink not initialized"@,
            },
    {
        if self.sink {
            Ok(())
        } else {
            Err(owned("Network sink not initialized"))
        }
    }

    /// Session with an address that is used only during initialization.
    pub fn temporary_session(&mut self, addr: SocketAddr, fresh: SessionId) -> (r: Result<
        RawSession,
        String,
    >)
        requires
            old(self)@.wf(),
        ensures
            final(self)@.wf(),
            match r {
                Ok(session) => old(self)@.sink && session == (if old(self)@.guarded.tmp.contains_key(addr) {
                    old(self)@.guarded.tmp[addr]
                } else {
                    RawSession { id: fresh, remote: addr }
                }) && final(self)@ == (ManagerModel {
                    guarded: GuardModel {
                        tmp: old(self)@.guarded.tmp.insert(addr, session),
                        ..old(self)@.guarded
                    },
                    ..old(self)@
                }),
                Err(text) => !old(self)@.sink && text@ == "Network sink not initialized"@ && final(self)@ == old(self)@,
            },
    {
        match self.out_stream() {
            Ok(_) => Ok(self.guarded.temporary_session(addr, fresh)),
            Err(e) => Err(e),
        }
    }

    /// All sessions, under their addresses.
    pub fn sessions(&self) -> (r: Vec<(SocketAddr, RawSession)>)
        ensures
            crate::assoc::unique_keys(r@),
            crate::assoc::as_map(r@) == self@.sessions,
    {
        self.sessions.items()
    }

    /// Session with an address.
    pub fn find_session(&self, addr: SocketAddr) -> (r: Option<RawSession>)
        ensures
            r == self@.session(addr),
    {
        match self.sessions.get(&addr) {
            Some(session) => Some(*session),
            None => None,
        }
    }

    /// Session with an address.
    pub fn get_session(&self, addr: SocketAddr) -> (r: Option<RawSession>)
        ensures
            r == self@.session(addr),
    {
        self.find_session(addr)
    }

    /// Session with the relay server.
    pub fn get_server_session(&self) -> (r: Option<RawSession>)
        ensures
            r == self@.session(self@.config.srv_addr),
    {
        self.find_session(self.config.srv_addr)
    }

    fn add_identities(&mut self, node_id: NodeId, identities: &Vec<Identity>)
        ensures
            final(self)@ == (ManagerModel {
                nodes_identity: with_identities(
                    old(self)@.nodes_identity,
                    node_id,
                    identities@,
                ),
                ..old(self)@
            }),
    {
        let ghost before = self@;
        let mut i: usize = 0;
        assert(identities@.take(0) =~= Seq::empty());
        while i < identities.len()
            invariant
                0 <= i <= identities@.len(),
                self@ == (ManagerModel {
                    nodes_identity: with_identities(
                        before.nodes_identity,
                        node_id,
                        identities@.take(i as int),
                    ),
                    ..before
                }),
            decreases identities@.len() - i,
        {
            let ident = identities[i];
            proof {
                let next = identities@.take(i + 1);
                assert(next.drop_last() =~= identities@.take(i as int));
                assert(next.last() == ident);
            }
            if ident.node_id != node_id {
                self.nodes_identity.insert(ident.node_id, (node_id, ident.public_key));
            }
            i += 1;
        }
        assert(identities@.take(i as int) =~= identities@);
    }

    /// Adds a session that this node initialized, and the identities of the node behind it.
    pub fn add_session(
        &mut self,
        addr: SocketAddr,
        id: SessionId,
        node_id: NodeId,
        identities: &Vec<Identity>,
    ) -> (r: Result<RawSession, String>)
        requires
            old(self)@.wf(),
        ensures
            final(self)@.wf(),
            match r {
                Ok(session) => old(self)@.sink && session == (RawSession { id, remote: addr })
                    && final(self)@ == old(self)@.with_session(session, node_id, identities@),
                Err(text) => !old(self)@.sink && text@ == "Network sink not initialized"@ && final(self)@ == old(self)@,
            },
    {
        match self.out_stream() {
            Ok(_) => {},
            Err(e) => {
                return Err(e);
            },
        }
        let session = RawSession { id, remote: addr };
        if !self.sessions.contains_key(&addr) {
            self.sessions.insert(addr, session);
        }
        self.add_identities(node_id, identities);
        assert(self@ =~= old(self)@.with_session(session, node_id, identities@));
        Ok(session)
    }

    /// Adds a session that another node initialized. Such sessions are always direct.
    pub fn add_incoming_session(
        &mut self,
        addr: SocketAddr,
        id: SessionId,
        node_id: NodeId,
        identities: &Vec<Identity>,
    ) -> (r: Result<RawSession, String>)
        requires
            old(self)@.wf(),
        ensures
            final(self)@.wf(),
            match r {
                Ok(session) => old(self)@.sink && session == (RawSession { id, remote: addr })
                    && final(self)@ == (ManagerModel {
                    registry: old(self)@.registry.with_node(
                        NodeEntry { id: node_id, session, slot: FORWARD_SLOT_ID },
                    ),
                    ..old(self)@
                }).with_session(session, node_id, identities@).with_p2p(node_id, session, addr),
                Err(text) => !old(self)@.sink && text@ == "Network sink not initialized"@ && final(self)@ == old(self)@,
            },
    {
        match self.out_stream() {
            Ok(_) => {},
            Err(e) => {
                return Err(e);
            },
        }
        self.registry.add_node(node_id, RawSession { id, remote: addr }, FORWARD_SLOT_ID);
        match self.add_session(addr, id, node_id, identities) {
            Ok(session) => {
                self.nodes_addr.insert(addr, node_id);
                self.p2p_sessions.insert(node_id, session);
                Ok(session)
            },
            Err(e) => Err(e),
        }
    }

    /// Stops communication with a node. The channels to it have to be closed.
    pub fn remove_node(&mut self, node_id: NodeId) -> (r: RemovedNode)
        requires
            old(self)@.wf(),
        ensures
            final(self)@.wf(),
            final(self)@ == old(self)@.without_node(node_id),
            r == channels_of(old(self)@, node_id),
    {
        self.fast_lane.clear();
        self.registry.remove_node(node_id);
        let reliable = self.forward_reliable.remove(&node_id);
        let unreliable = self.forward_unreliable.remove(&node_id);
        match self.p2p_sessions.remove(&node_id) {
            Some(session) => {
                self.nodes_addr.remove(&session.remote);
            },
            None => {},
        }
        assert(self@ =~= old(self)@.without_node(node_id));
        RemovedNode { node_id, reliable, unreliable }
    }

    /// Stops communication with some nodes.
    fn remove_nodes(&mut self, ids: &Vec<NodeId>) -> (r: Vec<RemovedNode>)
        requires
            old(self)@.wf(),
            ids@.no_duplicates(),
        ensures
            final(self)@.wf(),
            removed_ids(r@) == ids@,
            forall|i: int|
                0 <= i < r@.len() ==> #[trigger] r@[i] == channels_of(old(self)@, r@[i].node_id),
            final(self)@ == old(self)@.without_nodes(ids@),
    {
        let ghost before = self@;
        let mut removed: Vec<RemovedNode> = Vec::new();
        let mut i: usize = 0;
        assert(removed_ids(removed@) =~= ids@.take(0));
        while i < ids.len()
            invariant
                0 <= i <= ids@.len(),
                ids@.no_duplicates(),
                self@.wf(),
                removed_ids(removed@) == ids@.take(i as int),
                forall|k: int|
                    0 <= k < removed@.len() ==> #[trigger] removed@[k] == channels_of(
                        before,
                        removed@[k].node_id,
                    ),
                self@ == before.without_nodes(ids@.take(i as int)),
            decreases ids@.len() - i,
        {
            let id = ids[i];
            proof {
                let next = ids@.take(i + 1);
                assert(next.drop_last() =~= ids@.take(i as int));
                assert(next.last() == id);
                assert(!ids@.take(i as int).contains(id)) by {
                    let seen = ids@.take(i as int);
                    if seen.contains(id) {
                        let k = choose|k: int| 0 <= k < seen.len() && seen[k] == id;
                        assert(ids@[k] == ids@[i as int]);
                    }
                }
                lemma_others_keep_channels(before, ids@.take(i as int), id);
            }
            let ghost last = removed@;
            let one = self.remove_node(id);
            removed.push(one);
            assert(removed_ids(removed@) =~= removed_ids(last).push(id));
            assert(removed_ids(removed@) =~= ids@.take(i + 1));
            i += 1;
        }
        assert(ids@.take(i as int) =~= ids@);
        removed
    }

    /// Closes a session. The node known under its address is removed. Where there is none, the
    /// session leads to the relay server, and all nodes that use it are removed.
    pub fn close_session(&mut self, session: RawSession) -> (r: Vec<RemovedNode>)
        requires
            old(self)@.wf(),
        ensures
            final(self)@.wf(),
            session_closed(old(self)@, session, final(self)@, r@),
    {
        self.sessions.remove(&session.remote);
        let known = self.nodes_addr.remove(&session.remote);
        if session.remote == self.config.srv_addr {
            self.fast_lane.clear();
        }
        assert(self@ =~= old(self)@.without_session(session));
        let ids = match known {
            Some(id) => {
                let mut ids: Vec<NodeId> = Vec::new();
                ids.push(id);
                assert(ids@ =~= seq![id]);
                assert forall|other: NodeId| ids@.contains(other) == (other == id) by {
                    if other == id {
                        assert(ids@[0] == other);
                    }
                }
                ids
            },
            None => self.registry.nodes_using_session(session),
        };
        let removed = self.remove_nodes(&ids);
        proof {
            let before = old(self)@.without_session(session);
            assert forall|i: int| 0 <= i < removed@.len() implies #[trigger] removed@[i]
                == channels_of(old(self)@, removed@[i].node_id) by {
                assert(removed@[i] == channels_of(before, removed@[i].node_id));
            }
            assert forall|id: NodeId| #[trigger]
                removed_ids(removed@).contains(id) <==> touched(old(self)@, session, id) by {}
        }
        removed
    }

    /// Closes the session with the relay server, if there is one.
    pub fn drop_server_session(&mut self) -> (r: Option<(RawSession, Vec<RemovedNode>)>)
        requires
            old(self)@.wf(),
        ensures
            final(self)@.wf(),
            match r {
                Some((session, removed)) => old(self)@.session(old(self)@.config.srv_addr) == Some(session)
                    && session_closed(old(self)@, session, final(self)@, removed@),
                None => old(self)@.session(old(self)@.config.srv_addr) is None && final(self)@ == old(self)@,
            },
    {
        match self.get_server_session() {
            Some(session) => {
                let removed = self.close_session(session);
                Some((session, removed))
            },
            None => None,
        }
    }

    /// Fails if this node is connected to one of the addresses. The error names the first such
    /// address.
    pub fn assert_not_connected(&self, addrs: &Vec<SocketAddr>) -> (r: Result<(), String>)
        ensures
            match r {
                Ok(_) => forall|i: int|
                    0 <= i < addrs@.len() ==> !self@.nodes_addr.contains_key(#[trigger] addrs@[i]),
                Err(text) => exists|i: int|
                    0 <= i < addrs@.len() && self@.nodes_addr.contains_key(#[trigger] addrs@[i])
                        && text@ == "already connected to "@ + addrs@[i].text() && (forall|j: int|
                        0 <= j < i ==> !self@.nodes_addr.contains_key(#[trigger] addrs@[j])),
            },
            r is Err <==> some_connected(self@, addrs@),
    {
        let mut i: usize = 0;
        while i < addrs.len()
            invariant
                0 <= i <= addrs@.len(),
                forall|j: int|
                    0 <= j < i ==> !self@.nodes_addr.contains_key(#[trigger] addrs@[j]),
            decreases addrs@.len() - i,
        {
            if self.nodes_addr.contains_key(&addrs[i]) {
                let mut text = owned("already connected to ");
                addrs[i].push_text(&mut text);
                return Err(text);
            }
            i += 1;
        }
        Ok(())
    }

    /// Begins to shut down: no sessions are accepted any more. The tasks have to be stopped, and
    /// the sessions closed.
    pub fn begin_shutdown(&mut self) -> (r: (bool, Vec<u64>))
        requires
            old(self)@.wf(),
        ensures
            final(self)@.wf(),
            r.0 == old(self)@.starting,
            r.1@ == old(self)@.handles,
            final(self)@ == (ManagerModel {
                starting: false,
                handles: Seq::empty(),
                ..old(self)@
            }),
    {
        let starting = self.starting;
        self.starting = false;
        let mut handles: Vec<u64> = Vec::new();
        std::mem::swap(&mut handles, &mut self.handles);
        (starting, handles)
    }

    /// Shuts down, once the sessions are closed: nothing can be sent any more. Tells whether the
    /// socket has to be closed.
    pub fn shutdown(&mut self) -> (r: bool)
        requires
            old(self)@.wf(),
        ensures
            final(self)@.wf(),
            r == old(self)@.sink,
            final(self)@ == (ManagerModel {
                sink: false,
                guarded: GuardModel { tmp: Map::empty(), ..old(self)@.guarded },
                ..old(self)@
            }),
    {
        let sink = self.sink;
        self.sink = false;
        self.guarded.shutdown();
        sink
    }
}

proof fn lemma_others_keep_channels(m: ManagerModel, ids: Seq<NodeId>, other: NodeId)
    requires
        !ids.contains(other),
    ensures
        channels_of(m.without_nodes(ids), other) == channels_of(m, other),
    decreases ids.len(),
{
    if ids.len() > 0 {
        let rest = ids.drop_last();
        assert(ids.contains(ids.last()));
        assert(!rest.contains(other)) by {
            if rest.contains(other) {
                let k = choose|k: int| 0 <= k < rest.len() && rest[k] == other;
                assert(ids[k] == other);
            }
        }
        lemma_others_keep_channels(m, rest, other);
    }
}

proof fn lemma_nodes_left(m: ManagerModel, ids: Seq<NodeId>, other: NodeId)
    ensures
        m.without_nodes(ids).registry.nodes.contains_key(other) <==> m.registry.nodes.contains_key(
            other,
        ) && !ids.contains(other),
        m.without_nodes(ids).registry.nodes.contains_key(other)
            ==> m.without_nodes(ids).registry.nodes[other] == m.registry.nodes[other],
        m.without_nodes(ids).sessions == m.sessions,
        m.fast_lane.dom().is_empty() ==> m.without_nodes(ids).fast_lane.dom().is_empty(),
    decreases ids.len(),
{
    if ids.len() > 0 {
        let rest = ids.drop_last();
        lemma_nodes_left(m, rest, other);
        assert(ids =~= rest.push(ids.last()));
        crate::assoc::lemma_contains_push(rest, ids.last());
    }
}

/// A closed session is found neither under its address nor, where it led to the relay server,
/// behind any node. Nodes that it did not touch stay. With the session to the relay server all fast
/// lanes are gone.
pub proof fn lemma_closed_session_is_gone(
    m: ManagerModel,
    session: RawSession,
    after: ManagerModel,
    removed: Seq<RemovedNode>,
    node_id: NodeId,
)
    requires
        m.wf(),
        session_closed(m, session, after, removed),
    ensures
        after.session(session.remote) is None,
        !m.nodes_addr.contains_key(session.remote) ==> !after.registry.uses(node_id, session),
        !touched(m, session, node_id) ==> after.registry.node(node_id) == m.registry.node(node_id),
        touched(m, session, node_id) ==> after.registry.node(node_id) is None,
        session.remote == m.config.srv_addr ==> after.fast_lane.dom().is_empty(),
{
    let ids = removed_ids(removed);
    lemma_nodes_left(m.without_session(session), ids, node_id);
    assert(ids.contains(node_id) <==> touched(m, session, node_id));
}

} // verus!
