//! Sessions with other nodes, and what leads to which session.
//!
//! There are three ways to communicate with a node: directly, where it has public ports; by a
//! reverse connection, where this node has public ports and the other node is asked to connect;
//! and over a relay server that forwards packets, where nothing else works.
use std::sync::Arc;

use vstd::prelude::*;
use vstd::string::*;

use crate::assoc::AssocMap;
#[allow(unused_imports)]
use crate::assoc::{lemma_contains_push, with_all};
use crate::config::ClientConfig;
use crate::direct_session::{
    all_ids, default_ids, DirectSession, NodeEntry, RawSession,
};
#[allow(unused_imports)]
use crate::direct_session::{
    lemma_listed_ids, lemma_removed_wf, EntryModel, ForwardsModel, SessionModel,
};
use crate::encryption::SessionEncryption;
use crate::error::owned;
use crate::model::{
    copy_list, identity_ids, Identity, NodeId, SessionHandle, SessionId, SocketAddr,
};
#[allow(unused_imports)]
use crate::model::ids_of;
use crate::network_view::{NetworkView, NetworkViewConfig, NodeSnapshot};
#[allow(unused_imports)]
use crate::network_view::{NetworkModel, NODE_INFO_TTL};
use crate::requests::RequestHistory;
#[allow(unused_imports)]
use crate::requests::{FingerprintModel, REQ_DEDUPLICATE_BUF_SIZE};
use crate::routing_session::NodeRouting;
#[allow(unused_imports)]
use crate::routing_session::RoutingModel;
use crate::session_initializer::SessionInitializer;
#[allow(unused_imports)]
use crate::session_initializer::InitializerModel;

verus! {

/// The way in which a connection was established.
#[derive(Clone, Copy, Debug, PartialEq, Eq, Structural)]
pub enum ConnectionMethod {
    Direct,
    Reverse,
    Relay,
}

impl ConnectionMethod {
    pub open spec fn number(self) -> u16 {
        match self {
            ConnectionMethod::Direct => 1,
            ConnectionMethod::Reverse => 2,
            ConnectionMethod::Relay => 3,
        }
    }

    /// Number under which the method shows in metrics.
    pub fn metric(&self) -> (r: u16)
        ensures
            r == self.number(),
    {
        match self {
            ConnectionMethod::Direct => 1,
            ConnectionMethod::Reverse => 2,
            ConnectionMethod::Relay => 3,
        }
    }

    /// Number under which the lack of a session shows in metrics.
    pub fn no_connection() -> (r: u16)
        ensures
            r == 0,
    {
        0
    }
}

/// Each method shows under a number of its own, and none under that of a lacking session.
pub proof fn lemma_methods_have_own_numbers(a: ConnectionMethod, b: ConnectionMethod)
    ensures
        a.number() != 0,
        a.number() == b.number() <==> a == b,
{
}

/// Sessions with other nodes, and what leads to which session.
pub struct SessionLayer {
    pub config: ClientConfig,
    /// Whether packets can be sent.
    pub listening: bool,
    /// Address under which this node is reachable. Unset while this node has no public address.
    pub public_addr: Option<SocketAddr>,
    /// Address that this node listens on.
    pub bind_addr: Option<SocketAddr>,
    /// Ways to nodes, for default and secondary ids.
    pub nodes: AssocMap<NodeId, Arc<NodeRouting>>,
    pub p2p_sessions: AssocMap<SocketAddr, SessionHandle>,
    pub p2p_nodes: AssocMap<NodeId, SessionHandle>,
    /// All open sessions.
    pub sessions: AssocMap<SessionHandle, DirectSession>,
    pub init_protocol: Option<SessionInitializer>,
    pub registry: NetworkView,
    pub processed_requests: RequestHistory,
    /// Background tasks to stop on shutdown.
    pub handles: Vec<u64>,
    /// Number for the next session or routing.
    pub next_number: u64,
}

/// Mathematical content of a [`SessionLayer`].
#[verifier::ext_equal]
pub struct LayerModel {
    pub config: ClientConfig,
    pub listening: bool,
    pub public_addr: Option<SocketAddr>,
    pub bind_addr: Option<SocketAddr>,
    pub nodes: Map<NodeId, RoutingModel>,
    pub p2p_sessions: Map<SocketAddr, SessionHandle>,
    pub p2p_nodes: Map<NodeId, SessionHandle>,
    pub sessions: Map<SessionHandle, SessionModel>,
    pub protocol: Option<InitializerModel>,
    pub registry: NetworkModel,
    pub requests: Seq<FingerprintModel>,
    pub handles: Seq<u64>,
    pub next_number: u64,
}

impl View for SessionLayer {
    type V = LayerModel;

    open spec fn view(&self) -> LayerModel {
        LayerModel {
            config: self.config,
            listening: self.listening,
            public_addr: self.public_addr,
            bind_addr: self.bind_addr,
            nodes: self.nodes@.map_values(|r: Arc<NodeRouting>| (*r)@),
            p2p_sessions: self.p2p_sessions@,
            p2p_nodes: self.p2p_nodes@,
            sessions: self.sessions@.map_values(|s: DirectSession| s@),
            protocol: match self.init_protocol {
                Some(p) => Some(p@),
                None => None,
            },
            registry: self.registry@,
            requests: self.processed_requests@,
            handles: self.handles@,
            next_number: self.next_number,
        }
    }
}

/// What is needed to register a session whose handshake is over.
pub struct SessionRegistrationInfo {
    pub addr: SocketAddr,
    pub id: SessionId,
    pub node_id: NodeId,
    /// Empty for a relay server.
    pub identities: Vec<Identity>,
    pub encryption: SessionEncryption,
}

/// The first identity with an id.
pub open spec fn identity_with(identities: Seq<Identity>, id: NodeId) -> Identity
    decreases identities.len(),
{
    if identities.len() == 0 {
        arbitrary()
    } else if identities[0].node_id == id {
        identities[0]
    } else {
        identity_with(identities.skip(1), id)
    }
}

/// No two routings have one number.
pub open spec fn numbered(nodes: Map<NodeId, RoutingModel>) -> bool {
    forall|a: NodeId, b: NodeId|
        nodes.contains_key(a) && nodes.contains_key(b) && (#[trigger] nodes[a]).number == (
        #[trigger] nodes[b]).number ==> nodes[a] == nodes[b]
}

impl LayerModel {
    /// Whether an address or an id leads to a session.
    pub open spec fn referenced(self, h: SessionHandle) -> bool {
        ||| exists|a: SocketAddr|
            self.p2p_sessions.contains_key(a) && #[trigger] self.p2p_sessions[a] == h
        ||| exists|id: NodeId|
            self.p2p_nodes.contains_key(id) && #[trigger] self.p2p_nodes[id] == h
    }

    /// Addresses and ids lead to open sessions that have them, and numbers that will be given out
    /// are not in use.
    pub open spec fn linked(self) -> bool {
        &&& self.registry.wf()
        &&& forall|a: SocketAddr|
            self.p2p_sessions.contains_key(a) ==> self.sessions.contains_key(
                #[trigger] self.p2p_sessions[a],
            ) && self.sessions[self.p2p_sessions[a]].raw.remote == a
        &&& forall|id: NodeId|
            self.p2p_nodes.contains_key(id) ==> self.sessions.contains_key(
                #[trigger] self.p2p_nodes[id],
            ) && self.sessions[self.p2p_nodes[id]].owner.identities.contains(id)
        &&& forall|h: SessionHandle| #[trigger]
            self.sessions.contains_key(h) ==> h.number < self.next_number
                && self.sessions[h].forwards.wf()
        &&& forall|id: NodeId|
            self.nodes.contains_key(id) ==> (#[trigger] self.nodes[id]).number < self.next_number
        &&& numbered(self.nodes)
        &&& self.protocol matches Some(p) ==> p.wf()
        &&& self.requests.len() <= REQ_DEDUPLICATE_BUF_SIZE
    }

    /// The same, and every open session can be got to.
    pub open spec fn wf(self) -> bool {
        &&& self.linked()
        &&& forall|h: SessionHandle| #[trigger]
            self.sessions.contains_key(h) ==> self.referenced(h)
    }

    /// Sessions that nothing leads to are closed.
    pub open spec fn collected(self) -> LayerModel {
        LayerModel {
            sessions: Map::new(
                |h: SessionHandle| self.sessions.contains_key(h) && self.referenced(h),
                |h: SessionHandle| self.sessions[h],
            ),
            ..self
        }
    }

    /// Session that will be registered next.
    pub open spec fn next_session(self) -> SessionHandle {
        SessionHandle { number: self.next_number }
    }

    /// A session is registered. What led to other sessions under the same address or ids leads to
    /// it now. A session with a node, other than one with a relay server, is a way to that node.
    pub open spec fn registered(
        self,
        info: SessionRegistrationInfo,
        generation: u64,
    ) -> LayerModel {
        let h = self.next_session();
        let ids = ids_of(info.identities@);
        let session = SessionModel {
            owner: EntryModel { default_id: info.node_id, identities: ids },
            raw: RawSession { id: info.id, remote: info.addr },
            forwards: ForwardsModel::empty(),
            forward_pause: false,
        };
        let routing = RoutingModel {
            number: (self.next_number + 1) as u64,
            node: EntryModel {
                default_id: identity_with(info.identities@, info.node_id),
                identities: info.identities@,
            },
            route: h,
            encryption: info.encryption,
            authenticated_identities: ids,
            generation,
        };
        LayerModel {
            p2p_sessions: self.p2p_sessions.insert(info.addr, h),
            p2p_nodes: with_all(self.p2p_nodes, ids, h),
            nodes: with_all(self.nodes, ids, routing),
            sessions: self.sessions.insert(h, session),
            next_number: (self.next_number + 2) as u64,
            ..self
        }.collected()
    }

    /// A node is reached by a new routing under all its ids.
    pub open spec fn with_routing(
        self,
        node: EntryModel<Identity>,
        route: SessionHandle,
        encryption: SessionEncryption,
        authenticated_identities: Seq<NodeId>,
        generation: u64,
    ) -> LayerModel {
        let routing = RoutingModel {
            number: self.next_number,
            node,
            route,
            encryption,
            authenticated_identities,
            generation,
        };
        LayerModel {
            nodes: with_all(self.nodes, ids_of(node.identities), routing),
            next_number: (self.next_number + 1) as u64,
            ..self
        }
    }

    /// All ids of a node that are known from its routing and from its session.
    pub open spec fn ids_to_forget(self, node_id: NodeId) -> Seq<NodeId> {
        let routing = if self.nodes.contains_key(node_id) {
            ids_of(self.nodes[node_id].node.identities)
        } else {
            Seq::empty()
        };
        let direct = if self.p2p_nodes.contains_key(node_id) {
            self.sessions[self.p2p_nodes[node_id]].owner.identities
        } else {
            Seq::empty()
        };
        seq![node_id] + routing + direct
    }

    /// Nothing leads to a node under an id any more. A session that forwarded packets to the node
    /// stops doing so.
    pub open spec fn forget_one(self, id: NodeId) -> LayerModel {
        let route = self.nodes[id].route;
        LayerModel {
            p2p_nodes: self.p2p_nodes.remove(id),
            nodes: self.nodes.remove(id),
            sessions: if self.nodes.contains_key(id) && self.sessions.contains_key(route) {
                self.sessions.insert(
                    route,
                    SessionModel {
                        forwards: self.sessions[route].forwards.removed(id),
                        ..self.sessions[route]
                    },
                )
            } else {
                self.sessions
            },
            ..self
        }
    }

    /// The same for all ids of a list, one after the other.
    pub open spec fn forgotten(self, ids: Seq<NodeId>) -> LayerModel
        decreases ids.len(),
    {
        if ids.len() == 0 {
            self
        } else {
            self.forgotten(ids.drop_last()).forget_one(ids.last())
        }
    }

    /// Nothing leads to a session any more, nor to the nodes that it forwarded packets to. When
    /// the session with the relay server is lost, those nodes are unknown.
    pub open spec fn closed(self, session: SessionModel) -> LayerModel {
        LayerModel {
            registry: if session.owner.default_id == NodeId::zero() {
                self.registry.without_nodes(session.forwards.defaults())
            } else {
                self.registry
            },
            p2p_nodes: self.p2p_nodes.remove_keys(session.owner.identities.to_set()),
            nodes: self.nodes.remove_keys(session.owner.identities.to_set()).remove_keys(
                session.forwards.members(),
            ),
            p2p_sessions: self.p2p_sessions.remove(session.raw.remote),
            ..self
        }.collected()
    }

    /// Session with a node itself.
    pub open spec fn direct(self, node_id: NodeId) -> Option<SessionHandle> {
        if self.p2p_nodes.contains_key(node_id) {
            Some(self.p2p_nodes[node_id])
        } else {
            None
        }
    }

    /// Everything about a node is removed, up to closing the session with it.
    pub open spec fn detached(self, node_id: NodeId) -> LayerModel {
        let unlinked = match self.direct(node_id) {
            Some(h) => LayerModel {
                p2p_sessions: self.p2p_sessions.remove(self.sessions[h].raw.remote),
                ..self
            },
            None => self,
        };
        let forgotten = unlinked.forgotten(self.ids_to_forget(node_id));
        LayerModel { registry: self.registry.without(node_id), ..forgotten }
    }

    /// What is left to do once a node was unregistered.
    pub open spec fn report(self, node_id: NodeId) -> Closed {
        match self.direct(node_id) {
            Some(h) => Closed {
                disconnect: Some(self.sessions[h].raw),
                target: self.sessions[h].owner.default_id,
            },
            None => Closed { disconnect: None, target: node_id },
        }
    }

    /// Everything about a node is removed, and the session with it is closed.
    pub open spec fn unregistered(self, node_id: NodeId) -> LayerModel {
        let detached = self.detached(node_id);
        match self.direct(node_id) {
            Some(h) => detached.closed(detached.sessions[h]),
            None => detached.collected(),
        }
    }
}

proof fn lemma_collected_wf(m: LayerModel)
    requires
        m.linked(),
    ensures
        m.collected().wf(),
{
    let c = m.collected();
    assert forall|a: SocketAddr| c.p2p_sessions.contains_key(a) implies c.sessions.contains_key(
        #[trigger] c.p2p_sessions[a],
    ) && c.sessions[c.p2p_sessions[a]].raw.remote == a by {
        assert(m.p2p_sessions[a] == c.p2p_sessions[a]);
    }
    assert forall|id: NodeId| c.p2p_nodes.contains_key(id) implies c.sessions.contains_key(
        #[trigger] c.p2p_nodes[id],
    ) && c.sessions[c.p2p_nodes[id]].owner.identities.contains(id) by {
        assert(m.p2p_nodes[id] == c.p2p_nodes[id]);
    }
    assert forall|h: SessionHandle| #[trigger] c.sessions.contains_key(h) implies c.referenced(
        h,
    ) by {
        assert(m.referenced(h));
        if exists|a: SocketAddr| m.p2p_sessions.contains_key(a) && #[trigger] m.p2p_sessions[a]
            == h {
            let a = choose|a: SocketAddr|
                m.p2p_sessions.contains_key(a) && #[trigger] m.p2p_sessions[a] == h;
            assert(c.p2p_sessions[a] == h);
        } else {
            let id = choose|id: NodeId|
                m.p2p_nodes.contains_key(id) && #[trigger] m.p2p_nodes[id] == h;
            assert(c.p2p_nodes[id] == h);
        }
    }
    assert forall|id: NodeId| c.nodes.contains_key(id) implies (#[trigger] c.nodes[id]).number
        < c.next_number by {
        assert(m.nodes[id].number < m.next_number);
    }
}

fn leads_to<K: crate::assoc::Key>(map: &AssocMap<K, SessionHandle>, h: &SessionHandle) -> (r: bool)
    ensures
        r == exists|k: K| map@.contains_key(k) && #[trigger] map@[k] == *h,
{
    let keys = map.keys();
    let mut i: usize = 0;
    while i < keys.len()
        invariant
            0 <= i <= keys@.len(),
            keys@.to_set() == map@.dom(),
            forall|j: int| 0 <= j < i ==> map@[#[trigger] keys@[j]] != *h,
        decreases keys@.len() - i,
    {
        let key = keys[i];
        proof {
            assert(keys@.contains(key));
            assert(map@.dom().contains(key));
        }
        match map.get(&key) {
            Some(found) => {
                if *found == *h {
                    assert(map@.contains_key(key) && map@[key] == *h);
                    return true;
                }
            },
            None => {},
        }
        i += 1;
    }
    proof {
        assert forall|k: K| map@.contains_key(k) implies #[trigger] map@[k] != *h by {
            assert(keys@.to_set().contains(k));
            let j = choose|j: int| 0 <= j < keys@.len() && keys@[j] == k;
            assert(map@[keys@[j]] != *h);
        }
    }
    false
}

impl SessionLayer {
    /// Without any session.
    pub fn new(config: ClientConfig) -> (r: SessionLayer)
        ensures
            r@.wf(),
            r@ == (LayerModel {
                config,
                listening: false,
                public_addr: None,
                bind_addr: None,
                nodes: Map::empty(),
                p2p_sessions: Map::empty(),
                p2p_nodes: Map::empty(),
                sessions: Map::empty(),
                protocol: None,
                registry: NetworkModel {
                    ttl: NODE_INFO_TTL,
                    nodes: Seq::empty(),
                    by_node_id: Map::empty(),
                    by_addr: Map::empty(),
                },
                requests: Seq::empty(),
                handles: Seq::empty(),
                next_number: 0,
            }),
    {
        let registry = NetworkView::new(NetworkViewConfig::default());
        let r = SessionLayer {
            config,
            listening: false,
            public_addr: None,
            bind_addr: None,
            nodes: AssocMap::new(),
            p2p_sessions: AssocMap::new(),
            p2p_nodes: AssocMap::new(),
            sessions: AssocMap::new(),
            init_protocol: None,
            registry,
            processed_requests: RequestHistory::new(),
            handles: Vec::new(),
            next_number: 0,
        };
        assert(r@.nodes =~= Map::empty());
        assert(r@.sessions =~= Map::empty());
        r
    }

    fn is_referenced(&self, h: &SessionHandle) -> (r: bool)
        ensures
            r == self@.referenced(*h),
    {
        let by_addr = leads_to(&self.p2p_sessions, h);
        let by_id = leads_to(&self.p2p_nodes, h);
        proof {
            let m = self@;
            if by_addr {
                let a = choose|a: SocketAddr|
                    self.p2p_sessions@.contains_key(a) && #[trigger] self.p2p_sessions@[a] == *h;
                assert(m.p2p_sessions.contains_key(a) && m.p2p_sessions[a] == *h);
            }
            if by_id {
                let id = choose|id: NodeId|
                    self.p2p_nodes@.contains_key(id) && #[trigger] self.p2p_nodes@[id] == *h;
                assert(m.p2p_nodes.contains_key(id) && m.p2p_nodes[id] == *h);
            }
            if m.referenced(*h) {
                if exists|a: SocketAddr|
                    m.p2p_sessions.contains_key(a) && #[trigger] m.p2p_sessions[a] == *h {
                    let a = choose|a: SocketAddr|
                        m.p2p_sessions.contains_key(a) && #[trigger] m.p2p_sessions[a] == *h;
                    assert(self.p2p_sessions@.contains_key(a) && self.p2p_sessions@[a] == *h);
                } else {
                    let id = choose|id: NodeId|
                        m.p2p_nodes.contains_key(id) && #[trigger] m.p2p_nodes[id] == *h;
                    assert(self.p2p_nodes@.contains_key(id) && self.p2p_nodes@[id] == *h);
                }
            }
        }
        by_addr || by_id
    }

    /// Drops the sessions that nothing leads to.
    fn collect(&mut self)
        requires
            old(self)@.linked(),
        ensures
            final(self)@ == old(self)@.collected(),
            final(self)@.wf(),
    {
        let ghost before = self@;
        let keys = self.sessions.keys();
        let mut i: usize = 0;
        assert(before.sessions.dom() =~= self.sessions@.dom());
        while i < keys.len()
            invariant
                0 <= i <= keys@.len(),
                keys@.to_set() == before.sessions.dom(),
                self@ == (LayerModel { sessions: self@.sessions, ..before }),
                forall|h: SessionHandle| #[trigger]
                    self@.sessions.contains_key(h) <==> before.sessions.contains_key(h) && !(
                    keys@.take(i as int).contains(h) && !before.referenced(h)),
                forall|h: SessionHandle| #[trigger]
                    self@.sessions.contains_key(h) ==> self@.sessions[h] == before.sessions[h],
            decreases keys@.len() - i,
        {
            let h = keys[i];
            let ghost current = self@;
            let kept = self.is_referenced(&h);
            assert(kept == before.referenced(h)) by {
                assert(self@.p2p_sessions == before.p2p_sessions);
                assert(self@.p2p_nodes == before.p2p_nodes);
            }
            if !kept {
                self.sessions.remove(&h);
                assert(self@.sessions =~= current.sessions.remove(h));
                assert(self@ =~= (LayerModel { sessions: self@.sessions, ..before }));
            }
            proof {
                assert(keys@.take(i + 1) =~= keys@.take(i as int).push(h));
                lemma_contains_push(keys@.take(i as int), h);
            }
            i += 1;
        }
        proof {
            assert(keys@.take(i as int) =~= keys@);
            assert forall|h: SessionHandle| before.sessions.contains_key(h) implies keys@.contains(
                h,
            ) by {
                assert(keys@.to_set().contains(h));
            }
            assert(self@.sessions =~= before.collected().sessions);
            assert(self@ =~= before.collected());
            lemma_collected_wf(before);
        }
    }
}

fn find_identity(identities: &Vec<Identity>, id: NodeId) -> (r: Option<Identity>)
    ensures
        r is Some <==> ids_of(identities@).contains(id),
        r matches Some(found) ==> found == identity_with(identities@, id) && found.node_id == id,
{
    let mut i: usize = 0;
    assert(identities@.skip(0) =~= identities@);
    while i < identities.len()
        invariant
            0 <= i <= identities@.len(),
            identity_with(identities@, id) == identity_with(identities@.skip(i as int), id),
            forall|j: int| 0 <= j < i ==> (#[trigger] identities@[j]).node_id != id,
        decreases identities@.len() - i,
    {
        assert(identities@.skip(i as int)[0] == identities@[i as int]);
        assert(identities@.skip(i as int).skip(1) =~= identities@.skip(i + 1));
        if identities[i].node_id == id {
            assert(ids_of(identities@)[i as int] == id);
            return Some(identities[i]);
        }
        i += 1;
    }
    assert(!ids_of(identities@).contains(id)) by {
        if ids_of(identities@).contains(id) {
            let j = choose|j: int|
                0 <= j < ids_of(identities@).len() && ids_of(identities@)[j] == id;
            assert(identities@[j].node_id == id);
        }
    }
    None
}

fn route_all(
    nodes: &mut AssocMap<NodeId, Arc<NodeRouting>>,
    ids: &Vec<NodeId>,
    routing: &Arc<NodeRouting>,
)
    ensures
        final(nodes)@ == with_all(old(nodes)@, ids@, *routing),
{
    let ghost before = nodes@;
    let mut i: usize = 0;
    assert(nodes@ =~= with_all(before, ids@.take(0), *routing));
    while i < ids.len()
        invariant
            0 <= i <= ids@.len(),
            nodes@ == with_all(before, ids@.take(i as int), *routing),
        decreases ids@.len() - i,
    {
        nodes.insert(ids[i], routing.clone());
        proof {
            assert(ids@.take(i + 1) =~= ids@.take(i as int).push(ids@[i as int]));
            lemma_contains_push(ids@.take(i as int), ids@[i as int]);
            assert(nodes@ =~= with_all(before, ids@.take(i + 1), *routing));
        }
        i += 1;
    }
    assert(ids@.take(i as int) =~= ids@);
}

proof fn lemma_registered_wf(m: LayerModel, info: SessionRegistrationInfo, generation: u64)
    requires
        m.wf(),
        m.next_number <= u64::MAX - 2,
    ensures
        m.registered(info, generation).wf(),
        m.registered(info, generation).p2p_sessions[info.addr] == m.next_session(),
        m.registered(info, generation).sessions.contains_key(m.next_session()),
{
    let h = m.next_session();
    let ids = ids_of(info.identities@);
    let session = SessionModel {
        owner: EntryModel { default_id: info.node_id, identities: ids },
        raw: RawSession { id: info.id, remote: info.addr },
        forwards: ForwardsModel::empty(),
        forward_pause: false,
    };
    let routing = RoutingModel {
        number: (m.next_number + 1) as u64,
        node: EntryModel {
            default_id: identity_with(info.identities@, info.node_id),
            identities: info.identities@,
        },
        route: h,
        encryption: info.encryption,
        authenticated_identities: ids,
        generation,
    };
    let l = LayerModel {
        p2p_sessions: m.p2p_sessions.insert(info.addr, h),
        p2p_nodes: with_all(m.p2p_nodes, ids, h),
        nodes: with_all(m.nodes, ids, routing),
        sessions: m.sessions.insert(h, session),
        next_number: (m.next_number + 2) as u64,
        ..m
    };
    assert(!m.sessions.contains_key(h));
    assert forall|a: SocketAddr| l.p2p_sessions.contains_key(a) implies l.sessions.contains_key(
        #[trigger] l.p2p_sessions[a],
    ) && l.sessions[l.p2p_sessions[a]].raw.remote == a by {
        if a != info.addr {
            assert(m.sessions.contains_key(m.p2p_sessions[a]));
        }
    }
    assert forall|id: NodeId| l.p2p_nodes.contains_key(id) implies l.sessions.contains_key(
        #[trigger] l.p2p_nodes[id],
    ) && l.sessions[l.p2p_nodes[id]].owner.identities.contains(id) by {
        if !ids.contains(id) {
            assert(m.sessions.contains_key(m.p2p_nodes[id]));
        }
    }
    assert forall|s: SessionHandle| #[trigger] l.sessions.contains_key(s) implies s.number
        < l.next_number && l.sessions[s].forwards.wf() by {
        if s != h {
            assert(m.sessions.contains_key(s));
        }
    }
    assert forall|id: NodeId| l.nodes.contains_key(id) implies (#[trigger] l.nodes[id]).number
        < l.next_number by {
        if !ids.contains(id) {
            assert(m.nodes[id].number < m.next_number);
        }
    }
    lemma_numbered_with_all(m.nodes, ids, routing, m.next_number);
    assert(l.linked());
    lemma_collected_wf(l);
    assert(l.p2p_sessions[info.addr] == h);
    assert(l.referenced(h));
}

impl SessionLayer {
    /// Whether a session is open.
    pub fn is_open(&self, h: &SessionHandle) -> (r: bool)
        ensures
            r == self@.sessions.contains_key(*h),
    {
        self.sessions.contains_key(h)
    }

    /// Registers a session, which is ready for use then. `owner` is the attempt to connect that
    /// led to it.
    pub fn register_session(&mut self, info: SessionRegistrationInfo, owner: &NodeSnapshot) -> (r:
        Result<SessionHandle, String>)
        requires
            old(self)@.wf(),
            old(self)@.next_number <= u64::MAX - 2,
        ensures
            final(self)@.wf(),
            if !old(self)@.listening {
                final(self)@ == old(self)@ && (r matches Err(m) && m@
                    == "Network sink not initialized"@)
            } else if info.identities@.len() > 0 && !ids_of(info.identities@).contains(
                info.node_id,
            ) {
                final(self)@ == old(self)@ && (r matches Err(m) && m@
                    == "Registering session for node ["@ + info.node_id.text()
                    + "]: DirectSession constructor expects default id on identities list."@)
            } else {
                r == Ok::<SessionHandle, String>(old(self)@.next_session()) && final(self)@ == old(
                    self,
                )@.registered(info, owner.generation)
            },
    {
        if !self.listening {
            return Err(owned("Network sink not initialized"));
        }
        let ghost before = self@;
        let h = SessionHandle { number: self.next_number };
        let raw = RawSession { id: info.id, remote: info.addr };
        let ids = identity_ids(&info.identities);
        let session = if info.identities.len() == 0 {
            DirectSession::new_relay(info.node_id, raw)
        } else {
            match DirectSession::new(info.node_id, &info.identities, raw) {
                Ok(session) => session,
                Err(e) => {
                    let mut m = owned("Registering session for node [");
                    info.node_id.push_text(&mut m);
                    m.append("]: ");
                    m.append(e.as_str());
                    proof {
                        reveal_strlit("]: ");
                        reveal_strlit(
                            "DirectSession constructor expects default id on identities list.",
                        );
                        reveal_strlit(
                            "]: DirectSession constructor expects default id on identities list.",
                        );
                        assert("]: "@
                            + "DirectSession constructor expects default id on identities list."@
                            =~= "]: DirectSession constructor expects default id on identities list."@);
                        assert(m@ =~= "Registering session for node ["@ + info.node_id.text()
                            + "]: DirectSession constructor expects default id on identities list."@);
                    }
                    return Err(m);
                },
            }
        };
        proof {
            assert(session@.owner.identities =~= ids@);
            lemma_registered_wf(before, info, owner.generation);
        }
        let ghost model = session@;
        let ghost seen = RoutingModel {
            number: (before.next_number + 1) as u64,
            node: EntryModel {
                default_id: identity_with(info.identities@, info.node_id),
                identities: info.identities@,
            },
            route: h,
            encryption: info.encryption,
            authenticated_identities: ids_of(info.identities@),
            generation: owner.generation,
        };
        match find_identity(&info.identities, info.node_id) {
            Some(default_id) => {
                let node = NodeEntry { default_id, identities: copy_list(&info.identities) };
                let routing = Arc::new(
                    NodeRouting::new(
                        self.next_number + 1,
                        node,
                        h,
                        info.encryption,
                        identity_ids(&info.identities),
                        owner.generation,
                    ),
                );
                route_all(&mut self.nodes, &ids, &routing);
                assert((*routing)@ =~= seen);
                assert(self@.nodes =~= with_all(before.nodes, ids@, seen));
            },
            None => {
                assert(ids@.len() == 0);
                assert(self@.nodes =~= with_all(before.nodes, ids@, seen));
            },
        }
        self.next_number = self.next_number + 2;
        self.p2p_sessions.insert(info.addr, h);
        self.p2p_nodes.insert_all(&ids, h);
        self.sessions.insert(h, session);
        assert(self@.sessions =~= before.sessions.insert(h, model));
        proof {
            let l = self@;
            assert forall|a: SocketAddr|
                l.p2p_sessions.contains_key(a) implies l.sessions.contains_key(
                #[trigger] l.p2p_sessions[a],
            ) && l.sessions[l.p2p_sessions[a]].raw.remote == a by {
                if a != info.addr {
                    assert(before.sessions.contains_key(before.p2p_sessions[a]));
                }
            }
            assert forall|id: NodeId| l.p2p_nodes.contains_key(id) implies l.sessions.contains_key(
                #[trigger] l.p2p_nodes[id],
            ) && l.sessions[l.p2p_nodes[id]].owner.identities.contains(id) by {
                if !ids@.contains(id) {
                    assert(before.sessions.contains_key(before.p2p_nodes[id]));
                }
            }
            assert forall|id: NodeId| l.nodes.contains_key(id) implies (
            #[trigger] l.nodes[id]).number < l.next_number by {
                if !ids@.contains(id) {
                    assert(before.nodes[id].number < before.next_number);
                }
            }
            lemma_numbered_with_all(before.nodes, ids@, seen, before.next_number);
        }
        self.collect();
        assert(self@ =~= before.registered(info, owner.generation));
        Ok(h)
    }

    /// Makes a node reachable over an open session, under all its ids. Returns the number of the
    /// new routing.
    pub fn register_routing(
        &mut self,
        node: NodeEntry<Identity>,
        route: SessionHandle,
        encryption: SessionEncryption,
        authenticated_identities: Vec<NodeId>,
        generation: u64,
    ) -> (r: Result<u64, String>)
        requires
            old(self)@.wf(),
            old(self)@.next_number < u64::MAX,
        ensures
            final(self)@.wf(),
            if old(self)@.sessions.contains_key(route) {
                r == Ok::<u64, String>(old(self)@.next_number) && final(self)@ == old(
                    self,
                )@.with_routing(node@, route, encryption, authenticated_identities@, generation)
            } else {
                final(self)@ == old(self)@ && (r matches Err(m) && m@
                    == "`DirectSession` was closed"@)
            },
    {
        if !self.is_open(&route) {
            return Err(owned("`DirectSession` was closed"));
        }
        let ghost before = self@;
        let number = self.next_number;
        let ids = identity_ids(&node.identities);
        let ghost entry = node@;
        let ghost authenticated = authenticated_identities@;
        let routing = Arc::new(
            NodeRouting::new(
                number,
                node,
                route,
                encryption,
                authenticated_identities,
                generation,
            ),
        );
        route_all(&mut self.nodes, &ids, &routing);
        self.next_number = number + 1;
        let ghost seen = (*routing)@;
        assert(self@.nodes =~= with_all(before.nodes, ids@, seen));
        assert(self@ =~= before.with_routing(
            entry,
            route,
            encryption,
            authenticated,
            generation,
        ));
        proof {
            lemma_same_links(before, self@);
            assert forall|id: NodeId| self@.nodes.contains_key(id) implies (
            #[trigger] self@.nodes[id]).number < self@.next_number by {
                if !ids@.contains(id) {
                    assert(before.nodes[id].number < before.next_number);
                }
            }
            lemma_numbered_with_all(before.nodes, ids@, seen, before.next_number);
        }
        Ok(number)
    }
}

proof fn lemma_numbered_with_all(
    nodes: Map<NodeId, RoutingModel>,
    ids: Seq<NodeId>,
    routing: RoutingModel,
    next_number: u64,
)
    requires
        numbered(nodes),
        forall|id: NodeId|
            nodes.contains_key(id) ==> (#[trigger] nodes[id]).number < next_number,
        routing.number >= next_number,
    ensures
        numbered(with_all(nodes, ids, routing)),
{
    let after = with_all(nodes, ids, routing);
    assert forall|a: NodeId, b: NodeId|
        after.contains_key(a) && after.contains_key(b) && (#[trigger] after[a]).number == (
        #[trigger] after[b]).number implies after[a] == after[b] by {
        if !ids.contains(a) {
            assert(nodes[a].number < next_number);
        }
        if !ids.contains(b) {
            assert(nodes[b].number < next_number);
        }
        if !ids.contains(a) && !ids.contains(b) {
            assert(nodes[a] == nodes[b]);
        }
    }
}

proof fn lemma_numbered_without(nodes: Map<NodeId, RoutingModel>, after: Map<NodeId, RoutingModel>)
    requires
        numbered(nodes),
        after.submap_of(nodes),
    ensures
        numbered(after),
{
    assert forall|a: NodeId, b: NodeId|
        after.contains_key(a) && after.contains_key(b) && (#[trigger] after[a]).number == (
        #[trigger] after[b]).number implies after[a] == after[b] by {
        assert(nodes.contains_key(a) && nodes.contains_key(b));
        assert(nodes[a] == after[a] && nodes[b] == after[b]);
    }
}

/// What leads to sessions is the same where addresses, ids and sessions are.
proof fn lemma_same_links(a: LayerModel, b: LayerModel)
    requires
        a.p2p_sessions == b.p2p_sessions,
        a.p2p_nodes == b.p2p_nodes,
    ensures
        forall|h: SessionHandle| #[trigger] a.referenced(h) ==> b.referenced(h),
{
    assert forall|h: SessionHandle| #[trigger] a.referenced(h) implies b.referenced(h) by {
        if exists|k: SocketAddr| a.p2p_sessions.contains_key(k) && #[trigger] a.p2p_sessions[k]
            == h {
            let k = choose|k: SocketAddr|
                a.p2p_sessions.contains_key(k) && #[trigger] a.p2p_sessions[k] == h;
            assert(b.p2p_sessions[k] == h);
        } else {
            let k = choose|k: NodeId|
                a.p2p_nodes.contains_key(k) && #[trigger] a.p2p_nodes[k] == h;
            assert(b.p2p_nodes[k] == h);
        }
    }
}

/// What is left to do once a session or a node was unregistered.
#[derive(Clone, Copy, Debug, PartialEq, Eq, Structural)]
pub struct Closed {
    /// Session over which the other party is told, which is only a courtesy. Its type is reported
    /// as a lacking session then.
    pub disconnect: Option<RawSession>,
    /// Node for which a closed session is counted.
    pub target: NodeId,
}

proof fn lemma_forget_one_linked(m: LayerModel, id: NodeId)
    requires
        m.linked(),
    ensures
        m.forget_one(id).linked(),
{
    let f = m.forget_one(id);
    let route = m.nodes[id].route;
    if m.nodes.contains_key(id) && m.sessions.contains_key(route) {
        lemma_removed_wf(m.sessions[route].forwards, id);
    }
    assert forall|a: SocketAddr| f.p2p_sessions.contains_key(a) implies f.sessions.contains_key(
        #[trigger] f.p2p_sessions[a],
    ) && f.sessions[f.p2p_sessions[a]].raw.remote == a by {
        assert(m.sessions.contains_key(m.p2p_sessions[a]));
    }
    assert forall|k: NodeId| f.p2p_nodes.contains_key(k) implies f.sessions.contains_key(
        #[trigger] f.p2p_nodes[k],
    ) && f.sessions[f.p2p_nodes[k]].owner.identities.contains(k) by {
        assert(m.sessions.contains_key(m.p2p_nodes[k]));
    }
    assert forall|k: NodeId| f.nodes.contains_key(k) implies (#[trigger] f.nodes[k]).number
        < f.next_number by {
        assert(m.nodes[k].number < m.next_number);
    }
    lemma_numbered_without(m.nodes, f.nodes);
}

/// Forgetting ids keeps what leads to sessions in step, closes no session, and leaves what other
/// sessions have beside the nodes they forward packets to alone.
proof fn lemma_forgotten(m: LayerModel, ids: Seq<NodeId>)
    requires
        m.linked(),
    ensures
        m.forgotten(ids).linked(),
        m.forgotten(ids).sessions.dom() == m.sessions.dom(),
        forall|h: SessionHandle| #[trigger]
            m.sessions.contains_key(h) ==> m.forgotten(ids).sessions[h].owner
                == m.sessions[h].owner && m.forgotten(ids).sessions[h].raw == m.sessions[h].raw,
        m.forgotten(ids).p2p_nodes == m.p2p_nodes.remove_keys(ids.to_set()),
        m.forgotten(ids).nodes == m.nodes.remove_keys(ids.to_set()),
        m.forgotten(ids).p2p_sessions == m.p2p_sessions,
        m.forgotten(ids).registry == m.registry,
        forall|h: SessionHandle| #[trigger]
            m.sessions.contains_key(h) ==> m.forgotten(ids).sessions[h].forwards.slots.submap_of(
                m.sessions[h].forwards.slots,
            ),
    decreases ids.len(),
{
    if ids.len() == 0 {
        assert(m.p2p_nodes.remove_keys(ids.to_set()) =~= m.p2p_nodes);
        assert(m.nodes.remove_keys(ids.to_set()) =~= m.nodes);
    } else {
        let rest = ids.drop_last();
        lemma_forgotten(m, rest);
        let prev = m.forgotten(rest);
        let f = prev.forget_one(ids.last());
        lemma_forget_one_linked(prev, ids.last());
        assert(ids =~= rest.push(ids.last()));
        lemma_contains_push(rest, ids.last());
        assert(f.p2p_nodes =~= m.p2p_nodes.remove_keys(ids.to_set()));
        assert(f.nodes =~= m.nodes.remove_keys(ids.to_set()));
        assert(f.sessions.dom() =~= m.sessions.dom());
        assert forall|h: SessionHandle| #[trigger] m.sessions.contains_key(h) implies f.sessions[h].owner
            == m.sessions[h].owner && f.sessions[h].raw == m.sessions[h].raw by {
            assert(prev.sessions[h].owner == m.sessions[h].owner);
        }
        assert forall|h: SessionHandle| #[trigger]
            m.sessions.contains_key(h) implies f.sessions[h].forwards.slots.submap_of(
            m.sessions[h].forwards.slots,
        ) by {
            let a = prev.sessions[h].forwards;
            assert(a.slots.submap_of(m.sessions[h].forwards.slots));
            assert(a.removed(ids.last()).slots.submap_of(a.slots));
        }
    }
}

proof fn lemma_closed_wf(m: LayerModel, session: SessionModel)
    requires
        m.linked(),
    ensures
        m.closed(session).wf(),
{
    let c = LayerModel {
        registry: if session.owner.default_id == NodeId::zero() {
            m.registry.without_nodes(session.forwards.defaults())
        } else {
            m.registry
        },
        p2p_nodes: m.p2p_nodes.remove_keys(session.owner.identities.to_set()),
        nodes: m.nodes.remove_keys(session.owner.identities.to_set()).remove_keys(
            session.forwards.members(),
        ),
        p2p_sessions: m.p2p_sessions.remove(session.raw.remote),
        ..m
    };
    assert forall|id: NodeId| c.registry.by_node_id.contains_key(id) implies (
    #[trigger] c.registry.by_node_id[id]) < c.registry.nodes.len() by {
        assert(m.registry.by_node_id[id] < m.registry.nodes.len());
    }
    assert forall|a: SocketAddr| c.registry.by_addr.contains_key(a) implies (
    #[trigger] c.registry.by_addr[a]) < c.registry.nodes.len() by {
        assert(m.registry.by_addr[a] < m.registry.nodes.len());
    }
    assert forall|a: SocketAddr| c.p2p_sessions.contains_key(a) implies c.sessions.contains_key(
        #[trigger] c.p2p_sessions[a],
    ) && c.sessions[c.p2p_sessions[a]].raw.remote == a by {
        assert(m.sessions.contains_key(m.p2p_sessions[a]));
    }
    assert forall|id: NodeId| c.p2p_nodes.contains_key(id) implies c.sessions.contains_key(
        #[trigger] c.p2p_nodes[id],
    ) && c.sessions[c.p2p_nodes[id]].owner.identities.contains(id) by {
        assert(m.sessions.contains_key(m.p2p_nodes[id]));
    }
    assert forall|id: NodeId| c.nodes.contains_key(id) implies (#[trigger] c.nodes[id]).number
        < c.next_number by {
        assert(m.nodes[id].number < m.next_number);
    }
    lemma_numbered_without(m.nodes, c.nodes);
    assert(c.linked());
    lemma_collected_wf(c);
}

impl SessionLayer {
    fn forget_one(&mut self, id: NodeId)
        requires
            old(self)@.linked(),
        ensures
            final(self)@ == old(self)@.forget_one(id),
            final(self)@.linked(),
    {
        let ghost before = self@;
        proof {
            lemma_forget_one_linked(before, id);
        }
        self.p2p_nodes.remove(&id);
        let removed = self.nodes.remove(&id);
        assert(self@.nodes =~= before.nodes.remove(id));
        match removed {
            Some(routing) => {
                let route = routing.route;
                assert(before.nodes[id].route == route);
                match self.sessions.remove(&route) {
                    Some(session) => {
                        let mut session = session;
                        let ghost unchanged = session@;
                        assert(before.sessions.contains_key(route) && before.sessions[route]
                            == unchanged);
                        let _ = session.remove(&id);
                        let ghost changed = session@;
                        assert(changed =~= (SessionModel {
                            forwards: unchanged.forwards.removed(id),
                            ..unchanged
                        }));
                        self.sessions.insert(route, session);
                        assert(self@.sessions =~= before.sessions.insert(route, changed));
                    },
                    None => {
                        assert(self@.sessions =~= before.sessions);
                    },
                }
            },
            None => {},
        }
        assert(self@ =~= before.forget_one(id));
    }

    fn close(&mut self, h: SessionHandle) -> (r: Closed)
        requires
            old(self)@.linked(),
            old(self)@.sessions.contains_key(h),
        ensures
            final(self)@ == old(self)@.closed(old(self)@.sessions[h]),
            final(self)@.wf(),
            r == (Closed {
                disconnect: Some(old(self)@.sessions[h].raw),
                target: old(self)@.sessions[h].owner.default_id,
            }),
    {
        let ghost before = self@;
        let ghost session = before.sessions[h];
        match self.sessions.get(&h) {
            Some(direct) => {
                let raw = direct.raw;
                let owner = direct.owner.duplicate();
                let forwards = direct.list();
                let defaults = default_ids(&forwards);
                let members = all_ids(&forwards);
                proof {
                    lemma_listed_ids(session.forwards, forwards@);
                }
                let server = NodeId::default();
                if owner.default_id == server {
                    self.registry.remove_nodes(&defaults);
                }
                self.p2p_nodes.remove_all(&owner.identities);
                self.nodes.remove_all(&owner.identities);
                self.nodes.remove_all(&members);
                self.p2p_sessions.remove(&raw.remote);
                assert(self@.nodes =~= before.nodes.remove_keys(
                    session.owner.identities.to_set(),
                ).remove_keys(session.forwards.members()));
                proof {
                    lemma_closed_wf(before, session);
                    let c = self@;
                    assert forall|a: SocketAddr|
                        c.p2p_sessions.contains_key(a) implies c.sessions.contains_key(
                        #[trigger] c.p2p_sessions[a],
                    ) && c.sessions[c.p2p_sessions[a]].raw.remote == a by {
                        assert(before.sessions.contains_key(before.p2p_sessions[a]));
                    }
                    assert forall|id: NodeId|
                        c.p2p_nodes.contains_key(id) implies c.sessions.contains_key(
                        #[trigger] c.p2p_nodes[id],
                    ) && c.sessions[c.p2p_nodes[id]].owner.identities.contains(id) by {
                        assert(before.sessions.contains_key(before.p2p_nodes[id]));
                    }
                    assert forall|id: NodeId| c.nodes.contains_key(id) implies (
                    #[trigger] c.nodes[id]).number < c.next_number by {
                        assert(before.nodes[id].number < before.next_number);
                    }
                    lemma_numbered_without(before.nodes, c.nodes);
                }
                self.collect();
                assert(self@ =~= before.closed(session));
                Closed { disconnect: Some(raw), target: owner.default_id }
            },
            None => Closed { disconnect: None, target: NodeId::default() },
        }
    }

    /// Removes everything about a node: its routing under all ids, the session with it, and its
    /// entry among the known nodes.
    pub fn unregister(&mut self, node_id: NodeId) -> (r: Closed)
        requires
            old(self)@.wf(),
        ensures
            final(self)@.wf(),
            final(self)@ == old(self)@.unregistered(node_id),
            r == old(self)@.report(node_id),
    {
        let ghost before = self@;
        let mut ids: Vec<NodeId> = Vec::new();
        ids.push(node_id);
        match self.nodes.get(&node_id) {
            Some(routing) => {
                let mut more = identity_ids(&routing.node.identities);
                assert(before.nodes[node_id] == (**routing)@);
                ids.append(&mut more);
            },
            None => {},
        }
        let direct: Option<SessionHandle> = match self.p2p_nodes.get(&node_id) {
            Some(h) => Some(*h),
            None => None,
        };
        match direct {
            Some(h) => {
                assert(before.sessions.contains_key(before.p2p_nodes[node_id]));
                match self.sessions.get(&h) {
                    Some(session) => {
                        let mut more = copy_list(&session.owner.identities);
                        let remote = session.raw.remote;
                        assert(before.sessions[h] == session@);
                        ids.append(&mut more);
                        self.p2p_sessions.remove(&remote);
                    },
                    None => {},
                }
            },
            None => {},
        }
        assert(ids@ =~= before.ids_to_forget(node_id));
        let ghost unlinked = self@;
        proof {
            assert(unlinked =~= match before.direct(node_id) {
                Some(h) => LayerModel {
                    p2p_sessions: before.p2p_sessions.remove(before.sessions[h].raw.remote),
                    ..before
                },
                None => before,
            });
            assert forall|a: SocketAddr|
                unlinked.p2p_sessions.contains_key(a) implies unlinked.sessions.contains_key(
                #[trigger] unlinked.p2p_sessions[a],
            ) && unlinked.sessions[unlinked.p2p_sessions[a]].raw.remote == a by {
                assert(before.sessions.contains_key(before.p2p_sessions[a]));
            }
            assert(unlinked.linked());
            assert(ids@.take(0) =~= Seq::empty());
        }
        let mut i: usize = 0;
        while i < ids.len()
            invariant
                0 <= i <= ids@.len(),
                self@ == unlinked.forgotten(ids@.take(i as int)),
                self@.linked(),
            decreases ids@.len() - i,
        {
            let id = ids[i];
            self.forget_one(id);
            proof {
                let next = ids@.take(i + 1);
                assert(next.drop_last() =~= ids@.take(i as int));
                assert(next.last() == id);
            }
            i += 1;
        }
        assert(ids@.take(i as int) =~= ids@);
        proof {
            lemma_forgotten(unlinked, ids@);
        }
        self.registry.remove_node(node_id);
        assert(self@ =~= before.detached(node_id));
        match direct {
            Some(h) => {
                assert(self@.sessions.dom().contains(h));
                self.close(h)
            },
            None => {
                self.collect();
                Closed { disconnect: None, target: node_id }
            },
        }
    }

    /// Removes everything about a node, unless a later attempt to connect owns its data.
    pub fn unregister_generation(&mut self, node: &NodeSnapshot) -> (r: Option<Closed>)
        requires
            old(self)@.wf(),
        ensures
            final(self)@.wf(),
            if old(self)@.registry.is_current(*node) {
                r == Some(old(self)@.report(node.id)) && final(self)@ == old(self)@.unregistered(
                    node.id,
                )
            } else {
                r is None && final(self)@ == old(self)@
            },
    {
        if self.registry.is_current(node) {
            Some(self.unregister(node.id))
        } else {
            None
        }
    }

    /// Removes a session, and what leads to it or is reached through it.
    pub fn unregister_session(&mut self, session: SessionHandle) -> (r: Closed)
        requires
            old(self)@.wf(),
            old(self)@.sessions.contains_key(session),
        ensures
            final(self)@.wf(),
            final(self)@ == old(self)@.closed(old(self)@.sessions[session]),
            r == (Closed {
                disconnect: Some(old(self)@.sessions[session].raw),
                target: old(self)@.sessions[session].owner.default_id,
            }),
    {
        self.close(session)
    }
}

/// A session that was registered is found by its address. Its node is reached over it under all
/// ids, and ids of other nodes lead where they led before.
pub proof fn lemma_registered_is_found(
    m: LayerModel,
    info: SessionRegistrationInfo,
    generation: u64,
    other: NodeId,
)
    requires
        m.wf(),
        m.next_number <= u64::MAX - 2,
        !ids_of(info.identities@).contains(other),
    ensures
        ({
            let r = m.registered(info, generation);
            &&& r.p2p_sessions[info.addr] == m.next_session()
            &&& r.sessions[m.next_session()].owner.default_id == info.node_id
            &&& r.sessions[m.next_session()].raw.id == info.id
            &&& forall|id: NodeId| #[trigger]
                ids_of(info.identities@).contains(id) ==> r.direct(id) == Some(m.next_session())
                    && r.nodes.contains_key(id) && r.nodes[id].route == m.next_session()
                    && r.nodes[id].generation == generation
            &&& r.direct(other) == m.direct(other)
            &&& r.nodes.contains_key(other) == m.nodes.contains_key(other)
            &&& m.nodes.contains_key(other) ==> r.nodes[other] == m.nodes[other]
        }),
{
    lemma_registered_wf(m, info, generation);
}

proof fn lemma_forgotten_ids(m: LayerModel, node_id: NodeId)
    ensures
        m.ids_to_forget(node_id).contains(node_id),
        m.nodes.contains_key(node_id) ==> forall|id: NodeId| #[trigger]
            ids_of(m.nodes[node_id].node.identities).contains(id) ==> m.ids_to_forget(
                node_id,
            ).contains(id),
        m.p2p_nodes.contains_key(node_id) ==> forall|id: NodeId| #[trigger]
            m.sessions[m.p2p_nodes[node_id]].owner.identities.contains(id) ==> m.ids_to_forget(
                node_id,
            ).contains(id),
{
    let ids = m.ids_to_forget(node_id);
    assert(ids[0] == node_id);
    if m.nodes.contains_key(node_id) {
        let routing = ids_of(m.nodes[node_id].node.identities);
        assert forall|id: NodeId| #[trigger] routing.contains(id) implies ids.contains(id) by {
            let i = choose|i: int| 0 <= i < routing.len() && routing[i] == id;
            assert(ids[1 + i] == id);
        }
    }
    if m.p2p_nodes.contains_key(node_id) {
        let direct = m.sessions[m.p2p_nodes[node_id]].owner.identities;
        assert forall|id: NodeId| #[trigger] direct.contains(id) implies ids.contains(id) by {
            let i = choose|i: int| 0 <= i < direct.len() && direct[i] == id;
            assert(ids[ids.len() - direct.len() + i] == id);
        }
    }
}

/// Once a node was unregistered nothing leads to it, under none of its ids, the session with it is
/// closed, and the network view does not know it.
pub proof fn lemma_unregistered_is_gone(m: LayerModel, node_id: NodeId)
    requires
        m.wf(),
    ensures
        ({
            let u = m.unregistered(node_id);
            &&& forall|id: NodeId| #[trigger]
                m.ids_to_forget(node_id).contains(id) ==> !u.nodes.contains_key(id)
                    && !u.p2p_nodes.contains_key(id)
            &&& !u.nodes.contains_key(node_id)
            &&& !u.registry.by_node_id.contains_key(node_id)
            &&& m.direct(node_id) matches Some(h) ==> !u.sessions.contains_key(h)
                && !u.p2p_sessions.contains_key(m.sessions[h].raw.remote)
        }),
{
    let unlinked = match m.direct(node_id) {
        Some(h) => LayerModel {
            p2p_sessions: m.p2p_sessions.remove(m.sessions[h].raw.remote),
            ..m
        },
        None => m,
    };
    let ids = m.ids_to_forget(node_id);
    assert forall|a: SocketAddr|
        unlinked.p2p_sessions.contains_key(a) implies unlinked.sessions.contains_key(
        #[trigger] unlinked.p2p_sessions[a],
    ) && unlinked.sessions[unlinked.p2p_sessions[a]].raw.remote == a by {
        assert(m.sessions.contains_key(m.p2p_sessions[a]));
    }
    assert(unlinked.linked());
    lemma_forgotten(unlinked, ids);
    lemma_forgotten_ids(m, node_id);
    let u = m.unregistered(node_id);
    let d = m.detached(node_id);
    assert(d.p2p_nodes == m.p2p_nodes.remove_keys(ids.to_set()));
    assert(d.nodes == m.nodes.remove_keys(ids.to_set()));
    if let Some(h) = m.direct(node_id) {
        assert(m.sessions.contains_key(m.p2p_nodes[node_id]));
        let remote = m.sessions[h].raw.remote;
        assert(d.sessions[h].raw == m.sessions[h].raw);
        if u.sessions.contains_key(h) {
            let c = d.closed(d.sessions[h]);
            assert(c.p2p_sessions == d.p2p_sessions.remove(remote));
            if exists|a: SocketAddr|
                c.p2p_sessions.contains_key(a) && #[trigger] c.p2p_sessions[a] == h {
                let a = choose|a: SocketAddr|
                    c.p2p_sessions.contains_key(a) && #[trigger] c.p2p_sessions[a] == h;
                assert(m.p2p_sessions[a] == h);
                assert(a == remote);
            } else {
                assert(c.referenced(h)) by {
                    lemma_closed_wf_of_detached(m, node_id);
                }
                let id = choose|id: NodeId|
                    c.p2p_nodes.contains_key(id) && #[trigger] c.p2p_nodes[id] == h;
                assert(m.p2p_nodes[id] == h);
                assert(m.sessions[h].owner.identities.contains(id));
                assert(ids.contains(id));
            }
        }
    }
}

proof fn lemma_closed_wf_of_detached(m: LayerModel, node_id: NodeId)
    requires
        m.wf(),
    ensures
        m.unregistered(node_id).wf(),
{
    let unlinked = match m.direct(node_id) {
        Some(h) => LayerModel {
            p2p_sessions: m.p2p_sessions.remove(m.sessions[h].raw.remote),
            ..m
        },
        None => m,
    };
    let ids = m.ids_to_forget(node_id);
    assert forall|a: SocketAddr|
        unlinked.p2p_sessions.contains_key(a) implies unlinked.sessions.contains_key(
        #[trigger] unlinked.p2p_sessions[a],
    ) && unlinked.sessions[unlinked.p2p_sessions[a]].raw.remote == a by {
        assert(m.sessions.contains_key(m.p2p_sessions[a]));
    }
    lemma_forgotten(unlinked, ids);
    let d = m.detached(node_id);
    assert forall|id: NodeId| d.registry.by_node_id.contains_key(id) implies (
    #[trigger] d.registry.by_node_id[id]) < d.registry.nodes.len() by {
        assert(m.registry.by_node_id[id] < m.registry.nodes.len());
    }
    assert forall|a: SocketAddr| d.registry.by_addr.contains_key(a) implies (
    #[trigger] d.registry.by_addr[a]) < d.registry.nodes.len() by {
        assert(m.registry.by_addr[a] < m.registry.nodes.len());
    }
    assert(d.linked()) by {
        let f = unlinked.forgotten(ids);
        assert forall|a: SocketAddr| d.p2p_sessions.contains_key(a) implies d.sessions.contains_key(
            #[trigger] d.p2p_sessions[a],
        ) && d.sessions[d.p2p_sessions[a]].raw.remote == a by {
            assert(f.sessions.contains_key(f.p2p_sessions[a]));
        }
        assert forall|id: NodeId| d.p2p_nodes.contains_key(id) implies d.sessions.contains_key(
            #[trigger] d.p2p_nodes[id],
        ) && d.sessions[d.p2p_nodes[id]].owner.identities.contains(id) by {
            assert(f.sessions.contains_key(f.p2p_nodes[id]));
        }
        assert forall|id: NodeId| d.nodes.contains_key(id) implies (#[trigger] d.nodes[id]).number
            < d.next_number by {
            assert(f.nodes[id].number < f.next_number);
        }
    }
    match m.direct(node_id) {
        Some(h) => {
            lemma_closed_wf(d, d.sessions[h]);
        },
        None => {
            lemma_collected_wf(d);
        },
    }
}

/// Unregistering a node leaves the way to another node alone, unless packets for that one went
/// through the session that is closed.
pub proof fn lemma_unregistered_keeps_others(m: LayerModel, node_id: NodeId, other: NodeId)
    requires
        m.wf(),
        m.nodes.contains_key(other),
        !m.ids_to_forget(node_id).contains(other),
        m.direct(node_id) matches Some(h) ==> !m.sessions[h].forwards.members().contains(other),
    ensures
        m.unregistered(node_id).nodes.contains_key(other),
        m.unregistered(node_id).nodes[other] == m.nodes[other],
{
    let unlinked = match m.direct(node_id) {
        Some(h) => LayerModel {
            p2p_sessions: m.p2p_sessions.remove(m.sessions[h].raw.remote),
            ..m
        },
        None => m,
    };
    assert forall|a: SocketAddr|
        unlinked.p2p_sessions.contains_key(a) implies unlinked.sessions.contains_key(
        #[trigger] unlinked.p2p_sessions[a],
    ) && unlinked.sessions[unlinked.p2p_sessions[a]].raw.remote == a by {
        assert(m.sessions.contains_key(m.p2p_sessions[a]));
    }
    lemma_forgotten(unlinked, m.ids_to_forget(node_id));
    lemma_forgotten_ids(m, node_id);
    if let Some(h) = m.direct(node_id) {
        assert(m.sessions.contains_key(m.p2p_nodes[node_id]));
        let d = m.detached(node_id);
        assert(d.sessions[h].owner == m.sessions[h].owner);
        if d.sessions[h].forwards.members().contains(other) {
            let slot = choose|slot: crate::model::SlotId| #[trigger]
                d.sessions[h].forwards.slots.contains_key(slot)
                    && d.sessions[h].forwards.slots[slot].identities.contains(other);
            assert(m.sessions[h].forwards.slots.contains_key(slot));
            assert(m.sessions[h].forwards.members().contains(other));
        }
    }
}

} // verus!
