//! Local knowledge about the network. Makes sure that two sessions with one node are never
//! initialized at the same time.
use vstd::prelude::*;
use vstd::string::*;

use crate::assoc::AssocMap;
#[allow(unused_imports)]
use crate::assoc::lemma_contains_push;
use crate::direct_session::NodeEntry;
use crate::error::{owned, SessionError, TransitionError};
use crate::model::{
    clone_names, copy_list, Identity, NodeId, NodeInfo, PublicKey, SessionHandle, SlotId,
    SocketAddr, FORWARD_SLOT_ID,
};
#[allow(unused_imports)]
use crate::model::{default_of, ids_of, NodeInfoView};
use crate::session_state::{InitState, ReverseState, SessionState};
#[allow(unused_imports)]
use crate::session_state::{
    idle, incoming_target, state_allowed, state_text, transition_outcome,
};
#[allow(unused_imports)]
use crate::text::{decimal, push_decimal};

verus! {

/// For how long, in nanoseconds, information about a node counts as fresh: five minutes.
pub const NODE_INFO_TTL: i64 = 300_000_000_000;

pub struct NetworkViewConfig {
    /// For how long, in nanoseconds, information about a node counts as fresh.
    pub node_info_ttl: i64,
}

impl Default for NetworkViewConfig {
    fn default() -> (r: Self)
        ensures
            r.node_info_ttl == NODE_INFO_TTL,
    {
        NetworkViewConfig { node_info_ttl: NODE_INFO_TTL }
    }
}

/// A node that the view has an entry for. Two values with one index mean the same entry.
#[derive(Clone, Copy, Debug, PartialEq, Eq, Structural)]
pub struct NodeView {
    /// Default id of the node.
    pub id: NodeId,
    pub index: usize,
}

/// A node together with the generation of the attempt to connect that the holder belongs to.
#[derive(Clone, Copy, Debug, PartialEq, Eq, Structural)]
pub struct NodeSnapshot {
    pub id: NodeId,
    pub index: usize,
    pub generation: u64,
}

/// What is known about a node.
pub struct NodeViewState {
    pub id: NodeId,
    /// The first identity is the default one. Empty while nothing is known.
    pub node: Vec<Identity>,
    pub authenticated_identities: Vec<NodeId>,
    pub addresses: Vec<SocketAddr>,
    pub supported_encryption: Vec<String>,
    pub session_key: Option<PublicKey>,
    pub state: SessionState,
    /// Slot of the node on the relay server.
    pub slot: SlotId,
    /// Initializations in progress that can be aborted. There are two of them while a reverse
    /// connection is initialized.
    pub abort_handle: Vec<u64>,
    /// When information about the node was last updated, in nanoseconds.
    pub last_info_update: i64,
    /// Counts the attempts to connect that were granted.
    pub generation: u64,
}

/// Mathematical content of a [`NodeViewState`].
#[verifier::ext_equal]
pub struct NodeModel {
    pub id: NodeId,
    pub node: Seq<Identity>,
    pub authenticated_identities: Seq<NodeId>,
    pub addresses: Seq<SocketAddr>,
    pub supported_encryption: Seq<String>,
    pub session_key: Option<PublicKey>,
    pub state: SessionState,
    pub slot: SlotId,
    pub abort_handle: Seq<u64>,
    pub last_info_update: i64,
    pub generation: u64,
}

impl View for NodeViewState {
    type V = NodeModel;

    open spec fn view(&self) -> NodeModel {
        NodeModel {
            id: self.id,
            node: self.node@,
            authenticated_identities: self.authenticated_identities@,
            addresses: self.addresses@,
            supported_encryption: self.supported_encryption@,
            session_key: self.session_key,
            state: self.state,
            slot: self.slot,
            abort_handle: self.abort_handle@,
            last_info_update: self.last_info_update,
            generation: self.generation,
        }
    }
}

/// A node of which nothing is known but its id and addresses.
pub open spec fn fresh_node(id: NodeId, addresses: Seq<SocketAddr>, now: i64) -> NodeModel {
    NodeModel {
        id,
        node: Seq::empty(),
        authenticated_identities: Seq::empty(),
        addresses,
        supported_encryption: Seq::empty(),
        session_key: None,
        state: SessionState::Closed,
        slot: FORWARD_SLOT_ID,
        abort_handle: Seq::empty(),
        last_info_update: now,
        generation: 0,
    }
}

/// What is known about the network.
pub struct NetworkView {
    pub config: NetworkViewConfig,
    nodes: Vec<NodeViewState>,
    by_node_id: AssocMap<NodeId, usize>,
    by_addr: AssocMap<SocketAddr, usize>,
}

/// Mathematical content of a [`NetworkView`].
#[verifier::ext_equal]
pub struct NetworkModel {
    pub ttl: i64,
    pub nodes: Seq<NodeModel>,
    pub by_node_id: Map<NodeId, usize>,
    pub by_addr: Map<SocketAddr, usize>,
}

impl View for NetworkView {
    type V = NetworkModel;

    closed spec fn view(&self) -> NetworkModel {
        NetworkModel {
            ttl: self.config.node_info_ttl,
            nodes: self.nodes@.map_values(|n: NodeViewState| n@),
            by_node_id: self.by_node_id@,
            by_addr: self.by_addr@,
        }
    }
}

/// Entry that the first known address leads to.
pub open spec fn first_by_addr(by_addr: Map<SocketAddr, usize>, addrs: Seq<SocketAddr>) -> Option<
    usize,
>
    decreases addrs.len(),
{
    if addrs.len() == 0 {
        None
    } else if by_addr.contains_key(addrs[0]) {
        Some(by_addr[addrs[0]])
    } else {
        first_by_addr(by_addr, addrs.skip(1))
    }
}

/// The same value for each key of a list.
pub open spec fn all_to<K>(keys: Seq<K>, value: usize) -> Map<K, usize> {
    Map::new(|k: K| keys.contains(k), |k: K| value)
}

impl NetworkModel {
    /// Every index leads to an entry.
    pub open spec fn wf(self) -> bool {
        &&& forall|id: NodeId|
            self.by_node_id.contains_key(id) ==> (#[trigger] self.by_node_id[id]) < self.nodes.len()
        &&& forall|a: SocketAddr|
            self.by_addr.contains_key(a) ==> (#[trigger] self.by_addr[a]) < self.nodes.len()
        &&& self.nodes.len() <= usize::MAX
    }

    /// Whether the value stands for an entry.
    pub open spec fn has(self, node: NodeView) -> bool {
        node.index < self.nodes.len() && self.nodes[node.index as int].id == node.id
    }

    pub open spec fn view_at(self, index: usize) -> NodeView {
        NodeView { id: self.nodes[index as int].id, index }
    }

    /// Entry of a node, looked up by its id, or else by its addresses.
    pub open spec fn find(self, node_id: NodeId, addrs: Seq<SocketAddr>) -> Option<usize> {
        if self.by_node_id.contains_key(node_id) {
            Some(self.by_node_id[node_id])
        } else {
            first_by_addr(self.by_addr, addrs)
        }
    }

    /// The view with the entry of a node, which is added if there was none.
    pub open spec fn guarded(self, node_id: NodeId, addrs: Seq<SocketAddr>, now: i64) -> (
        NetworkModel,
        usize,
    ) {
        match self.find(node_id, addrs) {
            Some(index) => (self, index),
            None => {
                let index = self.nodes.len() as usize;
                (
                    NetworkModel {
                        nodes: self.nodes.push(fresh_node(node_id, addrs, now)),
                        by_node_id: self.by_node_id.insert(node_id, index),
                        by_addr: self.by_addr.union_prefer_right(all_to(addrs, index)),
                        ..self
                    },
                    index,
                )
            },
        }
    }

    /// Whether all ids that are known belong to one entry.
    pub open spec fn consistent(self, ids: Seq<NodeId>) -> bool {
        forall|a: NodeId, b: NodeId|
            ids.contains(a) && ids.contains(b) && self.by_node_id.contains_key(a)
                && self.by_node_id.contains_key(b) ==> #[trigger] self.by_node_id[a]
                == #[trigger] self.by_node_id[b]
    }

    /// Entry of the first id that is known.
    pub open spec fn first_known(self, ids: Seq<NodeId>) -> Option<usize>
        decreases ids.len(),
    {
        if ids.len() == 0 {
            None
        } else if self.by_node_id.contains_key(ids[0]) {
            Some(self.by_node_id[ids[0]])
        } else {
            self.first_known(ids.skip(1))
        }
    }

    /// The view with a node replaced.
    pub open spec fn with_node(self, index: usize, node: NodeModel) -> NetworkModel {
        NetworkModel { nodes: self.nodes.update(index as int, node), ..self }
    }

    /// The view with the state of a node replaced.
    pub open spec fn with_state(self, index: usize, state: SessionState) -> NetworkModel {
        self.with_node(index, NodeModel { state, ..self.nodes[index as int] })
    }

    /// The view after information about a node came in.
    pub open spec fn updated(self, info: NodeInfoView, now: i64) -> NetworkModel {
        let ids = ids_of(info.identities);
        let (base, index) = match self.first_known(ids) {
            Some(index) => (self, index),
            None => (
                NetworkModel {
                    nodes: self.nodes.push(
                        fresh_node(default_of(info.identities), info.endpoints, now),
                    ),
                    ..self
                },
                self.nodes.len() as usize,
            ),
        };
        let indexed = NetworkModel {
            by_node_id: base.by_node_id.union_prefer_right(all_to(ids, index)),
            by_addr: base.by_addr.union_prefer_right(all_to(info.endpoints, index)),
            ..base
        };
        indexed.with_node(index, refreshed(indexed.nodes[index as int], info, now))
    }

    /// The view without the node: no id and no address leads to its entry any more.
    pub open spec fn without(self, node_id: NodeId) -> NetworkModel {
        if self.by_node_id.contains_key(node_id) {
            let index = self.by_node_id[node_id];
            NetworkModel {
                by_node_id: without_value(self.by_node_id, index),
                by_addr: without_value(self.by_addr, index),
                ..self
            }
        } else {
            self
        }
    }

    /// Whether an entry belongs to one of some nodes.
    pub open spec fn belongs(self, ids: Set<NodeId>, index: usize) -> bool {
        exists|id: NodeId| #[trigger]
            ids.contains(id) && self.by_node_id.contains_key(id) && self.by_node_id[id] == index
    }

    /// The view without some nodes.
    pub open spec fn without_nodes(self, ids: Set<NodeId>) -> NetworkModel {
        NetworkModel {
            by_node_id: Map::new(
                |k: NodeId|
                    self.by_node_id.contains_key(k) && !self.belongs(ids, self.by_node_id[k]),
                |k: NodeId| self.by_node_id[k],
            ),
            by_addr: Map::new(
                |a: SocketAddr|
                    self.by_addr.contains_key(a) && !self.belongs(ids, self.by_addr[a]),
                |a: SocketAddr| self.by_addr[a],
            ),
            ..self
        }
    }

    /// Whether a snapshot still describes the entry of its node.
    pub open spec fn is_current(self, snapshot: NodeSnapshot) -> bool {
        &&& self.by_node_id.contains_key(snapshot.id)
        &&& self.by_node_id[snapshot.id] == snapshot.index
        &&& snapshot.index < self.nodes.len()
        &&& self.nodes[snapshot.index as int].generation == snapshot.generation
    }
}

/// A map without the keys that lead to a value.
pub open spec fn without_value<K>(m: Map<K, usize>, value: usize) -> Map<K, usize> {
    Map::new(|k: K| m.contains_key(k) && m[k] != value, |k: K| m[k])
}

/// A node after information about it came in. Information that names another default id is
/// not taken over.
pub open spec fn refreshed(node: NodeModel, info: NodeInfoView, now: i64) -> NodeModel {
    if info.identities.len() > 0 && info.identities[0].node_id != node.id {
        node
    } else {
        NodeModel {
            slot: info.slot,
            supported_encryption: info.supported_encryption,
            session_key: info.session_key,
            node: info.identities,
            authenticated_identities: info.authenticated_identities,
            addresses: info.endpoints,
            last_info_update: now,
            ..node
        }
    }
}

/// Information about a node, with a recommendation to ask for newer one or without.
pub enum Validity<T: Sized> {
    UpToDate(T),
    UpdateRecommended(T),
}

impl<T> Validity<T> where T: Sized {
    pub open spec fn content(self) -> T {
        match self {
            Validity::UpToDate(content) => content,
            Validity::UpdateRecommended(content) => content,
        }
    }

    /// The information, whether it is up to date or not.
    pub fn just_get(self) -> (r: T)
        ensures
            r == self.content(),
    {
        match self {
            Validity::UpToDate(content) => content,
            Validity::UpdateRecommended(content) => content,
        }
    }

    /// Whether newer information should be asked for.
    pub fn update_recommended(&self) -> (r: bool)
        ensures
            r == (*self is UpdateRecommended),
    {
        match self {
            Validity::UpdateRecommended(_) => true,
            Validity::UpToDate(_) => false,
        }
    }
}

/// What is known about a node, as a relay would describe it.
pub open spec fn info_of(node: NodeModel) -> NodeInfoView {
    NodeInfoView {
        identities: node.node,
        authenticated_identities: node.authenticated_identities,
        slot: node.slot,
        endpoints: node.addresses,
        supported_encryption: node.supported_encryption,
        session_key: node.session_key,
    }
}

/// Whether information about a node should be asked for again. That is so while nothing is known
/// of it, and otherwise after some time, unless there is an established session with it.
pub open spec fn outdated(node: NodeModel, now: i64, ttl: i64) -> bool {
    node.node.len() == 0 || (!(node.state is Established) && now - node.last_info_update > ttl)
}

impl NodeViewState {
    fn new(node_id: NodeId, addresses: Vec<SocketAddr>, now: i64) -> (r: Self)
        ensures
            r@ == fresh_node(node_id, addresses@, now),
    {
        let r = NodeViewState {
            id: node_id,
            node: Vec::new(),
            authenticated_identities: Vec::new(),
            addresses,
            supported_encryption: Vec::new(),
            session_key: None,
            state: SessionState::Closed,
            slot: FORWARD_SLOT_ID,
            abort_handle: Vec::new(),
            last_info_update: now,
            generation: 0,
        };
        assert(r@ =~= fresh_node(node_id, addresses@, now));
        r
    }

    /// What is known about the node, as a relay would describe it.
    pub fn info(&self) -> (r: NodeInfo)
        ensures
            r@ == info_of(self@),
    {
        let r = NodeInfo {
            identities: copy_list(&self.node),
            authenticated_identities: copy_list(&self.authenticated_identities),
            slot: self.slot,
            endpoints: copy_list(&self.addresses),
            supported_encryption: clone_names(&self.supported_encryption),
            session_key: self.session_key,
        };
        assert(r@ =~= info_of(self@));
        r
    }

    fn update_info(&mut self, info: &NodeInfo, now: i64) -> (r: bool)
        ensures
            final(self)@ == refreshed(old(self)@, info@, now),
            r == (info@.identities.len() == 0 || info@.identities[0].node_id == old(self)@.id),
    {
        if info.identities.len() > 0 {
            if info.identities[0].node_id != self.id {
                return false;
            }
        }
        self.slot = info.slot;
        self.supported_encryption = clone_names(&info.supported_encryption);
        self.session_key = info.session_key;
        self.node = copy_list(&info.identities);
        self.authenticated_identities = copy_list(&info.authenticated_identities);
        self.addresses = copy_list(&info.endpoints);
        self.last_info_update = now;
        assert(self@ =~= refreshed(old(self)@, info@, now));
        true
    }
}

fn index_all<K: crate::assoc::Key>(map: &mut AssocMap<K, usize>, keys: &Vec<K>, value: usize)
    ensures
        final(map)@ == old(map)@.union_prefer_right(all_to(keys@, value)),
{
    let ghost before = map@;
    let mut i: usize = 0;
    assert(map@ =~= before.union_prefer_right(all_to(keys@.take(0), value)));
    while i < keys.len()
        invariant
            0 <= i <= keys@.len(),
            map@ == before.union_prefer_right(all_to(keys@.take(i as int), value)),
        decreases keys@.len() - i,
    {
        map.insert(keys[i], value);
        proof {
            let k = keys@[i as int];
            let prev = keys@.take(i as int);
            let next = keys@.take(i + 1);
            assert(next =~= prev.push(k));
            assert forall|x: K| next.contains(x) == (prev.contains(x) || x == k) by {
                if prev.contains(x) {
                    let j = choose|j: int| 0 <= j < prev.len() && prev[j] == x;
                    assert(next[j] == x);
                }
                if x == k {
                    assert(next[i as int] == x);
                }
            }
            assert(map@ =~= before.union_prefer_right(all_to(next, value)));
        }
        i += 1;
    }
    assert(keys@.take(i as int) =~= keys@);
}

fn drop_value<K: crate::assoc::Key>(map: &mut AssocMap<K, usize>, value: usize)
    ensures
        final(map)@ == without_value(old(map)@, value),
{
    let ghost before = map@;
    let keys = map.keys();
    let mut i: usize = 0;
    while i < keys.len()
        invariant
            0 <= i <= keys@.len(),
            keys@.to_set() == before.dom(),
            keys@.no_duplicates(),
            forall|k: K|
                #[trigger] map@.contains_key(k) <==> before.contains_key(k) && !(before[k] == value
                    && keys@.take(i as int).contains(k)),
            forall|k: K| #[trigger] map@.contains_key(k) ==> map@[k] == before[k],
        decreases keys@.len() - i,
    {
        let key = keys[i];
        let ghost current = map@;
        proof {
            assert(keys@.contains(key));
            assert(before.dom().contains(key));
            assert(!keys@.take(i as int).contains(key));
        }
        let found = match map.get(&key) {
            Some(v) => *v == value,
            None => false,
        };
        if found {
            map.remove(&key);
        }
        proof {
            let prev = keys@.take(i as int);
            let next = keys@.take(i + 1);
            assert(next =~= prev.push(key));
            assert forall|x: K| next.contains(x) == (prev.contains(x) || x == key) by {
                if prev.contains(x) {
                    let j = choose|j: int| 0 <= j < prev.len() && prev[j] == x;
                    assert(next[j] == x);
                }
                if x == key {
                    assert(next[i as int] == x);
                }
            }
        }
        i += 1;
    }
    proof {
        assert(keys@.take(i as int) =~= keys@);
        assert forall|k: K| before.contains_key(k) implies keys@.contains(k) by {
            assert(keys@.to_set().contains(k));
        }
        assert(map@ =~= without_value(before, value));
    }
}

impl NetworkView {
    /// A view that knows nothing yet.
    pub fn new(config: NetworkViewConfig) -> (r: NetworkView)
        ensures
            r@.wf(),
            r@ == (NetworkModel {
                ttl: config.node_info_ttl,
                nodes: Seq::empty(),
                by_node_id: Map::empty(),
                by_addr: Map::empty(),
            }),
    {
        let r = NetworkView {
            config,
            nodes: Vec::new(),
            by_node_id: AssocMap::new(),
            by_addr: AssocMap::new(),
        };
        assert(r@.nodes =~= Seq::empty());
        r
    }

    fn find(&self, node_id: NodeId, addrs: &Vec<SocketAddr>) -> (r: Option<usize>)
        requires
            self@.wf(),
        ensures
            r == self@.find(node_id, addrs@),
            r matches Some(i) ==> i < self@.nodes.len(),
    {
        match self.by_node_id.get(&node_id) {
            Some(i) => Some(*i),
            None => {
                let mut i: usize = 0;
                assert(addrs@.skip(0) =~= addrs@);
                while i < addrs.len()
                    invariant
                        0 <= i <= addrs@.len(),
                        self@.wf(),
                        first_by_addr(self@.by_addr, addrs@) == first_by_addr(
                            self@.by_addr,
                            addrs@.skip(i as int),
                        ),
                        !self@.by_node_id.contains_key(node_id),
                    decreases addrs@.len() - i,
                {
                    assert(addrs@.skip(i as int)[0] == addrs@[i as int]);
                    assert(addrs@.skip(i as int).skip(1) =~= addrs@.skip(i + 1));
                    match self.by_addr.get(&addrs[i]) {
                        Some(index) => {
                            return Some(*index);
                        },
                        None => {},
                    }
                    i += 1;
                }
                None
            },
        }
    }

    /// Entry of the node, which is created if there was none. There is one entry per node, and
    /// all callers get the same one.
    pub fn guard(&mut self, node_id: NodeId, addrs: &Vec<SocketAddr>, now: i64) -> (r: NodeView)
        requires
            old(self)@.wf(),
            old(self)@.nodes.len() < usize::MAX,
        ensures
            final(self)@.wf(),
            final(self)@ == old(self)@.guarded(node_id, addrs@, now).0,
            r == final(self)@.view_at(old(self)@.guarded(node_id, addrs@, now).1),
            final(self)@.has(r),
    {
        match self.find(node_id, addrs) {
            Some(index) => NodeView { id: self.nodes[index].id, index },
            None => {
                let ghost before = self@;
                let index = self.nodes.len();
                self.nodes.push(NodeViewState::new(node_id, copy_list(addrs), now));
                self.by_node_id.insert(node_id, index);
                index_all(&mut self.by_addr, addrs, index);
                assert(self@.nodes =~= before.nodes.push(fresh_node(node_id, addrs@, now)));
                NodeView { id: node_id, index }
            },
        }
    }

    /// Takes over information about a node. All ids that are known already must belong to one
    /// entry, since a node has only one.
    pub fn update_entry(&mut self, info: &NodeInfo, now: i64) -> (r: Result<(), String>)
        requires
            old(self)@.wf(),
            old(self)@.nodes.len() < usize::MAX,
        ensures
            final(self)@.wf(),
            old(self)@.consistent(ids_of(info@.identities)) ==> r is Ok && final(self)@ == old(
                self,
            )@.updated(info@, now),
            !old(self)@.consistent(ids_of(info@.identities)) ==> final(self)@ == old(self)@ && (
            r matches Err(m) && m@
                == "Inconsistent `NetworkView` state. A few entries are pointing to the same Node."@),
    {
        let ghost before = self@;
        let ids = crate::model::identity_ids(&info.identities);
        let mut entry: Option<usize> = None;
        let mut i: usize = 0;
        assert(ids@.skip(0) =~= ids@);
        while i < ids.len()
            invariant
                0 <= i <= ids@.len(),
                ids@ == ids_of(info@.identities),
                before == old(self)@,
                self@ == before,
                before.wf(),
                entry matches Some(e) ==> before.first_known(ids@) == Some(e) && (exists|a: NodeId|
                    ids@.contains(a) && before.by_node_id.contains_key(a)
                        && #[trigger] before.by_node_id[a] == e),
                entry is None ==> before.first_known(ids@) == before.first_known(
                    ids@.skip(i as int),
                ),
                forall|j: int|
                    0 <= j < i && before.by_node_id.contains_key(ids@[j]) ==> entry == Some(
                        before.by_node_id[#[trigger] ids@[j]],
                    ),
            decreases ids@.len() - i,
        {
            let id = ids[i];
            proof {
                assert(ids@.skip(i as int)[0] == id);
                assert(ids@.skip(i as int).skip(1) =~= ids@.skip(i + 1));
                assert(ids@.contains(id));
            }
            match self.by_node_id.get(&id) {
                Some(found) => {
                    let found: usize = *found;
                    match entry {
                        Some(e) => {
                            if e != found {
                                proof {
                                    let a = choose|a: NodeId|
                                        ids@.contains(a) && before.by_node_id.contains_key(a)
                                            && #[trigger] before.by_node_id[a] == e;
                                    assert(before.by_node_id[a] != before.by_node_id[id]);
                                    assert(!before.consistent(ids@));
                                }
                                return Err(
                                    owned(
                                        "Inconsistent `NetworkView` state. A few entries are pointing to the same Node.",
                                    ),
                                );
                            }
                        },
                        None => {
                            assert(before.by_node_id[id] == found);
                            entry = Some(found);
                        },
                    }
                },
                None => {},
            }
            i += 1;
        }
        proof {
            assert(ids@.skip(i as int) =~= Seq::empty());
            assert forall|a: NodeId, b: NodeId|
                ids@.contains(a) && ids@.contains(b) && before.by_node_id.contains_key(a)
                    && before.by_node_id.contains_key(b) implies #[trigger] before.by_node_id[a]
                == #[trigger] before.by_node_id[b] by {
                let ja = choose|j: int| 0 <= j < ids@.len() && ids@[j] == a;
                let jb = choose|j: int| 0 <= j < ids@.len() && ids@[j] == b;
                assert(entry == Some(before.by_node_id[ids@[ja]]));
                assert(entry == Some(before.by_node_id[ids@[jb]]));
            }
            assert(before.consistent(ids@));
        }
        let index = match entry {
            Some(index) => index,
            None => {
                let index = self.nodes.len();
                self.nodes.push(
                    NodeViewState::new(info.default_node_id(), copy_list(&info.endpoints), now),
                );
                assert(self@.nodes =~= before.nodes.push(
                    fresh_node(default_of(info@.identities), info@.endpoints, now),
                ));
                index
            },
        };
        let ghost base = self@;
        index_all(&mut self.by_node_id, &ids, index);
        index_all(&mut self.by_addr, &info.endpoints, index);
        let ghost indexed = self@;
        assert(indexed.nodes =~= base.nodes);
        self.nodes[index].update_info(info, now);
        assert(self@.nodes =~= indexed.nodes.update(
            index as int,
            refreshed(indexed.nodes[index as int], info@, now),
        ));
        assert forall|id: NodeId| self@.by_node_id.contains_key(id) implies (
        #[trigger] self@.by_node_id[id]) < self@.nodes.len() by {
            if !ids@.contains(id) {
                assert(before.by_node_id.contains_key(id));
                assert(before.by_node_id[id] < before.nodes.len());
            }
        }
        assert forall|a: SocketAddr| self@.by_addr.contains_key(a) implies (
        #[trigger] self@.by_addr[a]) < self@.nodes.len() by {
            if !info@.endpoints.contains(a) {
                assert(before.by_addr.contains_key(a));
                assert(before.by_addr[a] < before.nodes.len());
            }
        }
        Ok(())
    }

    /// Entry of a node, if there is one.
    pub fn get_entry(&self, node_id: NodeId) -> (r: Option<NodeView>)
        requires
            self@.wf(),
        ensures
            match r {
                Some(node) => self@.by_node_id.contains_key(node_id) && node == self@.view_at(
                    self@.by_node_id[node_id],
                ) && self@.has(node),
                None => !self@.by_node_id.contains_key(node_id),
            },
    {
        match self.by_node_id.get(&node_id) {
            Some(i) => {
                assert(self@.by_node_id[node_id] < self@.nodes.len());
                Some(NodeView { id: self.nodes[*i].id, index: *i })
            },
            None => None,
        }
    }

    /// Entry of the node behind an address, if there is one.
    pub fn get_entry_by_addr(&self, remote: &SocketAddr) -> (r: Option<NodeView>)
        requires
            self@.wf(),
        ensures
            match r {
                Some(node) => self@.by_addr.contains_key(*remote) && node == self@.view_at(
                    self@.by_addr[*remote],
                ) && self@.has(node),
                None => !self@.by_addr.contains_key(*remote),
            },
    {
        match self.by_addr.get(remote) {
            Some(i) => {
                assert(self@.by_addr[*remote] < self@.nodes.len());
                Some(NodeView { id: self.nodes[*i].id, index: *i })
            },
            None => None,
        }
    }

    /// Forgets a node. Its entry is retired, and the next attempt to connect gets a new one.
    pub fn remove_node(&mut self, node_id: NodeId)
        requires
            old(self)@.wf(),
        ensures
            final(self)@.wf(),
            final(self)@ == old(self)@.without(node_id),
    {
        let found: Option<usize> = match self.by_node_id.get(&node_id) {
            Some(i) => Some(*i),
            None => None,
        };
        match found {
            Some(index) => {
                drop_value(&mut self.by_node_id, index);
                drop_value(&mut self.by_addr, index);
                assert forall|id: NodeId| self@.by_node_id.contains_key(id) implies (
                #[trigger] self@.by_node_id[id]) < self@.nodes.len() by {
                    assert(old(self)@.by_node_id[id] < old(self)@.nodes.len());
                }
                assert forall|a: SocketAddr| self@.by_addr.contains_key(a) implies (
                #[trigger] self@.by_addr[a]) < self@.nodes.len() by {
                    assert(old(self)@.by_addr[a] < old(self)@.nodes.len());
                }
            },
            None => {},
        }
    }

    /// Forgets all nodes of a list.
    pub fn remove_nodes(&mut self, ids: &Vec<NodeId>)
        requires
            old(self)@.wf(),
        ensures
            final(self)@.wf(),
            final(self)@ == old(self)@.without_nodes(ids@.to_set()),
    {
        let ghost before = self@;
        let mut i: usize = 0;
        assert(self@ =~= before.without_nodes(ids@.take(0).to_set()));
        while i < ids.len()
            invariant
                0 <= i <= ids@.len(),
                self@.wf(),
                self@ == before.without_nodes(ids@.take(i as int).to_set()),
            decreases ids@.len() - i,
        {
            let id = ids[i];
            let ghost prev = self@;
            self.remove_node(id);
            proof {
                let past = ids@.take(i as int).to_set();
                let next = ids@.take(i + 1).to_set();
                assert(ids@.take(i + 1) =~= ids@.take(i as int).push(id));
                lemma_contains_push(ids@.take(i as int), id);
                let target = before.without_nodes(next);
                assert forall|k: NodeId| #[trigger]
                    next.contains(k) <==> past.contains(k) || k == id by {
                    assert(ids@.take(i as int).push(id).contains(k) <==> ids@.take(
                        i as int,
                    ).contains(k) || k == id);
                }
                assert forall|index: usize| #[trigger]
                    before.belongs(next, index) <==> before.belongs(past, index) || (
                    before.by_node_id.contains_key(id) && before.by_node_id[id] == index) by {
                    if before.belongs(next, index) {
                        let k = choose|k: NodeId| #[trigger]
                            next.contains(k) && before.by_node_id.contains_key(k)
                                && before.by_node_id[k] == index;
                        if k != id {
                            assert(past.contains(k));
                        }
                    }
                    if before.belongs(past, index) {
                        let k = choose|k: NodeId| #[trigger]
                            past.contains(k) && before.by_node_id.contains_key(k)
                                && before.by_node_id[k] == index;
                        assert(next.contains(k));
                    }
                    if before.by_node_id.contains_key(id) && before.by_node_id[id] == index {
                        assert(next.contains(id));
                    }
                }
                assert(self@.by_node_id =~= target.by_node_id);
                assert(self@.by_addr =~= target.by_addr);
                assert(self@ =~= target);
            }
            i += 1;
        }
        assert(ids@.take(i as int) =~= ids@);
    }

    /// Whether the snapshot still describes the entry of its node.
    pub fn is_current(&self, snapshot: &NodeSnapshot) -> (r: bool)
        requires
            self@.wf(),
        ensures
            r == self@.is_current(*snapshot),
    {
        match self.by_node_id.get(&snapshot.id) {
            Some(i) => {
                assert(self@.by_node_id[snapshot.id] < self@.nodes.len());
                *i == snapshot.index && self.nodes[*i].generation == snapshot.generation
            },
            None => false,
        }
    }

    fn session_target(&self, node_id: NodeId) -> (r: Result<NodeView, TransitionError>)
        requires
            self@.wf(),
        ensures
            match r {
                Ok(node) => self@.by_node_id.contains_key(node_id) && node == self@.view_at(
                    self@.by_node_id[node_id],
                ) && self@.has(node),
                Err(e) => !self@.by_node_id.contains_key(node_id) && e
                    == TransitionError::NodeNotFound(node_id),
            },
    {
        match self.get_entry(node_id) {
            Some(node) => Ok(node),
            None => Err(TransitionError::NodeNotFound(node_id)),
        }
    }

    /// Changes the state of the session with a node.
    pub fn transition(&mut self, node_id: NodeId, new_state: SessionState) -> (r: Result<
        SessionState,
        TransitionError,
    >)
        requires
            old(self)@.wf(),
        ensures
            final(self)@.wf(),
            targeted(old(self)@, node_id, new_state, final(self)@, r),
    {
        match self.session_target(node_id) {
            Ok(node) => node.transition(self, new_state),
            Err(e) => Err(e),
        }
    }

    /// Moves the session with a node to the next stage of an incoming handshake.
    pub fn transition_incoming(&mut self, node_id: NodeId, new_state: InitState) -> (r: Result<
        SessionState,
        TransitionError,
    >)
        requires
            old(self)@.wf(),
        ensures
            final(self)@.wf(),
            targeted(
                old(self)@,
                node_id,
                incoming_target(
                    old(self)@.nodes[old(self)@.by_node_id[node_id] as int].state,
                    new_state,
                ),
                final(self)@,
                r,
            ),
    {
        match self.session_target(node_id) {
            Ok(node) => node.transition_incoming(self, new_state),
            Err(e) => Err(e),
        }
    }

    /// Moves the session with a node to the next stage of an outgoing handshake.
    pub fn transition_outgoing(&mut self, node_id: NodeId, new_state: InitState) -> (r: Result<
        SessionState,
        TransitionError,
    >)
        requires
            old(self)@.wf(),
        ensures
            final(self)@.wf(),
            targeted(
                old(self)@,
                node_id,
                SessionState::Outgoing(new_state),
                final(self)@,
                r,
            ),
    {
        match self.session_target(node_id) {
            Ok(node) => node.transition_outgoing(self, new_state),
            Err(e) => Err(e),
        }
    }

    /// Asks for the right to initialize a session with a node.
    pub fn lock_outgoing(&mut self, node_id: NodeId, addrs: &Vec<SocketAddr>, now: i64) -> (r:
        SessionLock)
        requires
            old(self)@.wf(),
            old(self)@.nodes.len() < usize::MAX,
        ensures
            final(self)@.wf(),
            ({
                let (guarded, index) = old(self)@.guarded(node_id, addrs@, now);
                locked(
                    guarded,
                    guarded.view_at(index),
                    SessionState::Outgoing(InitState::ConnectIntent),
                    final(self)@,
                    r,
                )
            }),
    {
        let node = self.guard(node_id, addrs, now);
        node.lock_outgoing(self)
    }

    /// Asks for the right to initialize a session that a node wants to open.
    pub fn lock_incoming(&mut self, node_id: NodeId, addrs: &Vec<SocketAddr>, now: i64) -> (r:
        SessionLock)
        requires
            old(self)@.wf(),
            old(self)@.nodes.len() < usize::MAX,
        ensures
            final(self)@.wf(),
            ({
                let (guarded, index) = old(self)@.guarded(node_id, addrs@, now);
                locked(
                    guarded,
                    guarded.view_at(index),
                    incoming_target(
                        guarded.nodes[index as int].state,
                        InitState::ConnectIntent,
                    ),
                    final(self)@,
                    r,
                )
            }),
    {
        let node = self.guard(node_id, addrs, now);
        node.lock_incoming(self)
    }
}

/// What an attempt to change the state of a node leaves behind and returns.
pub open spec fn node_changed(
    before: NetworkModel,
    node: NodeView,
    target: SessionState,
    after: NetworkModel,
    r: Result<SessionState, TransitionError>,
) -> bool {
    &&& after == before.with_state(node.index, after.nodes[node.index as int].state)
    &&& transition_outcome(
        before.nodes[node.index as int].state,
        target,
        after.nodes[node.index as int].state,
        r,
    )
}

/// The same, for a node that is looked up by its id.
pub open spec fn targeted(
    before: NetworkModel,
    node_id: NodeId,
    target: SessionState,
    after: NetworkModel,
    r: Result<SessionState, TransitionError>,
) -> bool {
    if before.by_node_id.contains_key(node_id) {
        node_changed(before, before.view_at(before.by_node_id[node_id]), target, after, r)
    } else {
        after == before && r == Err::<SessionState, TransitionError>(
            TransitionError::NodeNotFound(node_id),
        )
    }
}

/// What asking for a permit leaves behind and returns: a permit where the state can change to
/// the intent to connect, and the means to wait where not. A permit starts a new generation.
pub open spec fn locked(
    before: NetworkModel,
    node: NodeView,
    target: SessionState,
    after: NetworkModel,
    r: SessionLock,
) -> bool {
    let entry = before.nodes[node.index as int];
    if state_allowed(entry.state, target) {
        let generation = next_generation(entry.generation);
        &&& after == before.with_node(node.index, NodeModel { state: target, generation, ..entry })
        &&& r == SessionLock::Permit(
            SessionPermit {
                registry: node,
                generation,
                reverse: target == SessionState::ReverseConnection(
                    ReverseState::InProgress(InitState::ConnectIntent),
                ),
                result: None,
            },
        )
    } else {
        after == before && r == SessionLock::Wait(NodeAwaiting { registry: node })
    }
}

pub open spec fn next_generation(generation: u64) -> u64 {
    if generation == u64::MAX {
        0
    } else {
        (generation + 1) as u64
    }
}

impl NodeSnapshot {
    /// The node that the snapshot is of.
    pub fn node(&self) -> (r: NodeView)
        ensures
            r == (NodeView { id: self.id, index: self.index }),
    {
        NodeView { id: self.id, index: self.index }
    }

    /// Number of the attempt to connect.
    pub fn generation(&self) -> (r: u64)
        ensures
            r == self.generation,
    {
        self.generation
    }
}

impl NodeView {
    /// Changes the state of the session with the node.
    pub fn transition(&self, view: &mut NetworkView, new_state: SessionState) -> (r: Result<
        SessionState,
        TransitionError,
    >)
        requires
            old(view)@.wf(),
            old(view)@.has(*self),
        ensures
            final(view)@.wf(),
            node_changed(old(view)@, *self, new_state, final(view)@, r),
    {
        let ghost before = view@;
        let r = view.nodes[self.index].state.transition(new_state);
        assert(view@.nodes =~= before.with_state(
            self.index,
            view@.nodes[self.index as int].state,
        ).nodes);
        r
    }

    /// Moves the session to the next stage of an incoming handshake.
    pub fn transition_incoming(&self, view: &mut NetworkView, new_state: InitState) -> (r: Result<
        SessionState,
        TransitionError,
    >)
        requires
            old(view)@.wf(),
            old(view)@.has(*self),
        ensures
            final(view)@.wf(),
            node_changed(
                old(view)@,
                *self,
                incoming_target(old(view)@.nodes[self.index as int].state, new_state),
                final(view)@,
                r,
            ),
    {
        let ghost before = view@;
        let r = view.nodes[self.index].state.transition_incoming(new_state);
        assert(view@.nodes =~= before.with_state(
            self.index,
            view@.nodes[self.index as int].state,
        ).nodes);
        r
    }

    /// Moves the session to the next stage of an outgoing handshake.
    pub fn transition_outgoing(&self, view: &mut NetworkView, new_state: InitState) -> (r: Result<
        SessionState,
        TransitionError,
    >)
        requires
            old(view)@.wf(),
            old(view)@.has(*self),
        ensures
            final(view)@.wf(),
            node_changed(
                old(view)@,
                *self,
                SessionState::Outgoing(new_state),
                final(view)@,
                r,
            ),
    {
        let ghost before = view@;
        let r = view.nodes[self.index].state.transition_outgoing(new_state);
        assert(view@.nodes =~= before.with_state(
            self.index,
            view@.nodes[self.index as int].state,
        ).nodes);
        r
    }

    /// Addresses of the node.
    pub fn public_addresses(&self, view: &NetworkView) -> (r: Vec<SocketAddr>)
        requires
            view@.has(*self),
        ensures
            r@ == view@.nodes[self.index as int].addresses,
    {
        copy_list(&view.nodes[self.index].addresses)
    }

    /// What is known about the node, with a recommendation to ask for newer information where
    /// it may be outdated.
    pub fn info(&self, view: &NetworkView, now: i64) -> (r: Validity<NodeInfo>)
        requires
            view@.has(*self),
        ensures
            r.content()@ == info_of(view@.nodes[self.index as int]),
            (r is UpdateRecommended) == outdated(view@.nodes[self.index as int], now, view@.ttl),
    {
        let state = &view.nodes[self.index];
        let should_update = if state.node.len() == 0 {
            true
        } else {
            match state.state {
                SessionState::Established(_) => false,
                _ => now as i128 - state.last_info_update as i128 > view.config.node_info_ttl
                    as i128,
            }
        };
        if should_update {
            Validity::UpdateRecommended(state.info())
        } else {
            Validity::UpToDate(state.info())
        }
    }

    /// Ids that the node has proved to be its own, as far as they are known.
    pub fn authenticated_identities(&self, view: &NetworkView) -> (r: Vec<NodeId>)
        requires
            view@.has(*self),
        ensures
            r@ == view@.nodes[self.index as int].authenticated_identities,
    {
        copy_list(&view.nodes[self.index].authenticated_identities)
    }

    /// Slot of the node on the relay server, as far as it is known.
    pub fn slot(&self, view: &NetworkView) -> (r: SlotId)
        requires
            view@.has(*self),
        ensures
            r == view@.nodes[self.index as int].slot,
    {
        view.nodes[self.index].slot
    }

    /// Identities of the node, the default one first.
    pub fn identities(&self, view: &NetworkView) -> (r: Result<NodeEntry<Identity>, String>)
        requires
            view@.has(*self),
        ensures
            ({
                let known = view@.nodes[self.index as int].node;
                match r {
                    Ok(entry) => known.len() > 0 && entry.default_id == known[0]
                        && entry.identities@ == known,
                    Err(m) => known.len() == 0 && m@ == "Identities list is empty"@,
                }
            }),
    {
        let ids = copy_list(&view.nodes[self.index].node);
        if ids.len() == 0 {
            return Err(owned("Identities list is empty"));
        }
        Ok(NodeEntry { default_id: ids[0], identities: ids })
    }

    /// Makes known the intent to initialize a session. Gives either the exclusive right to do so,
    /// or the means to wait for the session that someone else initializes.
    pub fn lock_outgoing(&self, view: &mut NetworkView) -> (r: SessionLock)
        requires
            old(view)@.wf(),
            old(view)@.has(*self),
        ensures
            final(view)@.wf(),
            locked(
                old(view)@,
                *self,
                SessionState::Outgoing(InitState::ConnectIntent),
                final(view)@,
                r,
            ),
    {
        let ghost before = view@;
        match self.transition_outgoing(view, InitState::ConnectIntent) {
            Ok(_) => {
                let generation = self.start_generation(view);
                assert(view@.nodes =~= before.with_node(
                    self.index,
                    NodeModel {
                        state: SessionState::Outgoing(InitState::ConnectIntent),
                        generation,
                        ..before.nodes[self.index as int]
                    },
                ).nodes);
                SessionLock::Permit(
                    SessionPermit { registry: *self, generation, reverse: false, result: None },
                )
            },
            Err(_) => {
                assert(view@.nodes =~= before.nodes);
                SessionLock::Wait(NodeAwaiting { registry: *self })
            },
        }
    }

    /// Makes known that the other node wants to initialize a session.
    pub fn lock_incoming(&self, view: &mut NetworkView) -> (r: SessionLock)
        requires
            old(view)@.wf(),
            old(view)@.has(*self),
        ensures
            final(view)@.wf(),
            locked(
                old(view)@,
                *self,
                incoming_target(
                    old(view)@.nodes[self.index as int].state,
                    InitState::ConnectIntent,
                ),
                final(view)@,
                r,
            ),
    {
        let ghost before = view@;
        match self.transition_incoming(view, InitState::ConnectIntent) {
            Ok(state) => {
                let reverse = match &state {
                    SessionState::ReverseConnection(
                        ReverseState::InProgress(InitState::ConnectIntent),
                    ) => true,
                    _ => false,
                };
                let generation = self.start_generation(view);
                assert(view@.nodes =~= before.with_node(
                    self.index,
                    NodeModel { state, generation, ..before.nodes[self.index as int] },
                ).nodes);
                SessionLock::Permit(
                    SessionPermit { registry: *self, generation, reverse, result: None },
                )
            },
            Err(_) => {
                assert(view@.nodes =~= before.nodes);
                SessionLock::Wait(NodeAwaiting { registry: *self })
            },
        }
    }

    fn start_generation(&self, view: &mut NetworkView) -> (r: u64)
        requires
            old(view)@.wf(),
            old(view)@.has(*self),
        ensures
            final(view)@.wf(),
            r == next_generation(old(view)@.nodes[self.index as int].generation),
            final(view)@ == old(view)@.with_node(
                self.index,
                NodeModel { generation: r, ..old(view)@.nodes[self.index as int] },
            ),
    {
        let ghost before = view@;
        let current = view.nodes[self.index].generation;
        let generation = if current == u64::MAX {
            0
        } else {
            current + 1
        };
        view.nodes[self.index].generation = generation;
        assert(view@.nodes =~= before.with_node(
            self.index,
            NodeModel { generation, ..before.nodes[self.index as int] },
        ).nodes);
        generation
    }

    /// The means to wait for a change of the session.
    pub fn awaiting_notifier(&self) -> (r: NodeAwaiting)
        ensures
            r == (NodeAwaiting { registry: *self }),
    {
        NodeAwaiting { registry: *self }
    }

    /// State of the session with the node.
    pub fn state(&self, view: &NetworkView) -> (r: SessionState)
        requires
            view@.has(*self),
        ensures
            r == view@.nodes[self.index as int].state,
    {
        view.nodes[self.index].state.clone()
    }

    /// Remembers an initialization that can be aborted.
    pub fn register_abortable(&self, view: &mut NetworkView, abort: u64)
        requires
            old(view)@.wf(),
            old(view)@.has(*self),
        ensures
            final(view)@.wf(),
            final(view)@ == old(view)@.with_node(
                self.index,
                NodeModel {
                    abort_handle: old(view)@.nodes[self.index as int].abort_handle.push(abort),
                    ..old(view)@.nodes[self.index as int]
                },
            ),
    {
        let ghost before = view@;
        view.nodes[self.index].abort_handle.push(abort);
        assert(view@.nodes =~= before.with_node(
            self.index,
            NodeModel {
                abort_handle: before.nodes[self.index as int].abort_handle.push(abort),
                ..before.nodes[self.index as int]
            },
        ).nodes);
    }

    /// Forgets the initializations that can be aborted.
    pub fn unregister_abortable(&self, view: &mut NetworkView)
        requires
            old(view)@.wf(),
            old(view)@.has(*self),
        ensures
            final(view)@.wf(),
            final(view)@ == old(view)@.with_node(
                self.index,
                NodeModel {
                    abort_handle: Seq::empty(),
                    ..old(view)@.nodes[self.index as int]
                },
            ),
    {
        let ghost before = view@;
        view.nodes[self.index].abort_handle = Vec::new();
        assert(view@.nodes =~= before.with_node(
            self.index,
            NodeModel { abort_handle: Seq::empty(), ..before.nodes[self.index as int] },
        ).nodes);
    }

    /// Takes out the initializations in progress, all of which are to be aborted.
    pub fn abort_initialization(&self, view: &mut NetworkView) -> (r: Vec<u64>)
        requires
            old(view)@.wf(),
            old(view)@.has(*self),
        ensures
            final(view)@.wf(),
            r@ == old(view)@.nodes[self.index as int].abort_handle,
            final(view)@ == old(view)@.with_node(
                self.index,
                NodeModel {
                    abort_handle: Seq::empty(),
                    ..old(view)@.nodes[self.index as int]
                },
            ),
    {
        let handles = copy_list(&view.nodes[self.index].abort_handle);
        self.unregister_abortable(view);
        handles
    }
}

/// Either the exclusive right to initialize a session, or the means to wait for it.
pub enum SessionLock {
    Permit(SessionPermit),
    Wait(NodeAwaiting),
}

/// The exclusive right to initialize a session.
pub struct SessionPermit {
    pub registry: NodeView,
    /// Number of the attempt to connect.
    pub generation: u64,
    /// Set for an incoming connection that answers a request for a reverse connection. Two
    /// permits exist then, since the one who asked is waiting for that connection.
    pub reverse: bool,
    pub result: Option<Result<SessionHandle, SessionError>>,
}

/// State that a permit leaves the session in.
pub open spec fn final_state_of(permit: SessionPermit, r: SessionState) -> bool {
    match permit.result {
        None => {
            let e = if permit.reverse {
                r->ReverseConnection_0->Finished_0->Err_0
            } else {
                r->FailedEstablish_0
            };
            &&& e matches SessionError::ProgrammingError(m) && m@
                == "Dropping `SessionPermit` without result."@
            &&& r == if permit.reverse {
                SessionState::ReverseConnection(ReverseState::Finished(Err(e)))
            } else {
                SessionState::FailedEstablish(e)
            }
        },
        Some(result) => r == if permit.reverse {
            SessionState::ReverseConnection(ReverseState::Finished(result))
        } else {
            match result {
                Ok(session) => SessionState::Established(session),
                Err(e) => SessionState::FailedEstablish(e),
            }
        },
    }
}

/// What has to be done before the state of a node changes for the last time under a permit.
#[derive(Clone, Copy, Debug, PartialEq, Eq, Structural)]
pub enum BeforeRelease {
    /// All data about the node is unregistered and its initializations are aborted.
    CleanState,
    /// Nothing can be aborted any more.
    ForgetAbortable,
    Nothing,
}

impl SessionPermit {
    /// The attempt to connect that the permit is for.
    pub fn owner(&self) -> (r: NodeSnapshot)
        ensures
            r == (NodeSnapshot {
                id: self.registry.id,
                index: self.registry.index,
                generation: self.generation,
            }),
    {
        NodeSnapshot {
            id: self.registry.id,
            index: self.registry.index,
            generation: self.generation,
        }
    }

    /// State that the permit leaves the session in.
    pub fn final_state(&mut self) -> (r: SessionState)
        ensures
            final_state_of(*old(self), r),
            *final(self) == (SessionPermit { result: None, ..*old(self) }),
    {
        let result = self.result.take();
        match result {
            None => {
                let err = SessionError::ProgrammingError(
                    owned("Dropping `SessionPermit` without result."),
                );
                if self.reverse {
                    SessionState::ReverseConnection(ReverseState::Finished(Err(err)))
                } else {
                    SessionState::FailedEstablish(err)
                }
            },
            Some(result) => {
                if self.reverse {
                    SessionState::ReverseConnection(ReverseState::Finished(result))
                } else {
                    match result {
                        Ok(session) => SessionState::Established(session),
                        Err(e) => SessionState::FailedEstablish(e),
                    }
                }
            },
        }
    }

    /// What has to be done before the state changes to the given one.
    pub fn before_release(new_state: &SessionState) -> (r: BeforeRelease)
        ensures
            r == match *new_state {
                SessionState::FailedEstablish(_) => BeforeRelease::CleanState,
                SessionState::ReverseConnection(ReverseState::Finished(_)) =>
                    BeforeRelease::Nothing,
                _ => BeforeRelease::ForgetAbortable,
            },
    {
        match new_state {
            SessionState::FailedEstablish(_) => BeforeRelease::CleanState,
            SessionState::ReverseConnection(ReverseState::Finished(_)) => BeforeRelease::Nothing,
            _ => BeforeRelease::ForgetAbortable,
        }
    }

    /// Gives the permit back: changes the state to the final one. Where that is not allowed,
    /// returns the failure that the session has to be moved to, once the data about the node is
    /// cleaned up. A reverse connection leaves that to the permit that waits for it.
    pub fn release(node: NodeView, view: &mut NetworkView, new_state: SessionState) -> (r: Option<
        SessionState,
    >)
        requires
            old(view)@.wf(),
            old(view)@.has(node),
        ensures
            final(view)@.wf(),
            ({
                let before = old(view)@.nodes[node.index as int].state;
                if state_allowed(before, new_state) {
                    r is None && final(view)@ == old(view)@.with_state(node.index, new_state)
                } else {
                    &&& final(view)@ == old(view)@
                    &&& if new_state is ReverseConnection {
                        r is None
                    } else {
                        r matches Some(
                            SessionState::FailedEstablish(SessionError::ProgrammingError(m)),
                        ) && m@ == "Failed to transition to state: "@ + state_text(new_state)
                            + ": "@ + TransitionError::InvalidTransition(before, new_state).text()
                    }
                }
            }),
    {
        let ghost before = view@;
        let reverse = match new_state {
            SessionState::ReverseConnection(_) => true,
            _ => false,
        };
        let result = node.transition(view, new_state.clone());
        match result {
            Ok(_) => None,
            Err(e) => {
                assert(view@.nodes =~= before.nodes);
                if reverse {
                    None
                } else {
                    let mut m = owned("Failed to transition to state: ");
                    let name = new_state.to_text();
                    m.append(name.as_str());
                    m.append(": ");
                    let reason = e.to_text();
                    m.append(reason.as_str());
                    assert(m@ =~= "Failed to transition to state: "@ + state_text(new_state)
                        + ": "@ + e.text());
                    Some(SessionState::FailedEstablish(SessionError::ProgrammingError(m)))
                }
            },
        }
    }

    /// Remembers the outcome of the initialization, and hands it on.
    pub fn collect_results(&mut self, result: Result<SessionHandle, SessionError>) -> (r: Result<
        SessionHandle,
        SessionError,
    >)
        ensures
            r == result,
            *final(self) == (SessionPermit { result: Some(result), ..*old(self) }),
    {
        let copy = match &result {
            Ok(session) => Ok(*session),
            Err(e) => Err(e.clone()),
        };
        self.result = Some(copy);
        result
    }
}

/// What the holder of a [`NodeAwaiting`] hears of.
pub enum Notice {
    /// The session is in the given state now.
    State(SessionState),
    /// Nobody will announce changes any more.
    Dropped,
    /// Changes came faster than they were read, and some were lost.
    Lagged(u64),
}

/// The means to wait for a session that someone else initializes.
#[derive(Clone, Copy, Debug, PartialEq, Eq, Structural)]
pub struct NodeAwaiting {
    pub registry: NodeView,
}

/// Whether waiting goes on or is over.
pub enum Waiting<T> {
    Over(T),
    Pending,
}

/// What someone who waits for an established session learns from a state.
pub open spec fn finish_outcome(
    state: SessionState,
    alive: bool,
    r: Waiting<Result<SessionHandle, SessionError>>,
) -> bool {
    match state {
        SessionState::Established(session) => if alive {
            r == Waiting::Over(Ok::<SessionHandle, SessionError>(session))
        } else {
            r matches Waiting::Over(Err(SessionError::Unexpected(m))) && m@
                == "Session closed unexpectedly."@
        },
        SessionState::Closed => r matches Waiting::Over(Err(SessionError::Unexpected(m))) && m@
            == "Connection closed."@,
        SessionState::FailedEstablish(e) => r == Waiting::Over(
            Err::<SessionHandle, SessionError>(e),
        ),
        _ => r is Pending,
    }
}

impl NodeAwaiting {
    /// State that was announced, or why none will be.
    pub fn next(notice: Notice) -> (r: Result<SessionState, SessionError>)
        ensures
            match notice {
                Notice::State(state) => r == Ok::<SessionState, SessionError>(state),
                Notice::Dropped => r matches Err(SessionError::Internal(m)) && m@
                    == "Waiting for session initialization: notifier dropped."@,
                Notice::Lagged(lost) => r matches Err(SessionError::Internal(m)) && m@
                    == "Waiting for session initialization: notifier lagged. Lost "@ + decimal(
                    lost as nat,
                ) + " state change(s)."@,
            },
    {
        match notice {
            Notice::State(state) => Ok(state),
            Notice::Dropped => Err(
                SessionError::Internal(
                    owned("Waiting for session initialization: notifier dropped."),
                ),
            ),
            Notice::Lagged(lost) => {
                let mut m = owned(
                    "Waiting for session initialization: notifier lagged. Lost ",
                );
                push_decimal(&mut m, lost as u128);
                m.append(" state change(s).");
                Err(SessionError::Internal(m))
            },
        }
    }

    /// Whether a state ends the wait for an established session. `alive` says whether the
    /// session that an established state names still exists.
    pub fn await_for_finish(state: SessionState, alive: bool) -> (r: Waiting<
        Result<SessionHandle, SessionError>,
    >)
        ensures
            finish_outcome(state, alive, r),
    {
        match state {
            SessionState::Established(session) => {
                if alive {
                    Waiting::Over(Ok(session))
                } else {
                    Waiting::Over(
                        Err(SessionError::Unexpected(owned("Session closed unexpectedly."))),
                    )
                }
            },
            SessionState::Closed => Waiting::Over(
                Err(SessionError::Unexpected(owned("Connection closed."))),
            ),
            SessionState::FailedEstablish(e) => Waiting::Over(Err(e)),
            _ => Waiting::Pending,
        }
    }

    /// Whether a state ends the wait for the end of a session. Such a wait ends with an error.
    pub fn await_for_closed_or_failed(state: SessionState) -> (r: Waiting<SessionError>)
        ensures
            match state {
                SessionState::Closed => r matches Waiting::Over(SessionError::Unexpected(m)) && m@
                    == "Connection closed."@,
                SessionState::FailedEstablish(e) => r == Waiting::Over(e),
                _ => r is Pending,
            },
    {
        match state {
            SessionState::Closed => Waiting::Over(
                SessionError::Unexpected(owned("Connection closed.")),
            ),
            SessionState::FailedEstablish(e) => Waiting::Over(e),
            _ => Waiting::Pending,
        }
    }

    /// Whether a state shows that the first message of the other node came in.
    pub fn await_handshake(state: &SessionState) -> (r: bool)
        ensures
            r == (*state == SessionState::Outgoing(InitState::ChallengeHandshake) || *state
                == SessionState::Incoming(InitState::ChallengeHandshake) || *state
                == SessionState::ReverseConnection(
                ReverseState::InProgress(InitState::ChallengeHandshake),
            )),
    {
        match state {
            SessionState::Outgoing(InitState::ChallengeHandshake)
            | SessionState::Incoming(InitState::ChallengeHandshake)
            | SessionState::ReverseConnection(
                ReverseState::InProgress(InitState::ChallengeHandshake),
            ) => true,
            _ => false,
        }
    }

    /// Whether a state ends the wait for a reverse connection.
    pub fn await_reverse_finish(state: SessionState) -> (r: Waiting<
        Result<SessionHandle, SessionError>,
    >)
        ensures
            match state {
                SessionState::ReverseConnection(ReverseState::Finished(result)) => r
                    == Waiting::Over(result),
                _ => r is Pending,
            },
    {
        match state {
            SessionState::ReverseConnection(ReverseState::Finished(result)) => Waiting::Over(
                result,
            ),
            _ => Waiting::Pending,
        }
    }
}

/// Where a permit was given, no further one is given for the same node before the session
/// leaves the state of intent.
pub proof fn lemma_no_second_permit(
    before: NetworkModel,
    node: NodeView,
    target: SessionState,
    after: NetworkModel,
    permit: SessionPermit,
)
    requires
        before.has(node),
        target == SessionState::Outgoing(InitState::ConnectIntent) || target == incoming_target(
            before.nodes[node.index as int].state,
            InitState::ConnectIntent,
        ),
        locked(before, node, target, after, SessionLock::Permit(permit)),
    ensures
        !state_allowed(
            after.nodes[node.index as int].state,
            SessionState::Outgoing(InitState::ConnectIntent),
        ),
        !state_allowed(
            after.nodes[node.index as int].state,
            incoming_target(after.nodes[node.index as int].state, InitState::ConnectIntent),
        ),
{
}

/// A permit to connect is given in two states only. The other node is let in beside that while a
/// reverse connection is awaited, and only then is the permit a reverse one.
pub proof fn lemma_permit_states(
    before: NetworkModel,
    node: NodeView,
    after: NetworkModel,
    outgoing: SessionLock,
    after_incoming: NetworkModel,
    incoming: SessionLock,
)
    requires
        before.has(node),
        locked(
            before,
            node,
            SessionState::Outgoing(InitState::ConnectIntent),
            after,
            outgoing,
        ),
        locked(
            before,
            node,
            incoming_target(before.nodes[node.index as int].state, InitState::ConnectIntent),
            after_incoming,
            incoming,
        ),
    ensures
        outgoing is Permit <==> idle(before.nodes[node.index as int].state),
        incoming is Permit <==> idle(before.nodes[node.index as int].state)
            || before.nodes[node.index as int].state == SessionState::ReverseConnection(
            ReverseState::Awaiting,
        ),
        outgoing matches SessionLock::Permit(p) ==> !p.reverse,
        incoming matches SessionLock::Permit(p) ==> (p.reverse
            <==> before.nodes[node.index as int].state == SessionState::ReverseConnection(
            ReverseState::Awaiting,
        )),
{
}

/// A lock on one node leaves all other nodes alone.
pub proof fn lemma_permits_are_independent(
    before: NetworkModel,
    node: NodeView,
    target: SessionState,
    after: NetworkModel,
    r: SessionLock,
    other: NodeView,
)
    requires
        before.has(node),
        before.has(other),
        node.index != other.index,
        locked(before, node, target, after, r),
    ensures
        after.nodes[other.index as int] == before.nodes[other.index as int],
        after.has(other),
{
}

/// Asking for a node twice gives one entry, whatever addresses come with the second request.
pub proof fn lemma_guard_gives_one_entry(
    m: NetworkModel,
    node_id: NodeId,
    addrs: Seq<SocketAddr>,
    now: i64,
    other_addrs: Seq<SocketAddr>,
    later: i64,
)
    requires
        m.wf(),
        m.by_node_id.contains_key(node_id) || first_by_addr(m.by_addr, addrs) is None,
    ensures
        ({
            let (first, index) = m.guarded(node_id, addrs, now);
            first.guarded(node_id, other_addrs, later) == (first, index)
        }),
{
}

/// The entry of a node is the one known for its id, or else for the first of its addresses that is
/// known, or else a new one that is closed and is found by the id and by each address from then on.
/// Asking again gives the same entry.
pub proof fn lemma_guard_is_stable(
    m: NetworkModel,
    node_id: NodeId,
    addrs: Seq<SocketAddr>,
    now: i64,
    later: i64,
)
    requires
        m.nodes.len() < usize::MAX,
    ensures
        ({
            let (after, index) = m.guarded(node_id, addrs, now);
            &&& m.by_node_id.contains_key(node_id) ==> after == m && index
                == m.by_node_id[node_id]
            &&& !m.by_node_id.contains_key(node_id) ==> (first_by_addr(
                m.by_addr,
                addrs,
            ) matches Some(known) ==> after == m && index == known)
            &&& m.find(node_id, addrs) is None ==> {
                &&& index == m.nodes.len()
                &&& after.nodes == m.nodes.push(fresh_node(node_id, addrs, now))
                &&& after.nodes[index as int].state == SessionState::Closed
                &&& after.by_node_id.contains_key(node_id) && after.by_node_id[node_id] == index
                &&& forall|a: SocketAddr| #[trigger]
                    addrs.contains(a) ==> after.by_addr.contains_key(a) && after.by_addr[a]
                        == index
            }
            &&& after.guarded(node_id, addrs, later) == (after, index)
        }),
{
}

/// A node that was entered under an address is found by that address, whatever id comes with it.
pub proof fn lemma_guard_finds_by_address(
    m: NetworkModel,
    node_id: NodeId,
    addr: SocketAddr,
    now: i64,
    other_id: NodeId,
)
    requires
        m.wf(),
        !m.by_node_id.contains_key(node_id),
        !m.by_addr.contains_key(addr),
        !m.by_node_id.contains_key(other_id),
        other_id != node_id,
    ensures
        ({
            let (first, index) = m.guarded(node_id, seq![addr], now);
            first.find(other_id, seq![addr]) == Some(index)
        }),
{
    let addrs = seq![addr];
    assert(addrs[0] == addr);
    assert(addrs.skip(1) =~= Seq::empty());
    assert(first_by_addr(m.by_addr, addrs.skip(1)) is None);
    assert(addrs.contains(addr));
}

/// Once information about a node was taken over, all its ids and addresses lead to one entry.
pub proof fn lemma_update_unifies(m: NetworkModel, info: NodeInfoView, now: i64)
    requires
        m.wf(),
        m.consistent(ids_of(info.identities)),
    ensures
        forall|a: NodeId, b: NodeId|
            ids_of(info.identities).contains(a) && ids_of(info.identities).contains(b)
                ==> #[trigger] m.updated(info, now).by_node_id[a] == #[trigger] m.updated(
                info,
                now,
            ).by_node_id[b],
        forall|a: NodeId|
            ids_of(info.identities).contains(a) ==> #[trigger] m.updated(
                info,
                now,
            ).by_node_id.contains_key(a),
        m.updated(info, now).consistent(ids_of(info.identities)),
{
}

/// Information about a node leaves what other ids lead to alone.
pub proof fn lemma_update_keeps_others(m: NetworkModel, info: NodeInfoView, now: i64, other: NodeId)
    requires
        m.wf(),
        !ids_of(info.identities).contains(other),
        m.by_node_id.contains_key(other),
    ensures
        m.updated(info, now).by_node_id.contains_key(other),
        m.updated(info, now).by_node_id[other] == m.by_node_id[other],
{
}

/// A node that was removed is unknown under all ids that led to it, and no holder of an earlier
/// attempt to connect is current any more.
pub proof fn lemma_removed_is_unknown(m: NetworkModel, node_id: NodeId, snapshot: NodeSnapshot)
    requires
        m.wf(),
        m.by_node_id.contains_key(node_id),
        snapshot.index == m.by_node_id[node_id],
    ensures
        !m.without(node_id).by_node_id.contains_key(node_id),
        !m.without(node_id).is_current(snapshot),
{
}

/// A new permit makes the holder of the attempt before it outdated.
pub proof fn lemma_new_permit_retires_snapshot(
    before: NetworkModel,
    node: NodeView,
    target: SessionState,
    after: NetworkModel,
    permit: SessionPermit,
    snapshot: NodeSnapshot,
)
    requires
        before.has(node),
        before.is_current(snapshot),
        snapshot.index == node.index,
        locked(before, node, target, after, SessionLock::Permit(permit)),
    ensures
        !after.is_current(snapshot),
{
}

/// The permit of a handshake that came to its end without an error leaves the session
/// established, and the permit of a failed one leaves it open for a new attempt.
pub proof fn lemma_release_finishes(permit: SessionPermit, before: SessionState, last: SessionState)
    requires
        !permit.reverse,
        final_state_of(permit, last),
        permit.result matches Some(Ok(_)) ==> crate::session_state::ready(before),
        crate::session_state::connecting(before),
    ensures
        state_allowed(before, last),
        permit.result matches Some(Ok(session)) ==> last == SessionState::Established(session),
        !(permit.result matches Some(Ok(_))) ==> idle(last),
{
}

/// Someone who waits for a session hears of its end whatever that is: a permit that is given back
/// leaves no state in which waiting goes on.
pub proof fn lemma_waiters_learn_the_outcome(
    permit: SessionPermit,
    last: SessionState,
    alive: bool,
    r: Waiting<Result<SessionHandle, SessionError>>,
)
    requires
        !permit.reverse,
        final_state_of(permit, last),
        finish_outcome(last, alive, r),
    ensures
        r is Over,
        permit.result matches Some(Err(e)) ==> r == Waiting::Over(
            Err::<SessionHandle, SessionError>(e),
        ),
        permit.result matches Some(Ok(session)) && alive ==> r == Waiting::Over(
            Ok::<SessionHandle, SessionError>(permit.result->Some_0->Ok_0),
        ),
{
}

} // verus!
