//! Sessions with nodes, and the nodes that can be reached through them.
use vstd::prelude::*;
use vstd::string::*;

use crate::assoc::AssocMap;
use crate::error::{owned, SessionError};
use crate::metrics::{count_incoming, count_outgoing, CounterUpdate};
#[allow(unused_imports)]
use crate::metrics::{
    incoming_num_name, incoming_size_name, outgoing_num_name, outgoing_size_name,
};
use crate::model::{
    copy_list, identity_ids, list_contains, Identity, NodeId, SessionId, SlotId, SocketAddr,
    TransportType, FORWARD_SLOT_ID,
};
#[allow(unused_imports)]
use crate::model::ids_of;
#[allow(unused_imports)]
use crate::text::{decimal, push_decimal};

verus! {

/// Identity of a node: a default id and all ids including the default one.
pub struct NodeEntry<IdType> {
    pub default_id: IdType,
    pub identities: Vec<IdType>,
}

/// Mathematical content of a [`NodeEntry`].
#[verifier::ext_equal]
pub struct EntryModel<IdType> {
    pub default_id: IdType,
    pub identities: Seq<IdType>,
}

impl<IdType> View for NodeEntry<IdType> {
    type V = EntryModel<IdType>;

    open spec fn view(&self) -> EntryModel<IdType> {
        EntryModel { default_id: self.default_id, identities: self.identities@ }
    }
}

impl<IdType> EntryModel<IdType> {
    /// The default id is among all ids.
    pub open spec fn wf(self) -> bool {
        self.identities.contains(self.default_id)
    }
}

impl<IdType: Copy> NodeEntry<IdType> {
    /// A copy of the entry.
    pub fn duplicate(&self) -> (r: NodeEntry<IdType>)
        ensures
            r@ == self@,
    {
        let r = NodeEntry { default_id: self.default_id, identities: copy_list(&self.identities) };
        assert(r@ =~= self@);
        r
    }
}

/// The ids of an entry without their public keys.
pub open spec fn entry_ids(entry: EntryModel<Identity>) -> EntryModel<NodeId> {
    EntryModel { default_id: entry.default_id.node_id, identities: ids_of(entry.identities) }
}

impl NodeEntry<Identity> {
    /// The ids of the entry without their public keys.
    pub fn to_node_ids(&self) -> (r: NodeEntry<NodeId>)
        ensures
            r@ == entry_ids(self@),
    {
        let r = NodeEntry {
            default_id: self.default_id.node_id,
            identities: identity_ids(&self.identities),
        };
        assert(r@ =~= entry_ids(self@));
        r
    }
}

/// Which node is meant by a slot, and which slot a node has. Identifies forwarded packets.
pub struct AllowedForwards {
    slots: AssocMap<SlotId, NodeEntry<NodeId>>,
    nodes: AssocMap<NodeId, SlotId>,
}

/// Mathematical content of [`AllowedForwards`].
#[verifier::ext_equal]
pub struct ForwardsModel {
    pub slots: Map<SlotId, EntryModel<NodeId>>,
    pub nodes: Map<NodeId, SlotId>,
}

impl View for AllowedForwards {
    type V = ForwardsModel;

    closed spec fn view(&self) -> ForwardsModel {
        ForwardsModel {
            slots: self.slots@.map_values(|e: NodeEntry<NodeId>| e@),
            nodes: self.nodes@,
        }
    }
}

/// A map without the keys of a list.
pub open spec fn without_keys<V>(m: Map<NodeId, V>, keys: Seq<NodeId>) -> Map<NodeId, V> {
    Map::new(|k: NodeId| m.contains_key(k) && !keys.contains(k), |k: NodeId| m[k])
}

/// The same slot for each id of a list.
pub open spec fn all_to_slot(ids: Seq<NodeId>, slot: SlotId) -> Map<NodeId, SlotId> {
    Map::new(|k: NodeId| ids.contains(k), |k: NodeId| slot)
}

impl ForwardsModel {
    pub open spec fn empty() -> ForwardsModel {
        ForwardsModel { slots: Map::empty(), nodes: Map::empty() }
    }

    /// Slots and ids describe the same nodes, and no two nodes share an id.
    pub open spec fn wf(self) -> bool {
        &&& forall|id: NodeId|
            #![trigger self.nodes[id]]
            self.nodes.contains_key(id) ==> self.slots.contains_key(self.nodes[id])
                && self.slots[self.nodes[id]].identities.contains(id)
        &&& forall|slot: SlotId, id: NodeId|
            #![trigger self.slots[slot].identities.contains(id)]
            self.slots.contains_key(slot) && self.slots[slot].identities.contains(id)
                ==> self.nodes.contains_key(id) && self.nodes[id] == slot
        &&& forall|slot: SlotId|
            #![trigger self.slots[slot]]
            self.slots.contains_key(slot) ==> self.slots[slot].wf()
    }

    /// Default ids of all nodes.
    pub open spec fn defaults(self) -> Set<NodeId> {
        Set::new(
            |id: NodeId|
                exists|slot: SlotId| #[trigger]
                    self.slots.contains_key(slot) && self.slots[slot].default_id == id,
        )
    }

    /// All ids of all nodes.
    pub open spec fn members(self) -> Set<NodeId> {
        Set::new(
            |id: NodeId|
                exists|slot: SlotId| #[trigger]
                    self.slots.contains_key(slot) && self.slots[slot].identities.contains(id),
        )
    }

    /// The node that an id belongs to is taken out, with all its ids.
    pub open spec fn removed(self, node_id: NodeId) -> ForwardsModel {
        if !self.nodes.contains_key(node_id) {
            self
        } else {
            let slot = self.nodes[node_id];
            let rest = self.nodes.remove(node_id);
            if self.slots.contains_key(slot) {
                ForwardsModel {
                    slots: self.slots.remove(slot),
                    nodes: without_keys(rest, self.slots[slot].identities),
                }
            } else {
                ForwardsModel { nodes: rest, ..self }
            }
        }
    }

    /// The node that an id belongs to.
    pub open spec fn by_id(self, node_id: NodeId) -> Option<EntryModel<NodeId>> {
        if self.nodes.contains_key(node_id) && self.slots.contains_key(self.nodes[node_id]) {
            Some(self.slots[self.nodes[node_id]])
        } else {
            None
        }
    }

    pub open spec fn removed_by_slot(self, slot: SlotId) -> ForwardsModel {
        if self.slots.contains_key(slot) {
            self.removed(self.slots[slot].default_id)
        } else {
            self
        }
    }

    /// The nodes that any id of a list belongs to are taken out, one after the other.
    pub open spec fn removed_all(self, ids: Seq<NodeId>) -> ForwardsModel
        decreases ids.len(),
    {
        if ids.len() == 0 {
            self
        } else {
            self.removed_all(ids.drop_last()).removed(ids.last())
        }
    }

    /// A node is put on a slot. What was known of the slot and of the ids is dropped.
    pub open spec fn added(self, node: EntryModel<NodeId>, slot: SlotId) -> ForwardsModel {
        let cleared = self.removed_by_slot(slot).removed(node.default_id).removed_all(
            node.identities,
        );
        ForwardsModel {
            slots: cleared.slots.insert(slot, node),
            nodes: cleared.nodes.union_prefer_right(all_to_slot(node.identities, slot)),
        }
    }
}

impl AllowedForwards {
    /// No node can be reached.
    pub fn new() -> (r: AllowedForwards)
        ensures
            r@ == ForwardsModel::empty(),
            r@.wf(),
    {
        let r = AllowedForwards { slots: AssocMap::new(), nodes: AssocMap::new() };
        assert(r@ =~= ForwardsModel::empty());
        r
    }

    /// Puts a node on a slot. All that was known of the slot and of any of the ids is removed,
    /// so that the data stays consistent even where entries of different nodes overlap.
    pub fn add(&mut self, node: NodeEntry<NodeId>, slot: SlotId)
        ensures
            final(self)@ == old(self)@.added(node@, slot),
            old(self)@.wf() && node@.wf() ==> final(self)@.wf(),
    {
        let ghost before = self@;
        self.remove_by_slot(slot);
        self.remove(&node.default_id);
        let ghost base = self@;
        let mut i: usize = 0;
        assert(node.identities@.take(0) =~= Seq::empty());
        while i < node.identities.len()
            invariant
                0 <= i <= node.identities@.len(),
                self@ == base.removed_all(node.identities@.take(i as int)),
            decreases node.identities@.len() - i,
        {
            let id = node.identities[i];
            self.remove(&id);
            proof {
                let next = node.identities@.take(i + 1);
                assert(next.drop_last() =~= node.identities@.take(i as int));
                assert(next.last() == id);
            }
            i += 1;
        }
        assert(node.identities@.take(i as int) =~= node.identities@);
        let ghost cleared = self@;
        let mut j: usize = 0;
        assert(self.nodes@ =~= cleared.nodes.union_prefer_right(
            all_to_slot(node.identities@.take(0), slot),
        ));
        while j < node.identities.len()
            invariant
                0 <= j <= node.identities@.len(),
                self@.slots == cleared.slots,
                self.nodes@ == cleared.nodes.union_prefer_right(
                    all_to_slot(node.identities@.take(j as int), slot),
                ),
            decreases node.identities@.len() - j,
        {
            let id = node.identities[j];
            self.nodes.insert(id, slot);
            proof {
                let prev = node.identities@.take(j as int);
                let next = node.identities@.take(j + 1);
                assert(next =~= prev.push(id));
                assert forall|x: NodeId| next.contains(x) == (prev.contains(x) || x == id) by {
                    if prev.contains(x) {
                        let a = choose|a: int| 0 <= a < prev.len() && prev[a] == x;
                        assert(next[a] == x);
                    }
                    if x == id {
                        assert(next[j as int] == x);
                    }
                }
                assert(self.nodes@ =~= cleared.nodes.union_prefer_right(all_to_slot(next, slot)));
            }
            j += 1;
        }
        assert(node.identities@.take(j as int) =~= node.identities@);
        let ghost model = node@;
        self.slots.insert(slot, node);
        assert(self@.slots =~= cleared.slots.insert(slot, model));
        assert(self@ =~= before.added(model, slot));
        proof {
            if before.wf() && model.wf() {
                lemma_added_wf(before, model, slot);
            }
        }
    }

    /// Takes out the node that an id belongs to, with all its ids.
    pub fn remove(&mut self, node_id: &NodeId) -> (r: Option<NodeEntry<NodeId>>)
        ensures
            final(self)@ == old(self)@.removed(*node_id),
            match r {
                Some(entry) => old(self)@.by_id(*node_id) == Some(entry@),
                None => old(self)@.by_id(*node_id) is None,
            },
            old(self)@.wf() ==> final(self)@.wf(),
    {
        let ghost before = self@;
        proof {
            if before.wf() {
                lemma_removed_wf(before, *node_id);
            }
        }
        match self.nodes.remove(node_id) {
            Some(slot) => {
                match self.slots.remove(&slot) {
                    Some(entry) => {
                        let ghost rest = self.nodes@;
                        assert(self@.slots =~= before.slots.remove(slot));
                        let mut i: usize = 0;
                        assert(self.nodes@ =~= without_keys(rest, entry.identities@.take(0)));
                        while i < entry.identities.len()
                            invariant
                                0 <= i <= entry.identities@.len(),
                                self@.slots == before.slots.remove(slot),
                                self.nodes@ == without_keys(
                                    rest,
                                    entry.identities@.take(i as int),
                                ),
                            decreases entry.identities@.len() - i,
                        {
                            let id = entry.identities[i];
                            self.nodes.remove(&id);
                            proof {
                                let prev = entry.identities@.take(i as int);
                                let next = entry.identities@.take(i + 1);
                                assert(next =~= prev.push(id));
                                assert forall|x: NodeId|
                                    next.contains(x) == (prev.contains(x) || x == id) by {
                                    if prev.contains(x) {
                                        let a = choose|a: int|
                                            0 <= a < prev.len() && prev[a] == x;
                                        assert(next[a] == x);
                                    }
                                    if x == id {
                                        assert(next[i as int] == x);
                                    }
                                }
                                assert(self.nodes@ =~= without_keys(rest, next));
                            }
                            i += 1;
                        }
                        assert(entry.identities@.take(i as int) =~= entry.identities@);
                        Some(entry)
                    },
                    None => {
                        assert(self@.slots =~= before.slots);
                        None
                    },
                }
            },
            None => {
                assert(self@ =~= before);
                None
            },
        }
    }

    /// Takes out the node on a slot, and returns its default id.
    pub fn remove_by_slot(&mut self, slot: SlotId) -> (r: Option<NodeId>)
        ensures
            final(self)@ == old(self)@.removed_by_slot(slot),
            match r {
                Some(id) => old(self)@.slots.contains_key(slot) && id == old(
                    self,
                )@.slots[slot].default_id,
                None => !old(self)@.slots.contains_key(slot),
            },
            old(self)@.wf() ==> final(self)@.wf(),
    {
        let found: Option<NodeId> = match self.slots.get(&slot) {
            Some(node) => Some(node.default_id),
            None => None,
        };
        match found {
            Some(default_id) => {
                self.remove(&default_id);
                Some(default_id)
            },
            None => None,
        }
    }

    /// Node on a slot.
    pub fn get_by_slot(&self, slot: SlotId) -> (r: Option<NodeEntry<NodeId>>)
        ensures
            match r {
                Some(entry) => self@.slots.contains_key(slot) && entry@ == self@.slots[slot],
                None => !self@.slots.contains_key(slot),
            },
    {
        match self.slots.get(&slot) {
            Some(entry) => Some(entry.duplicate()),
            None => None,
        }
    }

    /// Slot of the node that an id belongs to.
    pub fn get_slot(&self, node_id: &NodeId) -> (r: Option<SlotId>)
        ensures
            match r {
                Some(slot) => self@.nodes.contains_key(*node_id) && slot == self@.nodes[*node_id],
                None => !self@.nodes.contains_key(*node_id),
            },
    {
        match self.nodes.get(node_id) {
            Some(slot) => Some(*slot),
            None => None,
        }
    }

    /// Node that an id belongs to.
    pub fn get_by_id(&self, node_id: &NodeId) -> (r: Option<NodeEntry<NodeId>>)
        ensures
            match r {
                Some(entry) => self@.by_id(*node_id) == Some(entry@),
                None => self@.by_id(*node_id) is None,
            },
    {
        match self.nodes.get(node_id) {
            Some(slot) => self.get_by_slot(*slot),
            None => None,
        }
    }

    /// All nodes, each once.
    pub fn list(&self) -> (r: Vec<NodeEntry<NodeId>>)
        ensures
            lists_nodes(self@, r@),
    {
        let keys = self.slots.keys();
        let mut r: Vec<NodeEntry<NodeId>> = Vec::new();
        let mut i: usize = 0;
        while i < keys.len()
            invariant
                0 <= i <= keys@.len(),
                keys@.to_set() == self.slots@.dom(),
                r@.len() == i,
                forall|j: int|
                    #![trigger r@[j]]
                    0 <= j < i ==> self@.slots.contains_key(keys@[j]) && r@[j]@
                        == self@.slots[keys@[j]],
            decreases keys@.len() - i,
        {
            let key = keys[i];
            proof {
                assert(keys@.contains(key));
                assert(self.slots@.dom().contains(key));
            }
            match self.slots.get(&key) {
                Some(entry) => {
                    r.push(entry.duplicate());
                },
                None => {},
            }
            i += 1;
        }
        proof {
            assert(keys@.no_duplicates() && keys@.to_set() == self@.slots.dom() && keys@.len()
                == r@.len());
            assert(lists_nodes(self@, r@)) by {
                assert(self@.slots.dom() =~= keys@.to_set());
            }
        }
        r
    }
}

/// Default ids of the nodes of a list.
pub fn default_ids(list: &Vec<NodeEntry<NodeId>>) -> (r: Vec<NodeId>)
    ensures
        r@ == list@.map_values(|e: NodeEntry<NodeId>| e.default_id),
{
    let mut r: Vec<NodeId> = Vec::new();
    let mut i: usize = 0;
    while i < list.len()
        invariant
            0 <= i <= list@.len(),
            r@ == list@.take(i as int).map_values(|e: NodeEntry<NodeId>| e.default_id),
        decreases list@.len() - i,
    {
        r.push(list[i].default_id);
        i += 1;
        assert(r@ =~= list@.take(i as int).map_values(|e: NodeEntry<NodeId>| e.default_id));
    }
    assert(list@.take(i as int) =~= list@);
    r
}

/// All ids of the nodes of a list, node by node.
pub open spec fn all_ids_of(list: Seq<NodeEntry<NodeId>>) -> Seq<NodeId>
    decreases list.len(),
{
    if list.len() == 0 {
        Seq::empty()
    } else {
        all_ids_of(list.drop_last()) + list.last().identities@
    }
}

/// All ids of the nodes of a list, node by node.
pub fn all_ids(list: &Vec<NodeEntry<NodeId>>) -> (r: Vec<NodeId>)
    ensures
        r@ == all_ids_of(list@),
{
    let mut r: Vec<NodeId> = Vec::new();
    let mut i: usize = 0;
    assert(list@.take(0) =~= Seq::empty());
    while i < list.len()
        invariant
            0 <= i <= list@.len(),
            r@ == all_ids_of(list@.take(i as int)),
        decreases list@.len() - i,
    {
        let ghost before = r@;
        let ids = &list[i].identities;
        let mut j: usize = 0;
        assert(ids@.take(0) =~= Seq::empty());
        while j < ids.len()
            invariant
                0 <= j <= ids@.len(),
                r@ == before + ids@.take(j as int),
            decreases ids@.len() - j,
        {
            r.push(ids[j]);
            j += 1;
            assert(r@ =~= before + ids@.take(j as int));
        }
        assert(ids@.take(j as int) =~= ids@);
        proof {
            let next = list@.take(i + 1);
            assert(next.drop_last() =~= list@.take(i as int));
            assert(next.last() == list@[i as int]);
        }
        i += 1;
    }
    assert(list@.take(i as int) =~= list@);
    r
}

proof fn lemma_all_ids_of(list: Seq<NodeEntry<NodeId>>)
    ensures
        forall|id: NodeId| #[trigger]
            all_ids_of(list).contains(id) <==> exists|j: int|
                0 <= j < list.len() && (#[trigger] list[j]).identities@.contains(id),
    decreases list.len(),
{
    if list.len() > 0 {
        let rest = list.drop_last();
        let last = list.last();
        lemma_all_ids_of(rest);
        assert forall|id: NodeId| #[trigger] all_ids_of(list).contains(id) <==> exists|j: int|
            0 <= j < list.len() && (#[trigger] list[j]).identities@.contains(id) by {
            let whole = all_ids_of(rest) + last.identities@;
            if whole.contains(id) {
                let i = choose|i: int| 0 <= i < whole.len() && whole[i] == id;
                if i < all_ids_of(rest).len() {
                    assert(all_ids_of(rest)[i] == id);
                    assert(all_ids_of(rest).contains(id));
                    let j = choose|j: int|
                        0 <= j < rest.len() && (#[trigger] rest[j]).identities@.contains(id);
                    assert(list[j].identities@.contains(id));
                } else {
                    assert(last.identities@[i - all_ids_of(rest).len()] == id);
                    assert(list[list.len() - 1].identities@.contains(id));
                }
            }
            if exists|j: int| 0 <= j < list.len() && (#[trigger] list[j]).identities@.contains(id) {
                let j = choose|j: int|
                    0 <= j < list.len() && (#[trigger] list[j]).identities@.contains(id);
                if j < rest.len() {
                    assert(rest[j].identities@.contains(id));
                    assert(all_ids_of(rest).contains(id));
                    let i = choose|i: int|
                        0 <= i < all_ids_of(rest).len() && all_ids_of(rest)[i] == id;
                    assert(whole[i] == id);
                } else {
                    let i = choose|i: int|
                        0 <= i < last.identities@.len() && last.identities@[i] == id;
                    assert(whole[all_ids_of(rest).len() + i] == id);
                }
            }
        }
    }
}

/// A list of all nodes has the default ids of all nodes, and all their ids.
pub proof fn lemma_listed_ids(m: ForwardsModel, list: Seq<NodeEntry<NodeId>>)
    requires
        lists_nodes(m, list),
    ensures
        list.map_values(|e: NodeEntry<NodeId>| e.default_id).to_set() == m.defaults(),
        all_ids_of(list).to_set() == m.members(),
{
    let slots = choose|slots: Seq<SlotId>|
        {
            &&& #[trigger] slots.no_duplicates()
            &&& slots.to_set() == m.slots.dom()
            &&& slots.len() == list.len()
            &&& forall|j: int|
                #![trigger list[j]]
                0 <= j < list.len() ==> list[j]@ == m.slots[slots[j]]
        };
    let defaults = list.map_values(|e: NodeEntry<NodeId>| e.default_id);
    assert forall|id: NodeId| defaults.to_set().contains(id) <==> m.defaults().contains(id) by {
        if defaults.contains(id) {
            let j = choose|j: int| 0 <= j < defaults.len() && defaults[j] == id;
            assert(list[j]@ == m.slots[slots[j]]);
            assert(slots.to_set().contains(slots[j]));
            assert(m.slots.contains_key(slots[j]));
        }
        if m.defaults().contains(id) {
            let slot = choose|slot: SlotId| #[trigger]
                m.slots.contains_key(slot) && m.slots[slot].default_id == id;
            assert(slots.to_set().contains(slot));
            let j = choose|j: int| 0 <= j < slots.len() && slots[j] == slot;
            assert(list[j]@ == m.slots[slot]);
            assert(defaults[j] == id);
        }
    }
    assert(defaults.to_set() =~= m.defaults());
    lemma_all_ids_of(list);
    assert forall|id: NodeId| all_ids_of(list).to_set().contains(id) <==> m.members().contains(
        id,
    ) by {
        if all_ids_of(list).contains(id) {
            let j = choose|j: int|
                0 <= j < list.len() && (#[trigger] list[j]).identities@.contains(id);
            assert(list[j]@ == m.slots[slots[j]]);
            assert(slots.to_set().contains(slots[j]));
            assert(m.slots.contains_key(slots[j]));
        }
        if m.members().contains(id) {
            let slot = choose|slot: SlotId| #[trigger]
                m.slots.contains_key(slot) && m.slots[slot].identities.contains(id);
            assert(slots.to_set().contains(slot));
            let j = choose|j: int| 0 <= j < slots.len() && slots[j] == slot;
            assert(list[j]@ == m.slots[slot]);
            assert(list[j].identities@.contains(id));
        }
    }
    assert(all_ids_of(list).to_set() =~= m.members());
}

/// The list holds the node of each slot once.
pub open spec fn lists_nodes(m: ForwardsModel, list: Seq<NodeEntry<NodeId>>) -> bool {
    exists|slots: Seq<SlotId>|
        {
            &&& #[trigger] slots.no_duplicates()
            &&& slots.to_set() == m.slots.dom()
            &&& slots.len() == list.len()
            &&& forall|j: int|
                #![trigger list[j]]
                0 <= j < list.len() ==> list[j]@ == m.slots[slots[j]]
        }
}

/// Taking a node out keeps slots and ids in step.
pub proof fn lemma_removed_wf(m: ForwardsModel, node_id: NodeId)
    requires
        m.wf(),
    ensures
        m.removed(node_id).wf(),
{
    if m.nodes.contains_key(node_id) {
        let slot = m.nodes[node_id];
        let after = m.removed(node_id);
        assert(m.slots.contains_key(slot));
        assert(m.slots[slot].identities.contains(node_id));
        assert forall|id: NodeId| #![trigger after.nodes[id]] after.nodes.contains_key(id) implies
            after.slots.contains_key(after.nodes[id])
            && after.slots[after.nodes[id]].identities.contains(id) by {
            assert(m.nodes.contains_key(id));
            assert(after.nodes[id] == m.nodes[id]);
            assert(m.slots[m.nodes[id]].identities.contains(id));
            if m.nodes[id] == slot {
                assert(m.slots[slot].identities.contains(id));
            }
        }
        assert forall|s: SlotId, id: NodeId|
            #![trigger after.slots[s].identities.contains(id)]
            after.slots.contains_key(s) && after.slots[s].identities.contains(id) implies
            after.nodes.contains_key(id) && after.nodes[id] == s by {
            assert(m.slots[s].identities.contains(id));
            assert(m.nodes[id] == s);
            if m.slots[slot].identities.contains(id) {
                assert(m.nodes[id] == slot);
            }
        }
        assert forall|s: SlotId| #![trigger after.slots[s]] after.slots.contains_key(s) implies
            after.slots[s].wf() by {
            assert(m.slots[s].wf());
        }
    }
}

/// A node that was taken out is unknown: its slot is free, and none of its ids has a slot.
pub proof fn lemma_removed_is_gone(m: ForwardsModel, node_id: NodeId)
    requires
        m.wf(),
        m.nodes.contains_key(node_id),
    ensures
        !m.removed(node_id).slots.contains_key(m.nodes[node_id]),
        forall|id: NodeId|
            m.slots[m.nodes[node_id]].identities.contains(id) ==> !#[trigger] m.removed(
                node_id,
            ).nodes.contains_key(id),
        m.removed(node_id).by_id(node_id) is None,
{
    assert(m.slots[m.nodes[node_id]].identities.contains(node_id));
}

/// Taking a node out leaves all other nodes alone.
pub proof fn lemma_removed_keeps_others(m: ForwardsModel, node_id: NodeId, slot: SlotId)
    requires
        m.wf(),
        m.slots.contains_key(slot),
        !m.slots[slot].identities.contains(node_id),
    ensures
        m.removed(node_id).slots.contains_key(slot),
        m.removed(node_id).slots[slot] == m.slots[slot],
        forall|id: NodeId|
            m.slots[slot].identities.contains(id) ==> m.removed(node_id).nodes.contains_key(id)
                && #[trigger] m.removed(node_id).nodes[id] == slot,
{
    if m.nodes.contains_key(node_id) {
        let gone = m.nodes[node_id];
        assert(m.slots[gone].identities.contains(node_id));
        assert forall|id: NodeId| m.slots[slot].identities.contains(id) implies m.removed(
            node_id,
        ).nodes.contains_key(id) && #[trigger] m.removed(node_id).nodes[id] == slot by {
            assert(m.nodes[id] == slot);
            if m.slots[gone].identities.contains(id) {
                assert(m.nodes[id] == gone);
            }
        }
    } else {
        assert forall|id: NodeId| m.slots[slot].identities.contains(id) implies m.removed(
            node_id,
        ).nodes.contains_key(id) && #[trigger] m.removed(node_id).nodes[id] == slot by {
            assert(m.nodes[id] == slot);
        }
    }
}

proof fn lemma_removed_all(m: ForwardsModel, ids: Seq<NodeId>)
    requires
        m.wf(),
    ensures
        m.removed_all(ids).wf(),
        forall|id: NodeId| #[trigger]
            ids.contains(id) ==> !m.removed_all(ids).nodes.contains_key(id),
        forall|id: NodeId| #[trigger]
            m.removed_all(ids).nodes.contains_key(id) ==> m.nodes.contains_key(id)
                && m.removed_all(ids).nodes[id] == m.nodes[id],
        forall|s: SlotId| #[trigger]
            m.removed_all(ids).slots.contains_key(s) ==> m.slots.contains_key(s)
                && m.removed_all(ids).slots[s] == m.slots[s],
    decreases ids.len(),
{
    if ids.len() > 0 {
        let prev = m.removed_all(ids.drop_last());
        lemma_removed_all(m, ids.drop_last());
        lemma_removed_wf(prev, ids.last());
        let after = prev.removed(ids.last());
        assert(!after.nodes.contains_key(ids.last())) by {
            if prev.nodes.contains_key(ids.last()) {
                lemma_removed_is_gone(prev, ids.last());
                assert(prev.slots[prev.nodes[ids.last()]].identities.contains(ids.last()));
            }
        }
        assert forall|id: NodeId| #[trigger] ids.contains(id) implies !after.nodes.contains_key(
            id,
        ) by {
            let i = choose|i: int| 0 <= i < ids.len() && ids[i] == id;
            if i < ids.len() - 1 {
                assert(ids.drop_last()[i] == id);
                assert(ids.drop_last().contains(id));
                assert(!prev.nodes.contains_key(id));
            }
        }
    }
}

/// Putting a node on a slot keeps slots and ids in step.
pub proof fn lemma_added_wf(m: ForwardsModel, node: EntryModel<NodeId>, slot: SlotId)
    requires
        m.wf(),
        node.wf(),
    ensures
        m.added(node, slot).wf(),
{
    let a = m.removed_by_slot(slot);
    if m.slots.contains_key(slot) {
        assert(m.slots[slot].wf());
        let d = m.slots[slot].default_id;
        assert(m.slots[slot].identities.contains(d));
        assert(m.nodes.contains_key(d) && m.nodes[d] == slot);
        lemma_removed_wf(m, d);
        lemma_removed_is_gone(m, d);
    }
    assert(a.wf());
    assert(!a.slots.contains_key(slot));
    let b = a.removed(node.default_id);
    lemma_removed_wf(a, node.default_id);
    assert(!b.slots.contains_key(slot));
    let c = b.removed_all(node.identities);
    lemma_removed_all(b, node.identities);
    assert(!c.slots.contains_key(slot));
    let after = m.added(node, slot);
    assert(after.slots == c.slots.insert(slot, node));
    assert forall|id: NodeId| #![trigger after.nodes[id]] after.nodes.contains_key(id) implies
        after.slots.contains_key(after.nodes[id])
        && after.slots[after.nodes[id]].identities.contains(id) by {
        if !node.identities.contains(id) {
            assert(c.nodes.contains_key(id));
            assert(after.nodes[id] == c.nodes[id]);
            assert(c.slots.contains_key(c.nodes[id]));
            assert(c.slots[c.nodes[id]].identities.contains(id));
        }
    }
    assert forall|s: SlotId, id: NodeId|
        #![trigger after.slots[s].identities.contains(id)]
        after.slots.contains_key(s) && after.slots[s].identities.contains(id) implies
        after.nodes.contains_key(id) && after.nodes[id] == s by {
        if s != slot {
            assert(c.slots[s].identities.contains(id));
            assert(c.nodes.contains_key(id) && c.nodes[id] == s);
            assert(!node.identities.contains(id));
        }
    }
    assert forall|s: SlotId| #![trigger after.slots[s]] after.slots.contains_key(s) implies
        after.slots[s].wf() by {
        if s != slot {
            assert(c.slots[s].wf());
        }
    }
}

/// A node that was put on a slot is found by the slot and by each of its ids.
pub proof fn lemma_added_is_found(m: ForwardsModel, node: EntryModel<NodeId>, slot: SlotId)
    ensures
        m.added(node, slot).slots.contains_key(slot),
        m.added(node, slot).slots[slot] == node,
        forall|id: NodeId| #[trigger]
            node.identities.contains(id) ==> m.added(node, slot).nodes.contains_key(id)
                && m.added(node, slot).nodes[id] == slot && m.added(node, slot).by_id(id) == Some(
                node,
            ),
{
}

/// Putting a node on a slot leaves nodes on other slots alone, unless they share an id with it.
pub proof fn lemma_added_keeps_others(
    m: ForwardsModel,
    node: EntryModel<NodeId>,
    slot: SlotId,
    other: SlotId,
)
    requires
        m.wf(),
        node.wf(),
        other != slot,
        m.slots.contains_key(other),
        forall|id: NodeId| #[trigger]
            node.identities.contains(id) ==> !m.slots[other].identities.contains(id),
    ensures
        m.added(node, slot).slots.contains_key(other),
        m.added(node, slot).slots[other] == m.slots[other],
{
    let a = m.removed_by_slot(slot);
    if m.slots.contains_key(slot) {
        assert(m.slots[slot].wf());
        let d = m.slots[slot].default_id;
        assert(m.slots[slot].identities.contains(d));
        assert(m.nodes[d] == slot);
        if m.slots[other].identities.contains(d) {
            assert(m.nodes[d] == other);
        }
        lemma_removed_keeps_others(m, d, other);
        lemma_removed_wf(m, d);
    }
    assert(node.identities.contains(node.default_id));
    lemma_removed_keeps_others(a, node.default_id, other);
    lemma_removed_wf(a, node.default_id);
    let b = a.removed(node.default_id);
    lemma_removed_all_keeps(b, node.identities, other);
}

proof fn lemma_removed_all_keeps(m: ForwardsModel, ids: Seq<NodeId>, other: SlotId)
    requires
        m.wf(),
        m.slots.contains_key(other),
        forall|id: NodeId| #[trigger]
            ids.contains(id) ==> !m.slots[other].identities.contains(id),
    ensures
        m.removed_all(ids).slots.contains_key(other),
        m.removed_all(ids).slots[other] == m.slots[other],
    decreases ids.len(),
{
    if ids.len() > 0 {
        let rest = ids.drop_last();
        assert forall|id: NodeId| #[trigger]
            rest.contains(id) implies !m.slots[other].identities.contains(id) by {
            let i = choose|i: int| 0 <= i < rest.len() && rest[i] == id;
            assert(ids[i] == id);
            assert(ids.contains(id));
        }
        lemma_removed_all_keeps(m, rest, other);
        lemma_removed_all(m, rest);
        assert(ids.contains(ids.last()));
        lemma_removed_keeps_others(m.removed_all(rest), ids.last(), other);
    }
}

/// Where a session goes to on the wire.
#[derive(Clone, Copy, Debug, PartialEq, Eq, Structural)]
pub struct RawSession {
    pub id: SessionId,
    pub remote: SocketAddr,
}

/// A session with a node. It can also carry packets for other nodes.
pub struct DirectSession {
    pub owner: NodeEntry<NodeId>,
    pub raw: RawSession,
    /// Nodes that packets can be forwarded to. For a relay server these are all nodes that were
    /// asked for. For a session between two nodes there are none.
    pub forwards: AllowedForwards,
    /// Whether the other party asked to hold packets back.
    pub forward_pause: bool,
}

/// Mathematical content of a [`DirectSession`].
#[verifier::ext_equal]
pub struct SessionModel {
    pub owner: EntryModel<NodeId>,
    pub raw: RawSession,
    pub forwards: ForwardsModel,
    pub forward_pause: bool,
}

impl View for DirectSession {
    type V = SessionModel;

    open spec fn view(&self) -> SessionModel {
        SessionModel {
            owner: self.owner@,
            raw: self.raw,
            forwards: self.forwards@,
            forward_pause: self.forward_pause,
        }
    }
}

/// A packet for a node, addressed within a session.
pub struct Forward {
    pub session_id: SessionId,
    pub slot: SlotId,
    pub reliable: bool,
    pub encrypted: bool,
    pub payload: Vec<u8>,
}

impl DirectSession {
    /// A session with a node. The id of the node must be among its identities.
    pub fn new(node_id: NodeId, identities: &Vec<Identity>, session: RawSession) -> (r: Result<
        DirectSession,
        String,
    >)
        ensures
            match r {
                Ok(s) => ids_of(identities@).contains(node_id) && s.owner@ == (EntryModel {
                    default_id: node_id,
                    identities: ids_of(identities@),
                }) && s.raw == session && s.forwards@ == ForwardsModel::empty()
                    && !s.forward_pause,
                Err(m) => !ids_of(identities@).contains(node_id) && m@
                    == "DirectSession constructor expects default id on identities list."@,
            },
    {
        let ids = identity_ids(identities);
        if !list_contains(&ids, &node_id) {
            return Err(
                owned("DirectSession constructor expects default id on identities list."),
            );
        }
        let owner = NodeEntry { default_id: node_id, identities: ids };
        assert(owner@ =~= (EntryModel { default_id: node_id, identities: ids_of(identities@) }));
        Ok(
            DirectSession {
                owner,
                raw: session,
                forwards: AllowedForwards::new(),
                forward_pause: false,
            },
        )
    }

    /// A session with a relay server, which has no identities.
    pub fn new_relay(node_id: NodeId, session: RawSession) -> (r: DirectSession)
        ensures
            r.owner@ == (EntryModel { default_id: node_id, identities: Seq::empty() }),
            r.raw == session,
            r.forwards@ == ForwardsModel::empty(),
            !r.forward_pause,
    {
        let owner: NodeEntry<NodeId> = NodeEntry { default_id: node_id, identities: Vec::new() };
        assert(owner@ =~= (EntryModel { default_id: node_id, identities: Seq::empty() }));
        DirectSession {
            owner,
            raw: session,
            forwards: AllowedForwards::new(),
            forward_pause: false,
        }
    }

    /// Slot under which a target can be reached: the owner directly, others by their own slot.
    pub open spec fn slot_for(&self, target: NodeId) -> Option<SlotId> {
        if self.owner.default_id == target {
            Some(FORWARD_SLOT_ID)
        } else if self.forwards@.nodes.contains_key(target) {
            Some(self.forwards@.nodes[target])
        } else {
            None
        }
    }

    /// Packet that carries a payload to a target, once packets are not held back.
    pub fn send(
        &self,
        target: NodeId,
        packet: Vec<u8>,
        transport: TransportType,
        encrypted: bool,
    ) -> (r: Result<Forward, SessionError>)
        ensures
            match r {
                Ok(f) => self.slot_for(target) == Some(f.slot) && f.session_id == self.raw.id
                    && f.reliable == !(transport is Unreliable) && f.encrypted == encrypted
                    && f.payload@ == packet@,
                Err(e) => self.slot_for(target) is None && (e matches SessionError::Internal(m)
                    && m@ == "Session with ["@ + self.owner.default_id.text()
                    + "] doesn't allow to forward packets for ["@ + target.text() + "]"@),
            },
    {
        let router_id = self.owner.default_id;
        let slot: SlotId = if router_id == target {
            FORWARD_SLOT_ID
        } else {
            match self.find_slot(&target) {
                Some(slot) => slot,
                None => {
                    let mut m = owned("Session with [");
                    router_id.push_text(&mut m);
                    m.append("] doesn't allow to forward packets for [");
                    target.push_text(&mut m);
                    m.append("]");
                    assert(m@ =~= "Session with ["@ + self.owner.default_id.text()
                        + "] doesn't allow to forward packets for ["@ + target.text() + "]"@);
                    return Err(SessionError::Internal(m));
                },
            }
        };
        let reliable = match transport {
            TransportType::Unreliable => false,
            TransportType::Reliable => true,
            TransportType::Transfer => true,
        };
        Ok(Forward { session_id: self.raw.id, slot, reliable, encrypted, payload: packet })
    }

    pub open spec fn not_found_suffix(&self) -> Seq<char> {
        " not found in session: "@ + self.raw.id.text() + " ("@ + self.owner.default_id.text()
            + ")"@
    }

    fn push_not_found(&self, m: &mut String)
        ensures
            final(m)@ == old(m)@ + self.not_found_suffix(),
    {
        let ghost before = m@;
        m.append(" not found in session: ");
        self.raw.id.push_text(m);
        m.append(" (");
        self.owner.default_id.push_text(m);
        m.append(")");
        assert(m@ =~= before + self.not_found_suffix());
    }

    /// Nothing of the session but the nodes that it forwards to differs.
    pub open spec fn same_but_forwards(&self, other: &DirectSession) -> bool {
        self.owner == other.owner && self.raw == other.raw && self.forward_pause
            == other.forward_pause
    }

    /// Stops forwarding to the node on a slot.
    pub fn remove_by_slot(&mut self, id: SlotId) -> (r: Result<NodeId, String>)
        ensures
            final(self).same_but_forwards(old(self)),
            final(self).forwards@ == old(self).forwards@.removed_by_slot(id),
            old(self).forwards@.wf() ==> final(self).forwards@.wf(),
            match r {
                Ok(node) => old(self).forwards@.slots.contains_key(id) && node == old(
                    self,
                ).forwards@.slots[id].default_id,
                Err(m) => !old(self).forwards@.slots.contains_key(id) && m@ == "Slot "@ + decimal(
                    id as nat,
                ) + old(self).not_found_suffix(),
            },
    {
        match self.forwards.remove_by_slot(id) {
            Some(node) => Ok(node),
            None => {
                let mut m = owned("Slot ");
                push_decimal(&mut m, id as u128);
                self.push_not_found(&mut m);
                assert(m@ =~= "Slot "@ + decimal(id as nat) + old(self).not_found_suffix());
                Err(m)
            },
        }
    }

    /// Stops forwarding to the node that an id belongs to.
    pub fn remove(&mut self, node_id: &NodeId) -> (r: Result<NodeEntry<NodeId>, String>)
        ensures
            final(self).same_but_forwards(old(self)),
            final(self).forwards@ == old(self).forwards@.removed(*node_id),
            old(self).forwards@.wf() ==> final(self).forwards@.wf(),
            match r {
                Ok(entry) => old(self).forwards@.by_id(*node_id) == Some(entry@),
                Err(m) => old(self).forwards@.by_id(*node_id) is None && m@ == "Node "@
                    + node_id.text() + old(self).not_found_suffix(),
            },
    {
        match self.forwards.remove(node_id) {
            Some(entry) => Ok(entry),
            None => {
                let mut m = owned("Node ");
                node_id.push_text(&mut m);
                self.push_not_found(&mut m);
                assert(m@ =~= "Node "@ + node_id.text() + old(self).not_found_suffix());
                Err(m)
            },
        }
    }

    /// All nodes that packets can be forwarded to.
    pub fn list(&self) -> (r: Vec<NodeEntry<NodeId>>)
        ensures
            lists_nodes(self.forwards@, r@),
    {
        self.forwards.list()
    }

    /// Starts forwarding to a node on a slot.
    pub fn register(&mut self, node: NodeEntry<NodeId>, slot: SlotId)
        ensures
            final(self).same_but_forwards(old(self)),
            final(self).forwards@ == old(self).forwards@.added(node@, slot),
            old(self).forwards@.wf() && node@.wf() ==> final(self).forwards@.wf(),
    {
        self.forwards.add(node, slot)
    }

    /// Node on a slot.
    pub fn get_by_slot(&self, slot: SlotId) -> (r: Option<NodeEntry<NodeId>>)
        ensures
            match r {
                Some(entry) => self.forwards@.slots.contains_key(slot) && entry@
                    == self.forwards@.slots[slot],
                None => !self.forwards@.slots.contains_key(slot),
            },
    {
        self.forwards.get_by_slot(slot)
    }

    /// Node that an id belongs to.
    pub fn get_by_id(&self, node_id: &NodeId) -> (r: Option<NodeEntry<NodeId>>)
        ensures
            match r {
                Some(entry) => self.forwards@.by_id(*node_id) == Some(entry@),
                None => self.forwards@.by_id(*node_id) is None,
            },
    {
        self.forwards.get_by_id(node_id)
    }

    /// Slot of the node that an id belongs to.
    pub fn find_slot(&self, node_id: &NodeId) -> (r: Option<SlotId>)
        ensures
            match r {
                Some(slot) => self.forwards@.nodes.contains_key(*node_id) && slot
                    == self.forwards@.nodes[*node_id],
                None => !self.forwards@.nodes.contains_key(*node_id),
            },
    {
        self.forwards.get_slot(node_id)
    }

    /// Holds packets back until forwarding is resumed.
    pub fn pause_forwarding(&mut self)
        ensures
            *final(self) == (DirectSession { forward_pause: true, ..*old(self) }),
    {
        self.forward_pause = true;
    }

    /// Lets packets through again.
    pub fn resume_forwarding(&mut self)
        ensures
            *final(self) == (DirectSession { forward_pause: false, ..*old(self) }),
    {
        self.forward_pause = false;
    }

    /// Whether a sender has to wait until forwarding is resumed. The other party pauses
    /// forwarding when it can't keep up, and until it can receive packets after a handshake.
    pub fn wait_for_resume(&self) -> (r: bool)
        ensures
            r == self.forward_pause,
    {
        self.forward_pause
    }

    /// Counters that a packet towards a node changes.
    pub fn record_outgoing(&self, target: NodeId, transport: TransportType, size: u64) -> (r: (
        CounterUpdate,
        CounterUpdate,
    ))
        ensures
            r.0.is(
                outgoing_size_name(transport),
                size,
                "TargetId"@,
                target,
                self.owner.default_id,
            ),
            r.1.is(
                outgoing_num_name(transport),
                1,
                "TargetId"@,
                target,
                self.owner.default_id,
            ),
    {
        count_outgoing(self.owner.default_id, target, transport, size)
    }

    /// Counters that a packet from a node changes.
    pub fn record_incoming(&self, source: NodeId, transport: TransportType, size: u64) -> (r: (
        CounterUpdate,
        CounterUpdate,
    ))
        ensures
            r.0.is(
                incoming_size_name(transport),
                size,
                "SourceId"@,
                source,
                self.owner.default_id,
            ),
            r.1.is(
                incoming_num_name(transport),
                1,
                "SourceId"@,
                source,
                self.owner.default_id,
            ),
    {
        count_incoming(self.owner.default_id, source, transport, size)
    }
}

} // verus!
