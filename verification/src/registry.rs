//! Nodes that the relay server was asked for, and the slots under which it forwards for them.
use vstd::prelude::*;
use vstd::string::*;

use crate::assoc::AssocMap;
use crate::direct_session::RawSession;
use crate::error::owned;
use crate::model::{NodeId, SlotId, FORWARD_SLOT_ID};
#[allow(unused_imports)]
use crate::text::{decimal, push_decimal};

verus! {

/// A node and the session through which data for it is sent. To change the session, the whole
/// entry has to be replaced.
#[derive(Clone, Copy, Debug, PartialEq, Eq, Structural)]
pub struct NodeEntry {
    pub id: NodeId,
    pub session: RawSession,
    pub slot: SlotId,
}

impl NodeEntry {
    /// Whether packets go directly to the node.
    pub fn is_p2p(&self) -> (r: bool)
        ensures
            r == (self.slot == FORWARD_SLOT_ID),
    {
        self.slot == FORWARD_SLOT_ID
    }
}

/// Keeps track of nodes for which the relay server was asked.
pub struct NodesRegistry {
    nodes: AssocMap<NodeId, NodeEntry>,
    slots: AssocMap<SlotId, NodeId>,
}

/// Mathematical content of a [`NodesRegistry`].
#[verifier::ext_equal]
pub struct RegistryModel {
    pub nodes: Map<NodeId, NodeEntry>,
    pub slots: Map<SlotId, NodeId>,
}

impl View for NodesRegistry {
    type V = RegistryModel;

    closed spec fn view(&self) -> RegistryModel {
        RegistryModel { nodes: self.nodes@, slots: self.slots@ }
    }
}

/// Text of a failed look for a node.
pub open spec fn node_not_found(id: NodeId) -> Seq<char> {
    "NodeEntry for node id "@ + id.text() + " not found."@
}

/// Text of a failed look for a slot.
pub open spec fn slot_not_found(slot: SlotId) -> Seq<char> {
    "NodeEntry for slot "@ + decimal(slot as nat) + " not found."@
}

impl RegistryModel {
    /// Without nodes.
    pub open spec fn empty() -> RegistryModel {
        RegistryModel { nodes: Map::empty(), slots: Map::empty() }
    }

    /// Entries are found under their own ids. The slot of direct sessions belongs to no node.
    pub open spec fn wf(self) -> bool {
        &&& forall|id: NodeId| #[trigger]
            self.nodes.contains_key(id) ==> self.nodes[id].id == id
        &&& !self.slots.contains_key(FORWARD_SLOT_ID)
    }

    /// The same with a slot that leads to a node.
    pub open spec fn with_slot(self, id: NodeId, slot: SlotId) -> RegistryModel {
        if slot == FORWARD_SLOT_ID {
            self
        } else {
            RegistryModel { slots: self.slots.insert(slot, id), ..self }
        }
    }

    /// The same with a node.
    pub open spec fn with_node(self, entry: NodeEntry) -> RegistryModel {
        RegistryModel { nodes: self.nodes.insert(entry.id, entry), ..self }.with_slot(
            entry.id,
            entry.slot,
        )
    }

    /// The same without a node and the slot of its entry.
    pub open spec fn without_node(self, id: NodeId) -> RegistryModel {
        if self.nodes.contains_key(id) {
            RegistryModel {
                nodes: self.nodes.remove(id),
                slots: self.slots.remove(self.nodes[id].slot),
            }
        } else {
            self
        }
    }

    /// Entry of a node.
    pub open spec fn node(self, id: NodeId) -> Option<NodeEntry> {
        if self.nodes.contains_key(id) {
            Some(self.nodes[id])
        } else {
            None
        }
    }

    /// Entry of the node to which a slot leads.
    pub open spec fn by_slot(self, slot: SlotId) -> Option<NodeEntry> {
        if self.slots.contains_key(slot) {
            self.node(self.slots[slot])
        } else {
            None
        }
    }

    /// Whether data for a node is sent through a session.
    pub open spec fn uses(self, id: NodeId, session: RawSession) -> bool {
        self.nodes.contains_key(id) && self.nodes[id].session.id == session.id
    }
}

fn node_error(id: NodeId) -> (r: String)
    ensures
        r@ == node_not_found(id),
{
    let mut text = owned("NodeEntry for node id ");
    id.push_text(&mut text);
    text.append(" not found.");
    assert(text@ =~= node_not_found(id));
    text
}

fn slot_error(slot: SlotId) -> (r: String)
    ensures
        r@ == slot_not_found(slot),
{
    let mut text = owned("NodeEntry for slot ");
    push_decimal(&mut text, slot as u128);
    text.append(" not found.");
    assert(text@ =~= slot_not_found(slot));
    text
}

impl Default for NodesRegistry {
    fn default() -> (r: NodesRegistry)
        ensures
            r@ == RegistryModel::empty(),
            r@.wf(),
    {
        NodesRegistry::new()
    }
}

impl NodesRegistry {
    /// Without nodes.
    pub fn new() -> (r: NodesRegistry)
        ensures
            r@ == RegistryModel::empty(),
            r@.wf(),
    {
        let r = NodesRegistry { nodes: AssocMap::new(), slots: AssocMap::new() };
        assert(r@ =~= RegistryModel::empty());
        r
    }

    /// Adds a node. An entry that the node had is replaced.
    pub fn add_node(&mut self, node_id: NodeId, session: RawSession, slot: SlotId) -> (r: NodeEntry)
        requires
            old(self)@.wf(),
        ensures
            final(self)@.wf(),
            r == (NodeEntry { id: node_id, session, slot }),
            final(self)@ == old(self)@.with_node(r),
    {
        let node = NodeEntry { id: node_id, session, slot };
        self.nodes.insert(node_id, node);
        if slot != FORWARD_SLOT_ID {
            self.slots.insert(slot, node_id);
        }
        assert(self@ =~= old(self)@.with_node(node));
        node
    }

    /// Ids of all nodes, each once.
    pub fn list_nodes(&self) -> (r: Vec<NodeId>)
        ensures
            r@.no_duplicates(),
            r@.to_set() == self@.nodes.dom(),
    {
        self.nodes.keys()
    }

    /// Lets one more slot lead to a node.
    pub fn add_slot_for_node(&mut self, node_id: NodeId, slot: SlotId)
        requires
            old(self)@.wf(),
        ensures
            final(self)@.wf(),
            final(self)@ == old(self)@.with_slot(node_id, slot),
    {
        if slot != FORWARD_SLOT_ID {
            self.slots.insert(slot, node_id);
        }
    }

    /// Ids of the nodes for which data is sent through a session, each once.
    pub fn nodes_using_session(&self, session: RawSession) -> (r: Vec<NodeId>)
        requires
            self@.wf(),
        ensures
            r@.no_duplicates(),
            forall|id: NodeId| #[trigger] r@.contains(id) <==> self@.uses(id, session),
    {
        let all = self.nodes.keys();
        let mut found: Vec<NodeId> = Vec::new();
        let mut i: usize = 0;
        while i < all.len()
            invariant
                0 <= i <= all@.len(),
                all@.no_duplicates(),
                all@.to_set() == self@.nodes.dom(),
                self@.wf(),
                found@.no_duplicates(),
                forall|id: NodeId| #[trigger]
                    found@.contains(id) <==> all@.take(i as int).contains(id) && self@.uses(
                        id,
                        session,
                    ),
            decreases all@.len() - i,
        {
            let id = all[i];
            let ghost before = found@;
            let ghost seen = all@.take(i as int);
            assert(all@.take(i + 1) =~= seen.push(id));
            assert(!seen.contains(id)) by {
                if seen.contains(id) {
                    let k = choose|k: int| 0 <= k < seen.len() && seen[k] == id;
                    assert(all@[k] == all@[i as int]);
                }
            }
            proof {
                crate::assoc::lemma_contains_push(seen, id);
            }
            assert(all@.to_set().contains(all@[i as int]));
            match self.nodes.get(&id) {
                Some(entry) => {
                    if entry.session.id == session.id {
                        proof {
                            assert(!before.contains(id));
                            crate::assoc::lemma_contains_push(before, id);
                        }
                        found.push(id);
                    }
                },
                None => {},
            }
            i += 1;
        }
        assert(all@.take(all@.len() as int) =~= all@);
        assert forall|id: NodeId| found@.contains(id) == #[trigger] self@.uses(id, session) by {
            if self@.uses(id, session) {
                assert(all@.to_set().contains(id));
            }
        }
        found
    }

    /// Entry of a node.
    pub fn resolve_node(&self, node: NodeId) -> (r: Result<NodeEntry, String>)
        ensures
            match r {
                Ok(entry) => self@.node(node) == Some(entry),
                Err(text) => self@.node(node) is None && text@ == node_not_found(node),
            },
    {
        match self.nodes.get(&node) {
            Some(entry) => Ok(*entry),
            None => Err(node_error(node)),
        }
    }

    /// Entry of the node to which a slot leads. The error tells what was not found.
    pub fn resolve_slot(&self, slot: SlotId) -> (r: Result<NodeEntry, String>)
        ensures
            match r {
                Ok(entry) => self@.by_slot(slot) == Some(entry),
                Err(text) => self@.by_slot(slot) is None && text@ == if self@.slots.contains_key(
                    slot,
                ) {
                    node_not_found(self@.slots[slot])
                } else {
                    slot_not_found(slot)
                },
            },
    {
        match self.slots.get(&slot) {
            Some(id) => self.resolve_node(*id),
            None => Err(slot_error(slot)),
        }
    }

    /// Entry of a node.
    pub fn get_node(&self, node: NodeId) -> (r: Result<NodeEntry, String>)
        ensures
            match r {
                Ok(entry) => self@.node(node) == Some(entry),
                Err(text) => self@.node(node) is None && text@ == node_not_found(node),
            },
    {
        self.resolve_node(node)
    }

    /// Entry of the node to which a slot leads. The error speaks of the slot alone.
    pub fn get_node_by_slot(&self, slot: SlotId) -> (r: Result<NodeEntry, String>)
        ensures
            match r {
                Ok(entry) => self@.by_slot(slot) == Some(entry),
                Err(text) => self@.by_slot(slot) is None && text@ == slot_not_found(slot),
            },
    {
        match self.resolve_slot(slot) {
            Ok(entry) => Ok(entry),
            Err(_) => Err(slot_error(slot)),
        }
    }

    /// Takes out a node and the slot of its entry.
    pub fn remove_node(&mut self, node_id: NodeId)
        requires
            old(self)@.wf(),
        ensures
            final(self)@.wf(),
            final(self)@ == old(self)@.without_node(node_id),
    {
        match self.nodes.remove(&node_id) {
            Some(entry) => {
                self.slots.remove(&entry.slot);
            },
            None => {},
        }
        assert(self@ =~= old(self)@.without_node(node_id));
    }
}

/// A node that was added is found, and through its slot as well unless packets go to it directly.
pub proof fn lemma_added_node_is_found(m: RegistryModel, entry: NodeEntry)
    ensures
        m.with_node(entry).node(entry.id) == Some(entry),
        entry.slot != FORWARD_SLOT_ID ==> m.with_node(entry).by_slot(entry.slot) == Some(entry),
{
}

/// A node that was removed is found neither by its id nor through any slot, and other nodes are
/// still found by their ids.
pub proof fn lemma_removed_node_is_gone(m: RegistryModel, id: NodeId, slot: SlotId, other: NodeId)
    requires
        m.wf(),
    ensures
        m.without_node(id).node(id) is None,
        m.without_node(id).by_slot(slot) matches Some(entry) ==> entry.id != id,
        other != id ==> m.without_node(id).node(other) == m.node(other),
{
}

/// The slot of direct sessions leads to no node.
pub proof fn lemma_direct_slot_leads_nowhere(m: RegistryModel)
    requires
        m.wf(),
    ensures
        m.by_slot(FORWARD_SLOT_ID) is None,
{
}

} // verus!
