//! Promises about broadcasts and neighbours.
use vstd::prelude::*;

use crate::assoc::lemma_contains_push;
use crate::client::{
    at_most, broadcast_to_neighbours, complete_targets, completed, distinct, lost, owner_ids,
    readable_ids, sockets_of, Client,
};
use crate::model::{NodeId, SessionHandle};
use crate::session_layer::LayerModel;

verus! {

/// A list has the elements of two others, and no more.
pub open spec fn holds(r: Seq<NodeId>, a: Seq<NodeId>, b: Seq<NodeId>) -> bool {
    forall|id: NodeId| #[trigger] r.contains(id) <==> a.contains(id) || b.contains(id)
}

proof fn lemma_filled(targets: Seq<NodeId>, neighbours: Seq<NodeId>, count: u32)
    ensures
        ({
            let r = completed(targets, neighbours, count);
            &&& r.len() >= targets.len()
            &&& r.take(targets.len() as int) == targets
            &&& targets.len() >= count ==> r == targets
            &&& targets.len() <= count ==> r.len() <= count
            &&& targets.no_duplicates() ==> r.no_duplicates()
            &&& forall|id: NodeId| #[trigger]
                r.contains(id) ==> targets.contains(id) || neighbours.contains(id)
            &&& r.len() >= count || forall|id: NodeId| #[trigger]
                neighbours.contains(id) ==> r.contains(id)
            &&& exists|k: int|
                0 <= k <= neighbours.len() && holds(r, targets, #[trigger] neighbours.take(k))
        }),
    decreases neighbours.len(),
{
    let r = completed(targets, neighbours, count);
    if neighbours.len() == 0 || targets.len() >= count {
        assert(r.take(targets.len() as int) =~= targets);
        assert(neighbours.take(0) =~= Seq::empty());
        assert(holds(r, targets, neighbours.take(0)));
    } else {
        let rest = neighbours.skip(1);
        let first = neighbours[0];
        let next = if targets.contains(first) {
            targets
        } else {
            targets.push(first)
        };
        lemma_filled(next, rest, count);
        lemma_contains_push(targets, first);
        assert(neighbours =~= seq![first] + rest);
        assert forall|id: NodeId| neighbours.contains(id) <==> id == first || rest.contains(
            id,
        ) by {
            if neighbours.contains(id) {
                let i = choose|i: int| 0 <= i < neighbours.len() && neighbours[i] == id;
                if i > 0 {
                    assert(rest[i - 1] == id);
                }
            }
            if rest.contains(id) {
                let i = choose|i: int| 0 <= i < rest.len() && rest[i] == id;
                assert(neighbours[i + 1] == id);
            }
            assert(neighbours[0] == first);
        }
        assert(r.take(targets.len() as int) =~= targets) by {
            assert forall|i: int| 0 <= i < targets.len() implies r[i] == targets[i] by {
                assert(r.take(next.len() as int)[i] == next[i]);
            }
        }
        assert(r.contains(first)) by {
            if targets.contains(first) {
                let i = choose|i: int| 0 <= i < targets.len() && targets[i] == first;
                assert(r.take(next.len() as int)[i] == first);
                assert(r[i] == first);
            } else {
                assert(r.take(next.len() as int)[next.len() - 1] == first);
                assert(r[next.len() - 1] == first);
            }
        }
        let k = choose|k: int|
            0 <= k <= rest.len() && holds(r, next, #[trigger] rest.take(k));
        assert(neighbours.take(k + 1) =~= seq![first] + rest.take(k));
        assert forall|id: NodeId| #[trigger] r.contains(id) <==> targets.contains(id)
            || neighbours.take(k + 1).contains(id) by {
            let longer = neighbours.take(k + 1);
            if longer.contains(id) {
                let i = choose|i: int| 0 <= i < longer.len() && longer[i] == id;
                if i > 0 {
                    assert(rest.take(k)[i - 1] == id);
                }
            }
            if rest.take(k).contains(id) {
                let i = choose|i: int| 0 <= i < rest.take(k).len() && rest.take(k)[i] == id;
                assert(longer[i + 1] == id);
            }
            assert(longer[0] == first);
        }
        assert(holds(r, targets, neighbours.take(k + 1)));
    }
}

/// A broadcast that has too few nodes is filled up with neighbours: all nodes that it had stay, in
/// front, only neighbours come in, the first ones first and nobody twice, until there are enough
/// or no neighbour is left. One that has enough nodes stays as it is.
pub proof fn law_broadcast_is_filled_up(
    targets: Vec<NodeId>,
    neighbours: &Vec<NodeId>,
    count: u32,
    r: Vec<NodeId>,
)
    requires
        call_ensures(complete_targets, (targets, neighbours, count), r),
    ensures
        targets@ == r@.take(targets@.len() as int),
        targets@.len() <= r@.len(),
        targets@.len() >= count ==> r@ == targets@,
        targets@.len() <= count ==> r@.len() <= count,
        targets@.no_duplicates() ==> r@.no_duplicates(),
        forall|id: NodeId| #[trigger]
            r@.contains(id) ==> targets@.contains(id) || neighbours@.contains(id),
        r@.len() >= count || forall|id: NodeId| #[trigger]
            neighbours@.contains(id) ==> r@.contains(id),
        exists|k: int|
            0 <= k <= neighbours@.len() && holds(r@, targets@, #[trigger] neighbours@.take(k)),
{
    lemma_filled(targets@, neighbours@, count);
}

/// The nodes that a broadcast is filled up with are the neighbours that the relay server named.
/// Without an answer there is no broadcast.
pub proof fn law_broadcast_needs_an_answer(
    targets: Vec<NodeId>,
    neighbours: Result<Vec<NodeId>, String>,
    count: u32,
    r: Result<Vec<NodeId>, String>,
)
    requires
        call_ensures(broadcast_to_neighbours, (targets, neighbours, count), r),
    ensures
        r is Ok <==> neighbours is Ok,
        r matches Ok(all) ==> {
            let named = neighbours->Ok_0@;
            &&& all@.take(targets@.len() as int) == targets@
            &&& targets@.no_duplicates() ==> all@.no_duplicates()
            &&& targets@.len() <= count ==> all@.len() <= count
            &&& forall|id: NodeId| #[trigger]
                all@.contains(id) ==> targets@.contains(id) || named.contains(id)
            &&& all@.len() >= count || forall|id: NodeId| #[trigger]
                named.contains(id) ==> all@.contains(id)
        },
{
    if let Ok(ids) = neighbours {
        lemma_filled(targets@, ids@, count);
    }
}

/// Whether a session of a list belongs to a node, and not to the relay server.
pub open spec fn belongs_to_node(m: LayerModel, h: SessionHandle) -> bool {
    m.sessions.contains_key(h) && m.sessions[h].owner.default_id != (NodeId { high: 0, low: 0 })
}

proof fn lemma_owners(m: LayerModel, order: Seq<SessionHandle>)
    ensures
        owner_ids(m, order).len() <= order.len(),
        forall|id: NodeId| #[trigger]
            owner_ids(m, order).contains(id) <==> exists|i: int|
                0 <= i < order.len() && belongs_to_node(m, #[trigger] order[i])
                    && m.sessions[order[i]].owner.default_id == id,
        (forall|i: int, j: int|
            0 <= i < j < order.len() && belongs_to_node(m, #[trigger] order[i]) && belongs_to_node(
                m,
                #[trigger] order[j],
            ) ==> m.sessions[order[i]].owner.default_id != m.sessions[order[j]].owner.default_id)
            ==> owner_ids(m, order).no_duplicates(),
    decreases order.len(),
{
    if order.len() > 0 {
        let rest = order.drop_last();
        let h = order.last();
        let before = owner_ids(m, rest);
        lemma_owners(m, rest);
        lemma_contains_push(before, m.sessions[h].owner.default_id);
        assert forall|id: NodeId| #[trigger] owner_ids(m, order).contains(id) <==> exists|i: int|
            0 <= i < order.len() && belongs_to_node(m, #[trigger] order[i])
                && m.sessions[order[i]].owner.default_id == id by {
            if owner_ids(m, order).contains(id) {
                if before.contains(id) {
                    let i = choose|i: int|
                        0 <= i < rest.len() && belongs_to_node(m, #[trigger] rest[i])
                            && m.sessions[rest[i]].owner.default_id == id;
                    assert(order[i] == rest[i]);
                } else {
                    assert(order[order.len() - 1] == h);
                }
            }
            if exists|i: int|
                0 <= i < order.len() && belongs_to_node(m, #[trigger] order[i])
                    && m.sessions[order[i]].owner.default_id == id {
                let i = choose|i: int|
                    0 <= i < order.len() && belongs_to_node(m, #[trigger] order[i])
                        && m.sessions[order[i]].owner.default_id == id;
                if i < rest.len() {
                    assert(rest[i] == order[i]);
                }
            }
        }
        if forall|i: int, j: int|
            0 <= i < j < order.len() && belongs_to_node(m, #[trigger] order[i]) && belongs_to_node(
                m,
                #[trigger] order[j],
            ) ==> m.sessions[order[i]].owner.default_id != m.sessions[order[j]].owner.default_id {
            assert forall|i: int, j: int|
                0 <= i < j < rest.len() && belongs_to_node(m, #[trigger] rest[i])
                    && belongs_to_node(m, #[trigger] rest[j]) implies m.sessions[rest[i]].owner.default_id
                != m.sessions[rest[j]].owner.default_id by {
                assert(order[i] == rest[i] && order[j] == rest[j]);
            }
            assert(before.no_duplicates());
            if belongs_to_node(m, h) {
                let id = m.sessions[h].owner.default_id;
                if before.contains(id) {
                    let i = choose|i: int|
                        0 <= i < rest.len() && belongs_to_node(m, #[trigger] rest[i])
                            && m.sessions[rest[i]].owner.default_id == id;
                    assert(order[i] == rest[i]);
                    assert(order[order.len() - 1] == h);
                }
            }
        }
    }
}

proof fn lemma_each_once(ids: Seq<NodeId>)
    ensures
        distinct(ids).no_duplicates(),
        distinct(ids).len() <= ids.len(),
        forall|id: NodeId| #[trigger] distinct(ids).contains(id) <==> ids.contains(id),
        ids.no_duplicates() ==> distinct(ids) == ids,
    decreases ids.len(),
{
    if ids.len() > 0 {
        let rest = ids.drop_last();
        lemma_each_once(rest);
        assert(ids =~= rest.push(ids.last()));
        lemma_contains_push(rest, ids.last());
        lemma_contains_push(distinct(rest), ids.last());
        if ids.no_duplicates() {
            assert(rest.no_duplicates()) by {
                assert forall|i: int, j: int| 0 <= i < rest.len() && 0 <= j < rest.len() && i
                    != j implies rest[i] != rest[j] by {
                    assert(ids[i] != ids[j]);
                }
            }
            if rest.contains(ids.last()) {
                let i = choose|i: int| 0 <= i < rest.len() && rest[i] == ids.last();
                assert(ids[i] == ids[ids.len() - 1]);
            }
        }
    }
}

/// A broadcast over sessions goes to nodes that these sessions belong to, once to each, never to
/// the relay server and never to more than asked for. It leaves out a node only if it goes to
/// enough others: where no two sessions belong to one node, it goes to as many as asked for or to
/// all, and the first sessions of the list count first.
pub proof fn law_broadcast_goes_to_connected_nodes(
    layer: &crate::session_layer::SessionLayer,
    sessions: &Vec<SessionHandle>,
    count: u32,
    r: Vec<NodeId>,
)
    requires
        call_ensures(
            crate::session_layer::SessionLayer::pick_targets,
            (layer, sessions, count),
            r,
        ),
    ensures
        r@.no_duplicates(),
        r@.len() <= count,
        forall|id: NodeId| #[trigger]
            r@.contains(id) ==> exists|i: int|
                0 <= i < sessions@.len() && belongs_to_node(layer@, #[trigger] sessions@[i])
                    && layer@.sessions[sessions@[i]].owner.default_id == id,
        sessions@.len() <= count ==> forall|i: int|
            0 <= i < sessions@.len() && belongs_to_node(layer@, #[trigger] sessions@[i])
                ==> r@.contains(layer@.sessions[sessions@[i]].owner.default_id),
        (forall|i: int, j: int|
            0 <= i < j < sessions@.len() && belongs_to_node(layer@, #[trigger] sessions@[i])
                && belongs_to_node(layer@, #[trigger] sessions@[j])
                ==> layer@.sessions[sessions@[i]].owner.default_id
                != layer@.sessions[sessions@[j]].owner.default_id) ==> (r@.len() == count
            || forall|i: int|
            0 <= i < sessions@.len() && belongs_to_node(layer@, #[trigger] sessions@[i])
                ==> r@.contains(layer@.sessions[sessions@[i]].owner.default_id)),
        sessions@.len() > 0 && count > 0 && belongs_to_node(layer@, sessions@[0]) ==> r@.contains(
            layer@.sessions[sessions@[0]].owner.default_id,
        ),
{
    let m = layer@;
    let owners = owner_ids(m, sessions@);
    let few = at_most(owners, count as nat);
    lemma_owners(m, sessions@);
    lemma_each_once(few);
    assert forall|id: NodeId| few.contains(id) implies owners.contains(id) by {
        let i = choose|i: int| 0 <= i < few.len() && few[i] == id;
        assert(owners[i] == id);
    }
    if sessions@.len() > 0 && belongs_to_node(m, sessions@[0]) {
        lemma_first_owner(m, sessions@);
        if count > 0 {
            assert(few[0] == owners[0]);
            assert(few.contains(owners[0]));
        }
    }
    assert forall|i: int| 0 <= i < sessions@.len() && belongs_to_node(
        m,
        #[trigger] sessions@[i],
    ) implies owners.contains(m.sessions[sessions@[i]].owner.default_id) by {}
    if owners.no_duplicates() {
        assert(few.no_duplicates()) by {
            assert forall|i: int, j: int| 0 <= i < few.len() && 0 <= j < few.len() && i
                != j implies few[i] != few[j] by {
                assert(owners[i] != owners[j]);
            }
        }
    }
}

proof fn lemma_first_owner(m: LayerModel, order: Seq<SessionHandle>)
    requires
        order.len() > 0,
        belongs_to_node(m, order[0]),
    ensures
        owner_ids(m, order).len() > 0,
        owner_ids(m, order)[0] == m.sessions[order[0]].owner.default_id,
    decreases order.len(),
{
    if order.len() > 1 {
        assert(order.drop_last()[0] == order[0]);
        lemma_first_owner(m, order.drop_last());
    } else {
        assert(order.drop_last() =~= Seq::empty());
        assert(owner_ids(m, order.drop_last()) =~= Seq::empty());
    }
}

/// Reading a list of ids is reading its parts, one after the other: what could be read stays, in
/// order, and what could not is left out.
pub proof fn law_ids_are_read_in_order(a: Seq<Option<NodeId>>, b: Seq<Option<NodeId>>, id: NodeId)
    ensures
        readable_ids(a + b) == readable_ids(a) + readable_ids(b),
        readable_ids(seq![Some(id)]) == seq![id],
        readable_ids(seq![None]) == Seq::<NodeId>::empty(),
    decreases b.len(),
{
    assert(seq![Some(id)].drop_last() =~= Seq::empty());
    assert(seq![None::<NodeId>].drop_last() =~= Seq::empty());
    assert(readable_ids(Seq::empty()) =~= Seq::empty());
    assert(readable_ids(seq![Some(id)]) =~= seq![id]);
    if b.len() == 0 {
        assert(a + b =~= a);
        assert(readable_ids(a + b) =~= readable_ids(a) + readable_ids(b));
    } else {
        law_ids_are_read_in_order(a, b.drop_last(), id);
        assert((a + b).drop_last() =~= a + b.drop_last());
        assert((a + b).last() == b.last());
        assert(readable_ids(a + b) =~= readable_ids(a) + readable_ids(b));
    }
}

/// What the relay server named is given back, in its order and as many as wanted, for as long as
/// it is not too old. Then, or where more are wanted than it named, it has to be asked again. Those
/// it no longer names are reported once each.
pub proof fn law_neighbours_are_remembered(
    client: &mut Client,
    ids: &Vec<Option<NodeId>>,
    wanted: u32,
    now: i64,
    r: (Vec<NodeId>, Vec<NodeId>),
    after: &Client,
    count: u32,
    ttl: u64,
    later: i64,
    known: Option<Vec<NodeId>>,
)
    requires
        call_ensures(Client::neighbours_received, (client, ids, wanted, now), r),
        *after == *final(client),
        call_ensures(Client::neighbours, (after, count, ttl, later), known),
    ensures
        ({
            let named = readable_ids(ids@);
            &&& r.0@.len() <= wanted
            &&& r.0@ == named.take(r.0@.len() as int)
            &&& r.0@.len() == wanted || r.0@ == named
            &&& r.1@.no_duplicates()
            &&& forall|id: NodeId| #[trigger]
                r.1@.contains(id) <==> old(client).neighbours is Some && old(
                    client,
                ).neighbours->Some_0.nodes@.contains(id) && !named.contains(id)
            &&& known is Some <==> named.len() >= count && later < now + ttl
            &&& known matches Some(list) ==> list@ == named.take(count as int)
        }),
{
    let named = readable_ids(ids@);
    assert(r.0@ =~= named.take(r.0@.len() as int));
    if let Some(before) = old(client).neighbours {
        lemma_lost_once(before.nodes@, named);
        assert forall|id: NodeId| #[trigger] r.1@.contains(id) <==> before.nodes@.contains(id)
            && !named.contains(id) by {
            crate::client::lemma_lost_neighbours(before.nodes@, named, id);
        }
    }
    if let Some(list) = known {
        assert(list@ =~= named.take(count as int));
    }
}

proof fn lemma_lost_once(before: Seq<NodeId>, now: Seq<NodeId>)
    ensures
        lost(before, now).no_duplicates(),
    decreases before.len(),
{
    if before.len() > 0 {
        lemma_lost_once(before.drop_last(), now);
    }
}

/// The sockets of a node are exactly those whose remote address is the one of the node, in order.
pub proof fn law_sockets_belong_to_the_address(addrs: Seq<Option<u128>>, address: u128)
    requires
        addrs.len() <= usize::MAX,
    ensures
        ({
            let found = sockets_of(addrs, address);
            &&& forall|i: int| 0 <= i < found.len() ==> (#[trigger] found[i]) < addrs.len()
                && addrs[found[i] as int] == Some(address)
            &&& forall|i: int, j: int| 0 <= i < j < found.len() ==> found[i] < found[j]
            &&& forall|k: int|
                0 <= k < addrs.len() && #[trigger] addrs[k] == Some(address) ==> found.contains(
                    k as usize,
                )
        }),
    decreases addrs.len(),
{
    if addrs.len() > 0 {
        let rest = addrs.drop_last();
        let before = sockets_of(rest, address);
        let found = sockets_of(addrs, address);
        law_sockets_belong_to_the_address(rest, address);
        let last = (addrs.len() - 1) as usize;
        assert forall|i: int| 0 <= i < found.len() implies (#[trigger] found[i]) < addrs.len()
            && addrs[found[i] as int] == Some(address) by {
            if i < before.len() {
                assert(found[i] == before[i]);
                assert(rest[before[i] as int] == Some(address));
            }
        }
        assert forall|i: int, j: int| 0 <= i < j < found.len() implies found[i] < found[j] by {
            if j < before.len() {
                assert(before[i] < before[j]);
            } else {
                assert(before[i] < rest.len());
            }
        }
        assert forall|k: int| 0 <= k < addrs.len() && #[trigger] addrs[k] == Some(
            address,
        ) implies found.contains(k as usize) by {
            if k < rest.len() {
                assert(rest[k] == Some(address));
                let i = choose|i: int| 0 <= i < before.len() && before[i] == k as usize;
                assert(found[i] == k as usize);
            } else {
                assert(found[found.len() - 1] == last);
            }
        }
    }
}

} // verus!
