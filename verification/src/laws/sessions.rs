//! Promises about sessions: what leads to them, what ends them, and what stays when one ends.
use vstd::prelude::*;

use crate::direct_session::NodeEntry;
use crate::encryption::SessionEncryption;
use crate::error::SessionError;
use crate::model::{ids_of, Identity, NodeId, NodeInfo, SessionHandle, SlotId, SocketAddr};
use crate::network_view::NodeSnapshot;
use crate::session_control::{InfoQuery, InfoReply, Stopped};
use crate::session_layer::{
    identity_with, lemma_unregistered_is_gone, lemma_unregistered_keeps_others, Closed, LayerModel,
    SessionLayer, SessionRegistrationInfo,
};

verus! {

/// Whether an id is among identities.
pub open spec fn owns(identities: Seq<Identity>, id: NodeId) -> bool {
    exists|i: int| 0 <= i < identities.len() && (#[trigger] identities[i]).node_id == id
}

proof fn lemma_owned_ids(identities: Seq<Identity>, id: NodeId)
    ensures
        ids_of(identities).contains(id) <==> owns(identities, id),
{
    let ids = ids_of(identities);
    if ids.contains(id) {
        let i = choose|i: int| 0 <= i < ids.len() && ids[i] == id;
        assert(identities[i].node_id == id);
    }
    if owns(identities, id) {
        let i = choose|i: int|
            0 <= i < identities.len() && (#[trigger] identities[i]).node_id == id;
        assert(ids[i] == id);
    }
}

proof fn lemma_identity_found(identities: Seq<Identity>, id: NodeId)
    requires
        owns(identities, id),
    ensures
        identity_with(identities, id).node_id == id,
        identities.contains(identity_with(identities, id)),
    decreases identities.len(),
{
    let i = choose|i: int| 0 <= i < identities.len() && (#[trigger] identities[i]).node_id == id;
    if identities[0].node_id == id {
        assert(identities.contains(identities[0]));
    } else {
        let rest = identities.skip(1);
        assert(rest[i - 1].node_id == id);
        lemma_identity_found(rest, id);
        let found = identity_with(rest, id);
        let k = choose|k: int| 0 <= k < rest.len() && rest[k] == found;
        assert(identities[k + 1] == found);
    }
}

/// A session is registered exactly if packets can be sent and its node proved the id that it goes
/// by; a relay server proves none. It is then found by its address and under every id of the node,
/// and the way to the node under each of them is this session, encrypted as was agreed upon, with
/// those ids authenticated.
pub proof fn law_registered_session_is_found(
    layer: &mut SessionLayer,
    info: SessionRegistrationInfo,
    owner: &NodeSnapshot,
    r: Result<SessionHandle, String>,
    id: NodeId,
)
    requires
        old(layer)@.wf(),
        old(layer)@.next_number <= u64::MAX - 2,
        call_ensures(SessionLayer::register_session, (layer, info, owner), r),
    ensures
        r is Ok <==> old(layer)@.listening && (info.identities@.len() == 0 || owns(
            info.identities@,
            info.node_id,
        )),
        r is Err ==> final(layer)@ == old(layer)@,
        r matches Ok(h) ==> {
            let m = final(layer)@;
            &&& !old(layer)@.sessions.contains_key(h)
            &&& m.sessions.contains_key(h)
            &&& m.sessions[h].owner.default_id == info.node_id
            &&& m.sessions[h].raw.id == info.id
            &&& m.sessions[h].raw.remote == info.addr
            &&& !m.sessions[h].forward_pause
            &&& forall|slot: SlotId| !#[trigger] m.sessions[h].forwards.slots.contains_key(slot)
            &&& m.p2p_sessions.contains_key(info.addr)
            &&& m.p2p_sessions[info.addr] == h
            &&& owns(info.identities@, id) <==> m.sessions[h].owner.identities.contains(id)
            &&& owns(info.identities@, id) ==> {
                let way = m.nodes[id];
                &&& m.p2p_nodes.contains_key(id)
                &&& m.p2p_nodes[id] == h
                &&& m.nodes.contains_key(id)
                &&& way.route == h
                &&& way.encryption == info.encryption
                &&& way.generation == owner.generation
                &&& way.node.identities == info.identities@
                &&& way.node.default_id.node_id == info.node_id
                &&& info.identities@.contains(way.node.default_id)
                &&& way.authenticated_identities.contains(id)
            }
        },
{
    lemma_owned_ids(info.identities@, id);
    lemma_owned_ids(info.identities@, info.node_id);
    if info.identities@.len() > 0 && owns(info.identities@, info.node_id) {
        lemma_identity_found(info.identities@, info.node_id);
    }
    if let Ok(h) = r {
        let m = final(layer)@;
        if owns(info.identities@, id) {
            assert(m.p2p_nodes[id] == h);
            assert(info.identities@.len() > 0);
        }
        let before = old(layer)@;
        let h0 = before.next_session();
        assert(h == h0);
        assert(m.p2p_sessions[info.addr] == h);
        assert(m.referenced(h));
    }
}

/// Registering a session leaves nodes, addresses and requests alone that are not its own, and a
/// session that something still leads to stays as it was.
pub proof fn law_registering_leaves_others(
    layer: &mut SessionLayer,
    info: SessionRegistrationInfo,
    owner: &NodeSnapshot,
    r: Result<SessionHandle, String>,
    id: NodeId,
    addr: SocketAddr,
)
    requires
        old(layer)@.wf(),
        old(layer)@.next_number <= u64::MAX - 2,
        call_ensures(SessionLayer::register_session, (layer, info, owner), r),
        !owns(info.identities@, id),
        addr != info.addr,
    ensures
        ({
            let before = old(layer)@;
            let after = final(layer)@;
            &&& after.nodes.contains_key(id) <==> before.nodes.contains_key(id)
            &&& before.nodes.contains_key(id) ==> after.nodes[id] == before.nodes[id]
            &&& after.p2p_nodes.contains_key(id) <==> before.p2p_nodes.contains_key(id)
            &&& before.p2p_nodes.contains_key(id) ==> {
                let h = before.p2p_nodes[id];
                &&& after.p2p_nodes[id] == h
                &&& after.sessions.contains_key(h)
                &&& after.sessions[h] == before.sessions[h]
            }
            &&& after.p2p_sessions.contains_key(addr) <==> before.p2p_sessions.contains_key(addr)
            &&& before.p2p_sessions.contains_key(addr) ==> {
                let h = before.p2p_sessions[addr];
                &&& after.p2p_sessions[addr] == h
                &&& after.sessions.contains_key(h)
                &&& after.sessions[h] == before.sessions[h]
            }
            &&& after.registry == before.registry
            &&& after.requests == before.requests
            &&& after.protocol == before.protocol
            &&& after.config == before.config
            &&& after.listening == before.listening
            &&& after.public_addr == before.public_addr
            &&& after.bind_addr == before.bind_addr
            &&& after.handles == before.handles
        }),
{
    lemma_owned_ids(info.identities@, id);
    lemma_owned_ids(info.identities@, info.node_id);
    let before = old(layer)@;
    let after = final(layer)@;
    if before.p2p_nodes.contains_key(id) {
        let h = before.p2p_nodes[id];
        assert(before.sessions.contains_key(h));
        assert(after.p2p_nodes[id] == h);
        assert(h.number < before.next_number);
        assert(after.referenced(h));
    }
    if before.p2p_sessions.contains_key(addr) {
        let h = before.p2p_sessions[addr];
        assert(before.sessions.contains_key(h));
        assert(after.p2p_sessions[addr] == h);
        assert(h.number < before.next_number);
        assert(after.referenced(h));
    }
}

/// A node is reached over the session that its way was registered with, exactly if that session is
/// open, under every id of the node and no other.
pub proof fn law_registered_way_is_used(
    layer: &mut SessionLayer,
    node: NodeEntry<Identity>,
    route: SessionHandle,
    encryption: SessionEncryption,
    authenticated: Vec<NodeId>,
    generation: u64,
    r: Result<u64, String>,
    id: NodeId,
)
    requires
        old(layer)@.wf(),
        old(layer)@.next_number < u64::MAX,
        call_ensures(
            SessionLayer::register_routing,
            (layer, node, route, encryption, authenticated, generation),
            r,
        ),
    ensures
        r is Ok <==> old(layer)@.sessions.contains_key(route),
        ({
            let before = old(layer)@;
            let after = final(layer)@;
            &&& r is Err ==> after == before
            &&& after.sessions == before.sessions
            &&& after.p2p_nodes == before.p2p_nodes
            &&& after.p2p_sessions == before.p2p_sessions
            &&& after.registry == before.registry
            &&& if r is Ok && owns(node@.identities, id) {
                let way = after.nodes[id];
                &&& after.nodes.contains_key(id)
                &&& way.route == route
                &&& way.node == node@
                &&& way.encryption == encryption
                &&& way.authenticated_identities == authenticated@
                &&& way.generation == generation
                &&& r == Ok::<u64, String>(way.number)
                &&& forall|other: NodeId|
                    before.nodes.contains_key(other) ==> (#[trigger] before.nodes[other]).number
                        != way.number
            } else {
                &&& after.nodes.contains_key(id) <==> before.nodes.contains_key(id)
                &&& before.nodes.contains_key(id) ==> after.nodes[id] == before.nodes[id]
            }
        }),
{
    lemma_owned_ids(node@.identities, id);
}

/// A node that is unregistered is not known under any id of its way or its session any more, and
/// its session is closed. The report names that session and its owner, or the node itself where
/// there was none.
pub proof fn law_unregistered_node_is_gone(
    layer: &mut SessionLayer,
    node_id: NodeId,
    r: Closed,
    id: NodeId,
)
    requires
        old(layer)@.wf(),
        call_ensures(SessionLayer::unregister, (layer, node_id), r),
        ({
            let m = old(layer)@;
            ||| id == node_id
            ||| m.nodes.contains_key(node_id) && owns(m.nodes[node_id].node.identities, id)
            ||| m.p2p_nodes.contains_key(node_id)
                && m.sessions[m.p2p_nodes[node_id]].owner.identities.contains(id)
        }),
    ensures
        !final(layer)@.nodes.contains_key(id),
        !final(layer)@.p2p_nodes.contains_key(id),
        !final(layer)@.registry.by_node_id.contains_key(node_id),
        ({
            let m = old(layer)@;
            if m.p2p_nodes.contains_key(node_id) {
                let h = m.p2p_nodes[node_id];
                &&& r.disconnect == Some(m.sessions[h].raw)
                &&& r.target == m.sessions[h].owner.default_id
                &&& !final(layer)@.sessions.contains_key(h)
                &&& !final(layer)@.p2p_sessions.contains_key(m.sessions[h].raw.remote)
            } else {
                r.disconnect is None && r.target == node_id
            }
        }),
{
    let m = old(layer)@;
    lemma_unregistered_is_gone(m, node_id);
    let ids = m.ids_to_forget(node_id);
    let way = if m.nodes.contains_key(node_id) {
        ids_of(m.nodes[node_id].node.identities)
    } else {
        Seq::empty()
    };
    let direct = if m.p2p_nodes.contains_key(node_id) {
        m.sessions[m.p2p_nodes[node_id]].owner.identities
    } else {
        Seq::empty()
    };
    assert(ids == seq![node_id] + way + direct);
    if id == node_id {
        assert(ids[0] == id);
    } else if m.nodes.contains_key(node_id) && owns(m.nodes[node_id].node.identities, id) {
        lemma_owned_ids(m.nodes[node_id].node.identities, id);
        let k = choose|k: int| 0 <= k < way.len() && way[k] == id;
        assert(ids[1 + k] == id);
    } else {
        let k = choose|k: int| 0 <= k < direct.len() && direct[k] == id;
        assert(ids[1 + way.len() + k] == id);
    }
    assert(ids.contains(id));
}

/// Unregistering a node leaves the ways to nodes that neither share an id with it nor were reached
/// over its session.
pub proof fn law_unregistering_keeps_other_ways(
    layer: &mut SessionLayer,
    node_id: NodeId,
    r: Closed,
    other: NodeId,
)
    requires
        old(layer)@.wf(),
        call_ensures(SessionLayer::unregister, (layer, node_id), r),
        ({
            let m = old(layer)@;
            &&& m.nodes.contains_key(other)
            &&& other != node_id
            &&& m.nodes.contains_key(node_id) ==> !owns(m.nodes[node_id].node.identities, other)
            &&& m.p2p_nodes.contains_key(node_id) ==> {
                let session = m.sessions[m.p2p_nodes[node_id]];
                &&& !session.owner.identities.contains(other)
                &&& !session.forwards.members().contains(other)
            }
        }),
    ensures
        final(layer)@.nodes.contains_key(other),
        final(layer)@.nodes[other] == old(layer)@.nodes[other],
        final(layer)@.config == old(layer)@.config,
        final(layer)@.listening == old(layer)@.listening,
        final(layer)@.requests == old(layer)@.requests,
{
    let m = old(layer)@;
    let ids = m.ids_to_forget(node_id);
    if ids.contains(other) {
        let way = if m.nodes.contains_key(node_id) {
            ids_of(m.nodes[node_id].node.identities)
        } else {
            Seq::empty()
        };
        let direct = if m.p2p_nodes.contains_key(node_id) {
            m.sessions[m.p2p_nodes[node_id]].owner.identities
        } else {
            Seq::empty()
        };
        assert(ids == seq![node_id] + way + direct);
        let k = choose|k: int| 0 <= k < ids.len() && ids[k] == other;
        if k == 0 {
        } else if k <= way.len() {
            assert(way[k - 1] == other);
            lemma_owned_ids(m.nodes[node_id].node.identities, other);
        } else {
            assert(direct[k - 1 - way.len()] == other);
        }
    }
    lemma_unregistered_keeps_others(m, node_id, other);
    lemma_forgotten_keeps(m, node_id);
}

proof fn lemma_forgotten_keeps(m: LayerModel, node_id: NodeId)
    ensures
        m.unregistered(node_id).config == m.config,
        m.unregistered(node_id).listening == m.listening,
        m.unregistered(node_id).requests == m.requests,
{
    let unlinked = match m.direct(node_id) {
        Some(h) => LayerModel {
            p2p_sessions: m.p2p_sessions.remove(m.sessions[h].raw.remote),
            ..m
        },
        None => m,
    };
    lemma_forgetting(unlinked, m.ids_to_forget(node_id));
}

proof fn lemma_forgetting(m: LayerModel, ids: Seq<NodeId>)
    ensures
        m.forgotten(ids).config == m.config,
        m.forgotten(ids).listening == m.listening,
        m.forgotten(ids).requests == m.requests,
    decreases ids.len(),
{
    if ids.len() > 0 {
        lemma_forgetting(m, ids.drop_last());
    }
}

/// A session over which packets to a node were forwarded does not forward to that node any more once
/// the node is unregistered.
pub proof fn law_unregistered_node_is_not_forwarded_to(
    layer: &mut SessionLayer,
    node_id: NodeId,
    r: Closed,
)
    requires
        old(layer)@.wf(),
        old(layer)@.nodes.contains_key(node_id),
        call_ensures(SessionLayer::unregister, (layer, node_id), r),
    ensures
        ({
            let route = old(layer)@.nodes[node_id].route;
            let after = final(layer)@.sessions;
            after.contains_key(route) && old(layer)@.sessions.contains_key(route)
                ==> !after[route].forwards.nodes.contains_key(node_id)
        }),
{
    let m = old(layer)@;
    let route = m.nodes[node_id].route;
    if m.sessions.contains_key(route) {
        let unlinked = match m.direct(node_id) {
            Some(h) => LayerModel {
                p2p_sessions: m.p2p_sessions.remove(m.sessions[h].raw.remote),
                ..m
            },
            None => m,
        };
        assert(m.ids_to_forget(node_id)[0] == node_id);
        lemma_not_forwarded(unlinked, m.ids_to_forget(node_id), route, node_id);
    }
}

proof fn lemma_not_forwarded(
    m: LayerModel,
    ids: Seq<NodeId>,
    route: SessionHandle,
    node_id: NodeId,
)
    requires
        ids.len() > 0,
        ids[0] == node_id,
        m.nodes.contains_key(node_id),
        m.nodes[node_id].route == route,
        m.sessions.contains_key(route),
    ensures
        m.forgotten(ids).sessions.contains_key(route),
        !m.forgotten(ids).sessions[route].forwards.nodes.contains_key(node_id),
    decreases ids.len(),
{
    if ids.len() == 1 {
        assert(ids.drop_last().len() == 0);
        assert(m.forgotten(ids.drop_last()) == m);
    } else {
        assert(ids.drop_last()[0] == ids[0]);
        lemma_not_forwarded(m, ids.drop_last(), route, node_id);
    }
}

/// A node is unregistered only on behalf of the attempt that is the latest one with it.
pub proof fn law_stale_attempts_unregister_nothing(
    layer: &mut SessionLayer,
    node: &NodeSnapshot,
    r: Option<Closed>,
)
    requires
        old(layer)@.wf(),
        call_ensures(SessionLayer::unregister_generation, (layer, node), r),
    ensures
        r is None ==> final(layer)@ == old(layer)@,
        r is Some ==> !final(layer)@.nodes.contains_key(node.id)
            && !final(layer)@.p2p_nodes.contains_key(node.id),
        ({
            let known = old(layer)@.registry;
            r is Some <==> known.by_node_id.contains_key(node.id)
                && known.by_node_id[node.id] == node.index && known.nodes[
            node.index as int].generation == node.generation
        }),
{
    if r is Some {
        lemma_unregistered_is_gone(old(layer)@, node.id);
        assert(old(layer)@.ids_to_forget(node.id)[0] == node.id);
        assert(old(layer)@.ids_to_forget(node.id).contains(node.id));
    }
}

/// A session that is unregistered is closed. Its address, the ids of its owner and the nodes that
/// were reached through it lead nowhere any more, and everything else leads where it led.
pub proof fn law_closed_session_leads_nowhere(
    layer: &mut SessionLayer,
    session: SessionHandle,
    r: Closed,
    id: NodeId,
    addr: SocketAddr,
)
    requires
        old(layer)@.wf(),
        old(layer)@.sessions.contains_key(session),
        call_ensures(SessionLayer::unregister_session, (layer, session), r),
    ensures
        ({
            let before = old(layer)@;
            let after = final(layer)@;
            let content = before.sessions[session];
            &&& r.disconnect == Some(content.raw)
            &&& r.target == content.owner.default_id
            &&& after.p2p_nodes.contains_key(id) <==> before.p2p_nodes.contains_key(id)
                && !content.owner.identities.contains(id)
            &&& after.p2p_nodes.contains_key(id) ==> after.p2p_nodes[id] == before.p2p_nodes[id]
            &&& after.nodes.contains_key(id) <==> before.nodes.contains_key(id)
                && !content.owner.identities.contains(id) && !content.forwards.members().contains(id)
            &&& after.nodes.contains_key(id) ==> after.nodes[id] == before.nodes[id]
            &&& after.p2p_sessions.contains_key(addr) <==> before.p2p_sessions.contains_key(addr)
                && addr != content.raw.remote
            &&& after.p2p_sessions.contains_key(addr) ==> {
                let h = before.p2p_sessions[addr];
                &&& after.p2p_sessions[addr] == h
                &&& after.sessions.contains_key(h)
                &&& after.sessions[h] == before.sessions[h]
            }
            &&& !after.sessions.contains_key(session)
            &&& content.owner.default_id != (NodeId { high: 0, low: 0 }) ==> after.registry
                == before.registry
        }),
{
    let before = old(layer)@;
    let after = final(layer)@;
    let content = before.sessions[session];
    if after.p2p_sessions.contains_key(addr) {
        let h = before.p2p_sessions[addr];
        assert(before.sessions.contains_key(h));
        assert(after.p2p_sessions[addr] == h);
        assert(after.referenced(h));
    }
    if after.sessions.contains_key(session) {
        assert(after.referenced(session));
        if exists|a: SocketAddr|
            after.p2p_sessions.contains_key(a) && #[trigger] after.p2p_sessions[a] == session {
            let a = choose|a: SocketAddr|
                after.p2p_sessions.contains_key(a) && #[trigger] after.p2p_sessions[a] == session;
            assert(before.p2p_sessions[a] == session);
        } else {
            let i = choose|i: NodeId|
                after.p2p_nodes.contains_key(i) && #[trigger] after.p2p_nodes[i] == session;
            assert(before.p2p_nodes[i] == session);
        }
    }
}

/// With the session of a relay server, all nodes that were reached through it are forgotten.
pub proof fn law_nodes_are_forgotten_with_their_relay(
    layer: &mut SessionLayer,
    session: SessionHandle,
    r: Closed,
    slot: SlotId,
)
    requires
        old(layer)@.wf(),
        old(layer)@.sessions.contains_key(session),
        old(layer)@.sessions[session].owner.default_id == (NodeId { high: 0, low: 0 }),
        old(layer)@.sessions[session].forwards.slots.contains_key(slot),
        call_ensures(SessionLayer::unregister_session, (layer, session), r),
    ensures
        ({
            let node = old(layer)@.sessions[session].forwards.slots[slot].default_id;
            &&& !final(layer)@.registry.by_node_id.contains_key(node)
            &&& !final(layer)@.nodes.contains_key(node)
        }),
{
    let m = old(layer)@;
    let forwards = m.sessions[session].forwards;
    let node = forwards.slots[slot].default_id;
    assert(forwards.wf());
    assert(forwards.slots[slot].identities.contains(node));
    assert(forwards.members().contains(node));
    assert(forwards.defaults().contains(node));
    if m.registry.by_node_id.contains_key(node) {
        assert(m.registry.belongs(forwards.defaults(), m.registry.by_node_id[node]));
    }
}

/// Holding back or letting on what one session forwards changes nothing else.
pub proof fn law_pausing_is_per_session(
    layer: &mut SessionLayer,
    h: SessionHandle,
    paused: bool,
    other: SessionHandle,
)
    requires
        old(layer)@.wf(),
        old(layer)@.sessions.contains_key(h),
        call_ensures(SessionLayer::set_forward_pause, (layer, h, paused), ()),
    ensures
        ({
            let before = old(layer)@;
            let after = final(layer)@;
            &&& after.sessions.contains_key(h)
            &&& after.sessions[h].forward_pause == paused
            &&& after.sessions[h].owner == before.sessions[h].owner
            &&& after.sessions[h].raw == before.sessions[h].raw
            &&& after.sessions[h].forwards == before.sessions[h].forwards
            &&& other != h ==> (after.sessions.contains_key(other)
                <==> before.sessions.contains_key(other))
            &&& other != h && before.sessions.contains_key(other) ==> after.sessions[other]
                == before.sessions[other]
            &&& after.nodes == before.nodes
            &&& after.p2p_nodes == before.p2p_nodes
            &&& after.p2p_sessions == before.p2p_sessions
            &&& after.registry == before.registry
        }),
{
}

/// On shutdown every background task and every handshake under way is reported once, sessions stay
/// until they are closed one by one, and nothing can be sent afterwards.
pub proof fn law_shutdown_stops_everything(
    first: &mut SessionLayer,
    stopped: Stopped,
    second: &mut SessionLayer,
    h: SessionHandle,
)
    requires
        old(first)@.wf(),
        call_ensures(SessionLayer::begin_shutdown, (first,), stopped),
        *old(second) == *final(first),
        call_ensures(SessionLayer::end_shutdown, (second,), ()),
    ensures
        stopped.tasks@ == old(first)@.handles,
        final(first)@.handles.len() == 0,
        final(first)@.protocol is None,
        final(first)@.sessions == old(first)@.sessions,
        final(first)@.p2p_sessions == old(first)@.p2p_sessions,
        final(first)@.nodes == old(first)@.nodes,
        !final(second)@.listening,
        final(second)@.sessions == old(first)@.sessions,
        old(first)@.protocol is None ==> stopped.handshakes@.len() == 0,
        old(first)@.protocol matches Some(p) ==> forall|i: int|
            0 <= i < stopped.handshakes@.len() ==> p.handles.contains_key(
                (#[trigger] stopped.handshakes@[i]).0,
            ) && p.handles[stopped.handshakes@[i].0] == stopped.handshakes@[i].1,
{
    if let Some(p) = old(first)@.protocol {
        let list = stopped.handshakes@;
        assert forall|i: int| 0 <= i < list.len() implies p.handles.contains_key(
            (#[trigger] list[i]).0,
        ) && p.handles[list[i].0] == list[i].1 by {
            lemma_listed(list, i);
        }
    }
}

proof fn lemma_listed<K, V>(list: Seq<(K, V)>, i: int)
    requires
        crate::assoc::unique_keys(list),
        0 <= i < list.len(),
    ensures
        crate::assoc::as_map(list).contains_key(list[i].0),
        crate::assoc::as_map(list)[list[i].0] == list[i].1,
    decreases list.len(),
{
    if i < list.len() - 1 {
        assert(list.drop_last()[i] == list[i]);
        lemma_listed(list.drop_last(), i);
    }
}

/// Closing sessions one by one ends only when none is left, and each step closes one.
pub proof fn law_sessions_are_closed_until_none_is_left(
    layer: &mut SessionLayer,
    r: Option<Closed>,
    addr: SocketAddr,
)
    requires
        old(layer)@.wf(),
        call_ensures(SessionLayer::close_next, (layer,), r),
    ensures
        r is None ==> !old(layer)@.p2p_sessions.contains_key(addr) && final(layer)@ == old(layer)@,
        final(layer)@.p2p_sessions.contains_key(addr) ==> old(layer)@.p2p_sessions.contains_key(
            addr,
        ),
        r matches Some(closed) ==> {
            let gone = closed.disconnect->Some_0.remote;
            &&& closed.disconnect is Some
            &&& old(layer)@.p2p_sessions.contains_key(gone)
            &&& !final(layer)@.p2p_sessions.contains_key(gone)
            &&& closed.disconnect->Some_0 == old(layer)@.sessions[old(layer)@.p2p_sessions[gone]].raw
            &&& closed.target == old(layer)@.sessions[old(layer)@.p2p_sessions[gone]].owner.default_id
            &&& addr != gone && old(layer)@.p2p_sessions.contains_key(addr) ==> final(layer)@.p2p_sessions.contains_key(addr)
        },
{
}

/// A node that is disconnected is closed and forgotten, exactly if a session with it was
/// established.
pub proof fn law_disconnected_node_is_closed(
    layer: &mut SessionLayer,
    node_id: NodeId,
    now: i64,
    r: Result<Closed, SessionError>,
)
    requires
        old(layer)@.wf(),
        old(layer)@.registry.nodes.len() < usize::MAX,
        old(layer)@.registry.by_node_id.contains_key(node_id),
        call_ensures(SessionLayer::disconnect, (layer, node_id, now), r),
    ensures
        ({
            let m = old(layer)@;
            let after = final(layer)@;
            let index = m.registry.by_node_id[node_id];
            let state = m.registry.nodes[index as int].state;
            &&& r is Ok <==> state is Established
            &&& r is Ok ==> {
                &&& after.registry.nodes[index as int].state is Closed
                &&& !after.nodes.contains_key(node_id)
                &&& !after.p2p_nodes.contains_key(node_id)
                &&& !after.registry.by_node_id.contains_key(node_id)
            }
            &&& r is Err ==> after.nodes == m.nodes && after.p2p_nodes == m.p2p_nodes
                && after.sessions == m.sessions && after.p2p_sessions == m.p2p_sessions
        }),
{
    let m = crate::session_control::closing(old(layer)@, node_id, now);
    let (guarded, index) = old(layer)@.registry.guarded(node_id, Seq::empty(), now);
    if r is Ok {
        crate::session_control::lemma_links_kept(old(layer)@, m);
        lemma_unregistered_is_gone(m, node_id);
        assert(m.ids_to_forget(node_id)[0] == node_id);
        assert(m.ids_to_forget(node_id).contains(node_id));
    }
}

/// What is known of a node is handed out only while it is up to date, and then as it was stored.
/// Otherwise the relay server is asked.
pub proof fn law_known_information_is_handed_out(
    layer: &SessionLayer,
    node_id: NodeId,
    now: i64,
    r: InfoQuery,
)
    requires
        layer@.wf(),
        call_ensures(SessionLayer::query_node_info, (layer, node_id, now), r),
    ensures
        ({
            let known = layer@.registry;
            let node = known.nodes[known.by_node_id[node_id] as int];
            &&& r is Known <==> known.by_node_id.contains_key(node_id) && node.node.len() > 0 && (
            node.state is Established || now - node.last_info_update <= known.ttl)
            &&& r matches InfoQuery::Known(info) ==> {
                &&& info@.identities == node.node
                &&& info@.endpoints == node.addresses
                &&& info@.slot == node.slot
                &&& info@.supported_encryption == node.supported_encryption
                &&& info@.session_key == node.session_key
                &&& info@.authenticated_identities == node.authenticated_identities
            }
        }),
{
}

/// An answer of the relay server is handed out as it came, and remembered. A failed question
/// changes nothing.
pub proof fn law_answer_of_the_server_is_handed_out(
    layer: &mut SessionLayer,
    reply: InfoReply,
    now: i64,
    r: Result<NodeInfo, String>,
)
    requires
        old(layer)@.wf(),
        old(layer)@.registry.nodes.len() < usize::MAX,
        call_ensures(SessionLayer::node_info_received, (layer, reply, now), r),
    ensures
        !(reply is Found) ==> r is Err,
        r is Err ==> final(layer)@ == old(layer)@,
        r matches Ok(info) ==> (reply matches InfoReply::Found(found) && info@ == found@),
        final(layer)@.sessions == old(layer)@.sessions,
        final(layer)@.nodes == old(layer)@.nodes,
        final(layer)@.p2p_nodes == old(layer)@.p2p_nodes,
        final(layer)@.p2p_sessions == old(layer)@.p2p_sessions,
{
}

/// Only addresses that are this node's own are left out, and the others stay in order.
pub proof fn law_own_addresses_are_left_out(
    layer: &SessionLayer,
    endpoints: &Vec<SocketAddr>,
    r: Vec<SocketAddr>,
    addr: SocketAddr,
)
    requires
        call_ensures(SessionLayer::filter_own_addresses, (layer, endpoints), r),
    ensures
        r@.contains(addr) <==> endpoints@.contains(addr) && layer@.bind_addr != Some(addr)
            && layer@.public_addr != Some(addr),
        !endpoints@.contains(addr) || (layer@.bind_addr != Some(addr) && layer@.public_addr != Some(
            addr,
        )) || r@.len() < endpoints@.len(),
{
    let own = |a: SocketAddr| crate::session_control::foreign(layer@, a);
    let list = endpoints@;
    lemma_filtered(list, own, addr);
}

/// What a filtered list holds.
pub proof fn lemma_filtered<T>(list: Seq<T>, keep: spec_fn(T) -> bool, item: T)
    ensures
        list.filter(keep).contains(item) <==> list.contains(item) && keep(item),
        list.filter(keep).len() <= list.len(),
        list.contains(item) && !keep(item) ==> list.filter(keep).len() < list.len(),
    decreases list.len(),
{
    reveal(Seq::filter);
    if list.len() > 0 {
        let rest = list.drop_last();
        lemma_filtered(rest, keep, item);
        assert(list == rest.push(list.last()));
        crate::assoc::lemma_contains_push(rest, list.last());
        crate::assoc::lemma_contains_push(rest.filter(keep), list.last());
    }
}

} // verus!
