//! Promises about the parts that sessions and their keepers are made of.
use vstd::prelude::*;

use crate::client::session_metrics;
use crate::direct_session::{DirectSession, NodeEntry, RawSession};
use crate::encryption::{enforce_encryption_policy, EncryptionFeatures, SessionEncryption};
use crate::error::{EncryptionError, SessionError, TransitionError};
use crate::model::{Identity, NodeId, SessionId, SlotId, SocketAddr};
use crate::network_view::{NetworkView, NodeView};
use crate::registry::NodesRegistry;
use crate::session_guard::GuardedSessions;
use crate::session_initializer::SessionInitializer;
use crate::session_layer::{ConnectionMethod, SessionLayer};
use crate::session_manager::SessionManager;
use crate::session_state::{InitState, ReverseState, SessionState};
use crate::tcp_registry::{ChannelDesc, ChannelDirection, ChannelType};
use crate::transport_layer::{ForwardSender, TransportLayer};
use crate::virtual_layer::TcpLayer;

verus! {

/// A session with a node needs the id that the node goes by to be one of its own; one with a relay
/// server needs none. A new session forwards for nobody and holds nothing back.
pub proof fn law_session_needs_the_id_of_its_node(
    node_id: NodeId,
    identities: &Vec<Identity>,
    raw: RawSession,
    r: Result<DirectSession, String>,
    relay: DirectSession,
    slot: SlotId,
)
    requires
        call_ensures(DirectSession::new, (node_id, identities, raw), r),
        call_ensures(DirectSession::new_relay, (node_id, raw), relay),
    ensures
        r is Ok <==> exists|i: int|
            0 <= i < identities@.len() && (#[trigger] identities@[i]).node_id == node_id,
        r matches Ok(s) ==> {
            &&& s@.owner.default_id == node_id
            &&& s@.owner.identities.len() == identities@.len()
            &&& s@.raw == raw
            &&& !s@.forward_pause
            &&& !s@.forwards.slots.contains_key(slot)
        },
        relay@.owner.default_id == node_id,
        relay@.owner.identities.len() == 0,
        relay@.raw == raw,
        !relay@.forward_pause,
        !relay@.forwards.slots.contains_key(slot),
{
    let ids = crate::model::ids_of(identities@);
    if ids.contains(node_id) {
        let i = choose|i: int| 0 <= i < ids.len() && ids[i] == node_id;
        assert(identities@[i].node_id == node_id);
    }
    if exists|i: int|
        0 <= i < identities@.len() && (#[trigger] identities@[i]).node_id == node_id {
        let i = choose|i: int|
            0 <= i < identities@.len() && (#[trigger] identities@[i]).node_id == node_id;
        assert(ids[i] == node_id);
    }
}

/// Registering a node with a session and taking it out again concerns its forwarding alone; holding
/// back and letting on undo each other.
pub proof fn law_session_keeps_its_identity(
    first: &mut DirectSession,
    node: NodeEntry<NodeId>,
    slot: SlotId,
    second: &mut DirectSession,
    r: Result<NodeId, String>,
    third: &mut DirectSession,
    paused: &DirectSession,
    waits: bool,
    fourth: &mut DirectSession,
    resumed: &DirectSession,
    waits_on: bool,
)
    requires
        old(first)@.forwards.wf(),
        node@.wf(),
        call_ensures(DirectSession::register, (first, node, slot), ()),
        *old(second) == *final(first),
        call_ensures(DirectSession::remove_by_slot, (second, slot), r),
        *old(third) == *final(second),
        call_ensures(DirectSession::pause_forwarding, (third,), ()),
        *paused == *final(third),
        call_ensures(DirectSession::wait_for_resume, (paused,), waits),
        *old(fourth) == *final(third),
        call_ensures(DirectSession::resume_forwarding, (fourth,), ()),
        *resumed == *final(fourth),
        call_ensures(DirectSession::wait_for_resume, (resumed,), waits_on),
    ensures
        r == Ok::<NodeId, String>(node@.default_id),
        waits,
        !waits_on,
        final(fourth)@.owner == old(first)@.owner,
        final(fourth)@.raw == old(first)@.raw,
        !final(fourth)@.forwards.slots.contains_key(slot),
        final(fourth)@.forwards == final(second)@.forwards,
{
    crate::direct_session::lemma_added_is_found(old(first)@.forwards, node@, slot);
    let added = final(first)@.forwards;
    assert(node@.identities.contains(node@.default_id));
    crate::direct_session::lemma_removed_is_gone(added, node@.default_id);
}

/// Where encryption is asked for strictly, no session goes without it; any other stays as it is.
pub proof fn law_strict_encryption_is_enforced(
    features: EncryptionFeatures,
    encryption: SessionEncryption,
    r: Result<SessionEncryption, EncryptionError>,
)
    requires
        call_ensures(enforce_encryption_policy, (features, encryption), r),
    ensures
        r is Err <==> features.strict && encryption is Plain,
        r matches Ok(same) ==> same == encryption,
{
}

/// A further slot leads to the node that it was added for, and not to the slot of direct sessions.
pub proof fn law_further_slots_lead_to_the_node(
    registry: &mut NodesRegistry,
    node: NodeId,
    slot: SlotId,
    after: &NodesRegistry,
    r: Result<crate::registry::NodeEntry, String>,
)
    requires
        old(registry)@.wf(),
        old(registry)@.nodes.contains_key(node),
        call_ensures(NodesRegistry::add_slot_for_node, (registry, node, slot), ()),
        after@ == final(registry)@,
        call_ensures(NodesRegistry::resolve_slot, (after, slot), r),
    ensures
        slot != 0 ==> r == Ok::<crate::registry::NodeEntry, String>(old(registry)@.nodes[node]),
        slot == 0 ==> r is Err && final(registry)@ == old(registry)@,
        final(registry)@.nodes == old(registry)@.nodes,
{
}

/// Leaving a node closes the connections to it, and leaves every other node and address alone.
pub proof fn law_tcp_leaves_a_node(layer: &mut TcpLayer, node: NodeId, r: u128, kind: ChannelType)
    requires
        old(layer)@.wf(),
        old(layer)@.registry.ips.contains_key(node),
        call_ensures(TcpLayer::remove_node, (layer, node), r),
    ensures
        r == old(layer)@.registry.ips[node],
        ({
            let index = old(layer)@.registry.nodes[r] as int;
            let out = ChannelDesc(kind, ChannelDirection::Out);
            let before = crate::laws::channels::state_for(old(layer)@.registry.virt[index], out);
            let after = crate::laws::channels::state_for(final(layer)@.registry.virt[index], out);
            &&& before is Connected ==> after is Closed
            &&& !(before is Connected) ==> after == before
        }),
        final(layer)@.registry.ips == old(layer)@.registry.ips,
        final(layer)@.registry.nodes == old(layer)@.registry.nodes,
        final(layer)@.fast_lane == old(layer)@.fast_lane,
{
}

/// This node listens on its own virtual address, on a port for each kind of channel.
pub proof fn law_tcp_listens_on_both_ports(
    id: &NodeId,
    r: ((u128, u16), (u128, u16)),
    messages: (u128, u16),
    transfer: (u128, u16),
)
    requires
        call_ensures(TcpLayer::listening_endpoints, (id,), r),
        call_ensures(crate::tcp_registry::channel_endpoint, (id, ChannelType::Messages), messages),
        call_ensures(crate::tcp_registry::channel_endpoint, (id, ChannelType::Transfer), transfer),
    ensures
        r.0 == messages,
        r.1 == transfer,
        messages.0 == transfer.0,
        messages.1 != transfer.1,
{
}

/// Once a layer was started it listens, and its tasks are those to be stopped.
pub proof fn law_started_layer_listens(
    layer: &mut SessionLayer,
    bind_addr: SocketAddr,
    tasks: Vec<u64>,
    after: &SessionLayer,
    local: Option<SocketAddr>,
    ready: Result<(), SessionError>,
    addr: SocketAddr,
)
    requires
        old(layer)@.wf(),
        call_ensures(SessionLayer::spawned, (layer, bind_addr, tasks), ()),
        after@ == final(layer)@,
        call_ensures(SessionLayer::get_local_addr, (after,), local),
        call_ensures(SessionLayer::get_protocol, (after,), ready),
    ensures
        final(layer)@.listening,
        local == Some(bind_addr),
        ready is Ok,
        final(layer)@.handles == old(layer)@.handles + tasks@,
        !final(layer)@.protocol->Some_0.admitted.contains_key(addr),
        !final(layer)@.protocol->Some_0.tmp.contains_key(addr),
        final(layer)@.sessions == old(layer)@.sessions,
{
}

/// Once a manager was started packets can be sent and nodes can start sessions.
pub proof fn law_started_manager_sends(
    manager: &mut SessionManager,
    bind_addr: SocketAddr,
    dispatcher: u64,
    expiration: u64,
    after: &SessionManager,
    out: Result<(), String>,
)
    requires
        old(manager)@.wf(),
        call_ensures(SessionManager::spawn, (manager, bind_addr, dispatcher, expiration), ()),
        after@ == final(manager)@,
        call_ensures(SessionManager::out_stream, (after,), out),
    ensures
        out is Ok,
        final(manager)@.starting,
        final(manager)@.bind_addr == Some(bind_addr),
        final(manager)@.handles.len() == old(manager)@.handles.len() + 2,
        final(manager)@.handles.contains(dispatcher),
        final(manager)@.handles.contains(expiration),
        final(manager)@.sessions == old(manager)@.sessions,
{
    let handles = final(manager)@.handles;
    assert(handles[handles.len() - 2] == dispatcher);
    assert(handles[handles.len() - 1] == expiration);
}

/// What a manager knows of a node is found by address, by alias and by id.
pub proof fn law_manager_finds_what_it_knows(
    manager: &SessionManager,
    addr: SocketAddr,
    id: NodeId,
    session: Option<RawSession>,
    server: Option<RawSession>,
    remote: Option<NodeId>,
    alias: Option<NodeId>,
    direct: bool,
    locked: Option<crate::registry::NodeEntry>,
)
    requires
        call_ensures(SessionManager::find_session, (manager, addr), session),
        call_ensures(SessionManager::get_server_session, (manager,), server),
        call_ensures(SessionManager::remote_id, (manager, &addr), remote),
        call_ensures(SessionManager::alias, (manager, &id), alias),
        call_ensures(SessionManager::is_p2p, (manager, &id), direct),
        call_ensures(SessionManager::resolve_locked, (manager, id), locked),
    ensures
        session is Some <==> manager@.sessions.contains_key(addr),
        session is Some ==> session == Some(manager@.sessions[addr]),
        addr == manager@.config.srv_addr ==> server == session,
        remote is Some <==> manager@.nodes_addr.contains_key(addr),
        remote is Some ==> remote == Some(manager@.nodes_addr[addr]),
        alias is Some <==> manager@.nodes_identity.contains_key(id),
        alias is Some ==> alias == Some(manager@.nodes_identity[id].0),
        direct <==> manager@.p2p_sessions.contains_key(id),
        locked is Some <==> manager@.registry.nodes.contains_key(id),
        locked is Some ==> locked == Some(manager@.registry.nodes[id]),
{
}

/// A temporary session of guarded nodes is kept until it is cleared.
pub proof fn law_guard_keeps_temporary_sessions(
    first: &mut GuardedSessions,
    addr: SocketAddr,
    fresh: SessionId,
    r: RawSession,
    kept: &GuardedSessions,
    found: Option<RawSession>,
    second: &mut GuardedSessions,
    node: NodeId,
    told: Option<u64>,
)
    requires
        old(first)@.wf(),
        call_ensures(GuardedSessions::temporary_session, (first, addr, fresh), r),
        *kept == *final(first),
        call_ensures(GuardedSessions::get_temporary_session, (kept, &addr), found),
        call_ensures(GuardedSessions::notify_first_message, (kept, node), told),
        *old(second) == *final(first),
        call_ensures(GuardedSessions::shutdown, (second,), ()),
    ensures
        found == Some(r),
        !old(first)@.tmp.contains_key(addr) ==> r.id == fresh && r.remote == addr,
        old(first)@.tmp.contains_key(addr) ==> r == old(first)@.tmp[addr],
        told is Some <==> old(first)@.targets.contains_key(node),
        told is Some ==> told == Some(old(first)@.targets[node].lock),
        !final(second)@.tmp.contains_key(addr),
        final(second)@.targets == old(first)@.targets,
{
}

/// On shutdown every channel is handed out under its node, and none is left.
pub proof fn law_shutdown_hands_out_all_channels(
    layer: &mut TransportLayer,
    r: (
        Vec<(NodeId, ForwardSender)>,
        Vec<(NodeId, ForwardSender)>,
        Vec<(NodeId, ForwardSender)>,
    ),
    node: NodeId,
)
    requires
        call_ensures(TransportLayer::shutdown, (layer,), r),
    ensures
        !final(layer)@.unreliable.contains_key(node),
        !final(layer)@.transfer.contains_key(node),
        !final(layer)@.reliable.contains_key(node),
        old(layer)@.unreliable == crate::assoc::as_map(r.0@),
        old(layer)@.transfer == crate::assoc::as_map(r.1@),
        old(layer)@.reliable == crate::assoc::as_map(r.2@),
{
}

/// A handshake that is cleaned up waits for nothing and holds no temporary session under its id,
/// where there was one.
pub proof fn law_cleaned_up_handshake_is_gone(
    initializer: &mut SessionInitializer,
    id: SessionId,
    other: SessionId,
    addr: SocketAddr,
)
    requires
        call_ensures(SessionInitializer::cleanup_initialization, (initializer, &id), ()),
        other != id,
    ensures
        ({
            let before = old(initializer)@;
            let after = final(initializer)@;
            &&& !after.incoming.contains_key(id)
            &&& !after.handles.contains_key(id)
            &&& before.incoming.contains_key(other) ==> after.incoming.contains_key(other)
                && after.incoming[other] == before.incoming[other]
            &&& before.tmp.contains_key(addr) && before.tmp[addr].session.id != id
                ==> after.tmp.contains_key(addr) && after.tmp[addr] == before.tmp[addr]
            &&& before.tmp.contains_key(addr) && before.tmp[addr].session.id == id ==> exists|
                a: SocketAddr,
            |
                before.tmp.contains_key(a) && (#[trigger] before.tmp[a]).session.id == id
                    && !after.tmp.contains_key(a)
        }),
{
}

/// A session is over and done with exactly if it is established, closed or failed.
pub proof fn law_finished_states_are_final(state: &SessionState, r: bool)
    requires
        call_ensures(SessionState::is_finished, (state,), r),
    ensures
        r <==> *state is Established || *state is Closed || *state is FailedEstablish,
{
}

/// Stages of a handshake change the state of the node under its id, in the direction of the
/// handshake.
pub proof fn law_stages_change_under_the_id(
    outgoing: &mut NetworkView,
    incoming: &mut NetworkView,
    id: NodeId,
    stage: InitState,
    out: Result<SessionState, TransitionError>,
    inward: Result<SessionState, TransitionError>,
)
    requires
        old(outgoing)@.wf(),
        old(incoming)@.wf(),
        call_ensures(NetworkView::transition_outgoing, (outgoing, id, stage), out),
        call_ensures(NetworkView::transition_incoming, (incoming, id, stage), inward),
    ensures
        out matches Ok(state) ==> state == SessionState::Outgoing(stage) && old(outgoing)@.by_node_id.contains_key(id) && final(outgoing)@.nodes[old(outgoing)@.by_node_id[id] as int].state == state,
        inward matches Ok(state) ==> (state == SessionState::Incoming(stage) || state
            == SessionState::ReverseConnection(ReverseState::InProgress(stage))) && old(incoming)@.by_node_id.contains_key(id) && final(incoming)@.nodes[old(incoming)@.by_node_id[id] as int].state == state,
        out is Err ==> final(outgoing)@ == old(outgoing)@,
        inward is Err ==> final(incoming)@ == old(incoming)@,
{
}

/// The sockets of a node are those to its virtual address, and only a node that is known has any.
pub proof fn law_sockets_are_those_of_the_node(
    tcp: &TcpLayer,
    node: NodeId,
    addrs: &Vec<Option<u128>>,
    r: Option<Vec<usize>>,
)
    requires
        tcp@.wf(),
        call_ensures(session_metrics, (tcp, node, addrs), r),
        addrs@.len() <= usize::MAX,
    ensures
        r is Some <==> tcp@.registry.ips.contains_key(node),
        r matches Some(list) ==> forall|k: int|
            0 <= k < list@.len() ==> (#[trigger] list@[k]) < addrs@.len() && addrs@[list@[k] as int]
                == Some(tcp@.registry.ips[node]),
{
    if r is Some {
        lemma_sockets(addrs@, tcp@.registry.ips[node]);
    }
}

proof fn lemma_sockets(addrs: Seq<Option<u128>>, address: u128)
    requires
        addrs.len() <= usize::MAX,
    ensures
        forall|k: int|
            0 <= k < crate::client::sockets_of(addrs, address).len() ==> (
            #[trigger] crate::client::sockets_of(addrs, address)[k]) < addrs.len()
                && addrs[crate::client::sockets_of(addrs, address)[k] as int] == Some(address),
    decreases addrs.len(),
{
    if addrs.len() > 0 {
        lemma_sockets(addrs.drop_last(), address);
        let rest = crate::client::sockets_of(addrs.drop_last(), address);
        let all = crate::client::sockets_of(addrs, address);
        assert forall|k: int| 0 <= k < all.len() implies (#[trigger] all[k]) < addrs.len()
            && addrs[all[k] as int] == Some(address) by {
            if k < rest.len() {
                assert(rest[k] < addrs.drop_last().len());
                assert(all[k] == rest[k]);
            }
        }
    }
}

/// Each way of connecting shows in metrics under a number of its own, and none as no connection.
pub proof fn law_ways_show_apart(
    a: ConnectionMethod,
    b: ConnectionMethod,
    first: u16,
    second: u16,
    none: u16,
)
    requires
        call_ensures(ConnectionMethod::metric, (&a,), first),
        call_ensures(ConnectionMethod::metric, (&b,), second),
        call_ensures(ConnectionMethod::no_connection, (), none),
    ensures
        first == second <==> a == b,
        first != none,
{
}

/// A node that becomes known has the addresses that it was met under, and neither a session nor
/// identities nor a slot yet. What is known of it is as old as the meeting.
pub proof fn law_new_entry_starts_closed(
    view: &mut NetworkView,
    id: NodeId,
    addrs: &Vec<SocketAddr>,
    now: i64,
    r: NodeView,
    k: int,
)
    requires
        old(view)@.wf(),
        old(view)@.nodes.len() < usize::MAX,
        !old(view)@.by_node_id.contains_key(id),
        addrs@.len() == 0,
        call_ensures(NetworkView::guard, (view, id, addrs, now), r),
    ensures
        ({
            let node = final(view)@.nodes[r.index as int];
            &&& r.id == id
            &&& r.index == old(view)@.nodes.len()
            &&& final(view)@.by_node_id.contains_key(id)
            &&& final(view)@.by_node_id[id] == r.index
            &&& node.id == id
            &&& node.state is Closed
            &&& node.slot == 0
            &&& node.node.len() == 0
            &&& node.authenticated_identities.len() == 0
            &&& node.session_key is None
            &&& node.abort_handle.len() == 0
            &&& node.last_info_update == now
            &&& 0 <= k < old(view)@.nodes.len() ==> final(view)@.nodes[k] == old(view)@.nodes[k]
        }),
{
}

} // verus!
