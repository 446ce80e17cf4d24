//! Promises about what is found after something was changed.
use vstd::prelude::*;

use crate::client::{neighbour_is_gone, BroadcastAction, Client};
use crate::config::ClientConfig;
use crate::direct_session::{lemma_added_is_found, lemma_removed_is_gone, NodeEntry, RawSession};
use crate::dispatch::{Dispatcher, ResponseRoute};
use crate::error::{SessionError, TcpError, TransitionError};
use crate::manager_init::prepare_challenge_request;
use crate::model::{
    lemma_node_id_bytes_injective, Identity, NodeId, SessionHandle, SessionId, SlotId, SocketAddr,
};
use crate::network_view::{
    BeforeRelease, NetworkView, NodeSnapshot, NodeView, Notice, SessionLock, SessionPermit,
};
use crate::routing_session::RoutingSender;
use crate::session_control::Aborted;
use crate::session_events::{ReverseConnection, ReverseRequest};
use crate::session_guard::ConnectError;
use crate::session_initializer::{ChallengeRequest, SessionRequest};
use crate::session_layer::{
    lemma_unregistered_is_gone, Closed, ConnectionMethod, SessionLayer, SessionRegistrationInfo,
};
use crate::session_manager::{RemovedNode, SessionManager};
use crate::session_state::{InitState, SessionState};
use crate::tcp_registry::{
    ChannelDesc, ChannelDirection, ChannelType, ConnectionHandle, TcpLock, TcpSender, TcpState,
    VirtNode,
};
use crate::virtual_layer::TcpLayer;

verus! {

/// A session that was registered is found in every way there is: by its address, as that of its
/// node, and as the way to the node, which goes directly.
pub proof fn law_every_way_leads_to_the_registered_session(
    layer: &mut SessionLayer,
    info: SessionRegistrationInfo,
    owner: &NodeSnapshot,
    h: SessionHandle,
    after: &SessionLayer,
    found: Option<SessionHandle>,
    remote: Option<NodeId>,
    way: Option<RoutingSender>,
    direct: bool,
    open: bool,
    server: Option<SessionHandle>,
)
    requires
        old(layer)@.wf(),
        old(layer)@.next_number <= u64::MAX - 2,
        call_ensures(
            SessionLayer::register_session,
            (layer, info, owner),
            Ok::<SessionHandle, String>(h),
        ),
        info.identities@.len() > 0,
        after@ == final(layer)@,
        call_ensures(SessionLayer::find_session, (after, info.addr), found),
        call_ensures(SessionLayer::remote_id, (after, &info.addr), remote),
        call_ensures(SessionLayer::get_node_routing, (after, info.node_id), way),
        call_ensures(SessionLayer::is_p2p, (after, info.node_id), direct),
        call_ensures(SessionLayer::is_open, (after, &h), open),
        call_ensures(SessionLayer::get_server_session, (after,), server),
    ensures
        found == Some(h),
        remote == Some(info.node_id),
        way matches Some(sender) && sender.target == info.node_id && sender.routing == Some(
            after@.nodes[info.node_id].number,
        ),
        direct,
        open,
        after@.config.srv_addr == info.addr ==> server == Some(h),
{
    crate::laws::sessions::law_registered_session_is_found(
        layer,
        info,
        owner,
        Ok::<SessionHandle, String>(h),
        info.node_id,
    );
}

/// After a node was unregistered, nothing leads to it.
pub proof fn law_no_way_leads_to_the_unregistered_node(
    layer: &mut SessionLayer,
    node_id: NodeId,
    closed: Closed,
    after: &SessionLayer,
    way: Option<RoutingSender>,
    default: Option<NodeId>,
    found: Option<SessionHandle>,
)
    requires
        old(layer)@.wf(),
        call_ensures(SessionLayer::unregister, (layer, node_id), closed),
        after@ == final(layer)@,
        call_ensures(SessionLayer::get_node_routing, (after, node_id), way),
        call_ensures(SessionLayer::default_id, (after, node_id), default),
        closed.disconnect is Some,
        call_ensures(SessionLayer::find_session, (after, closed.disconnect->Some_0.remote), found),
    ensures
        way is None,
        default is None,
        found is None,
{
    lemma_unregistered_is_gone(old(layer)@, node_id);
}

/// The public address is what it was set to, and setting it changes nothing else.
pub proof fn law_public_address_is_kept(
    layer: &mut SessionLayer,
    addr: Option<SocketAddr>,
    after: &SessionLayer,
    r: Option<SocketAddr>,
)
    requires
        old(layer)@.wf(),
        call_ensures(SessionLayer::set_public_addr, (layer, addr), ()),
        after@ == final(layer)@,
        call_ensures(SessionLayer::get_public_addr, (after,), r),
    ensures
        r == addr,
        after@.bind_addr == old(layer)@.bind_addr,
        after@.sessions == old(layer)@.sessions,
        after@.nodes == old(layer)@.nodes,
        after@.registry == old(layer)@.registry,
        after@.config == old(layer)@.config,
{
}

/// A node that a session forwards for is found on its slot, until the slot is freed. Other sessions
/// are not concerned.
pub proof fn law_forwards_belong_to_their_session(
    first: &mut SessionLayer,
    h: SessionHandle,
    node: NodeEntry<NodeId>,
    slot: SlotId,
    second: &mut SessionLayer,
    r: Result<NodeId, String>,
    other: SessionHandle,
)
    requires
        old(first)@.wf(),
        node@.wf(),
        old(first)@.sessions.contains_key(h),
        call_ensures(SessionLayer::register_forward, (first, h, node, slot), ()),
        *old(second) == *final(first),
        call_ensures(SessionLayer::remove_forward, (second, h, slot), r),
        other != h,
    ensures
        final(first)@.sessions[h].forwards.slots.contains_key(slot),
        final(first)@.sessions[h].forwards.slots[slot] == node@,
        r == Ok::<NodeId, String>(node@.default_id),
        !final(second)@.sessions[h].forwards.slots.contains_key(slot),
        !final(second)@.sessions[h].forwards.nodes.contains_key(node@.default_id),
        final(second)@.sessions[h].raw == old(first)@.sessions[h].raw,
        final(second)@.sessions[h].owner == old(first)@.sessions[h].owner,
        old(first)@.sessions.contains_key(other) ==> final(second)@.sessions[other] == old(first)@.sessions[other],
        final(second)@.nodes == old(first)@.nodes,
{
    lemma_added_is_found(old(first)@.sessions[h].forwards, node@, slot);
    let added = final(first)@.sessions[h].forwards;
    assert(final(first)@.sessions.contains_key(h));
    assert(added.wf());
    assert(node@.identities.contains(node@.default_id));
    assert(added.nodes.contains_key(node@.default_id));
    lemma_removed_is_gone(added, node@.default_id);
}

/// Aborting what is under way with an address hands out every task of the node there, once, and the
/// temporary session to tell the other party over.
pub proof fn law_aborted_initializations_are_handed_out(
    layer: &mut SessionLayer,
    remote: SocketAddr,
    r: Result<Aborted, SessionError>,
)
    requires
        old(layer)@.wf(),
        call_ensures(SessionLayer::abort_initializations, (layer, remote), r),
    ensures
        ({
            let m = old(layer)@;
            let after = final(layer)@;
            let index = m.registry.by_addr[remote] as int;
            &&& r is Ok <==> m.registry.by_addr.contains_key(remote)
            &&& r is Err ==> after == m
            &&& r matches Ok(aborted) ==> {
                &&& aborted.initializations@ == m.registry.nodes[index].abort_handle
                &&& after.registry.nodes[index].abort_handle.len() == 0
                &&& after.registry.nodes[index].state == m.registry.nodes[index].state
                &&& m.protocol matches Some(p) ==> (aborted.disconnect matches Ok(told) && (told
                    is Some <==> p.tmp.contains_key(remote)) && (told is Some ==> told == Some(
                    p.tmp[remote].session,
                )))
                &&& m.protocol is None ==> aborted.disconnect is Err
                &&& m.protocol matches Some(p) ==> p.tmp.contains_key(remote) ==> {
                    let id = p.tmp[remote].session.id;
                    &&& after.protocol is Some
                    &&& !after.protocol->Some_0.incoming.contains_key(id)
                    &&& !after.protocol->Some_0.handles.contains_key(id)
                    &&& exists|a: SocketAddr|
                        {
                            &&& p.tmp.contains_key(a)
                            &&& (#[trigger] p.tmp[a]).session.id == id
                            &&& !after.protocol->Some_0.tmp.contains_key(a)
                        }
                }
            }
            &&& after.sessions == m.sessions
            &&& after.nodes == m.nodes
        }),
{
}

/// A node that asks to be connected to is connected to directly, without asking back or using the
/// relay, if it has an id and endpoints and no attempt is under way.
pub proof fn law_request_to_connect_is_followed(
    layer: &mut SessionLayer,
    from: SocketAddr,
    message: &ReverseConnection,
    now: i64,
    r: Result<Option<ReverseRequest>, String>,
    node: NodeId,
)
    requires
        old(layer)@.wf(),
        old(layer)@.registry.nodes.len() < usize::MAX,
        call_ensures(SessionLayer::on_reverse_connection, (layer, from, message, now), r),
        message.node_id@ == node.bytes(),
    ensures
        r is Ok <==> message.endpoints@.len() > 0,
        r is Err ==> final(layer)@ == old(layer)@,
        final(layer)@.sessions == old(layer)@.sessions,
        final(layer)@.nodes == old(layer)@.nodes,
        r is Ok && old(layer)@.registry.by_node_id.contains_key(node) ==> {
            let index = old(layer)@.registry.by_node_id[node] as int;
            let state = old(layer)@.registry.nodes[index].state;
            let after = final(layer)@.registry.nodes[index].state;
            &&& r->Ok_0 is Some <==> state is Closed || state is FailedEstablish
            &&& r->Ok_0 is Some ==> after == SessionState::Outgoing(InitState::ConnectIntent)
            &&& r->Ok_0 is None ==> after == state
        },
        r matches Ok(Some(request)) ==> {
            &&& request.node_id == node
            &&& request.dont_use@.contains(ConnectionMethod::Reverse)
            &&& request.dont_use@.contains(ConnectionMethod::Relay)
            &&& !request.dont_use@.contains(ConnectionMethod::Direct)
        },
{
    crate::model::lemma_be_len(node.high as nat, 16);
    crate::model::lemma_be_len(node.low as nat, 4);
    assert forall|a: NodeId| #[trigger] a.bytes() == message.node_id@ implies a == node by {
        lemma_node_id_bytes_injective(a, node);
    }
    if let Ok(Some(request)) = r {
        assert(request.dont_use@[0] == ConnectionMethod::Reverse);
        assert(request.dont_use@[1] == ConnectionMethod::Relay);
    }
}

/// A handshake that begins is known under its id, with the time that it may take; a sender that was
/// released can start another one.
pub proof fn law_begun_handshake_is_known(
    layer: &mut SessionLayer,
    id: SessionId,
    remote: SocketAddr,
    handle: u64,
    r: Result<u64, SessionError>,
    later: &mut SessionLayer,
    from: SocketAddr,
)
    requires
        old(layer)@.wf(),
        call_ensures(SessionLayer::begin_incoming, (layer, id, remote, handle), r),
        *old(later) == *final(layer),
        call_ensures(SessionLayer::release_admission, (later, from), ()),
    ensures
        r is Ok <==> old(layer)@.protocol is Some,
        r matches Ok(time) ==> {
            let before = old(layer)@.protocol->Some_0;
            let p = final(layer)@.protocol->Some_0;
            let q = final(later)@.protocol->Some_0;
            &&& time == old(layer)@.config.incoming_session_timeout
            &&& p.handles.contains_key(id)
            &&& p.handles[id] == handle
            &&& p.incoming.contains_key(id)
            &&& !before.incoming.contains_key(id) ==> p.incoming[id].remote == remote
                && p.incoming[id].queued is None
            &&& before.incoming.contains_key(id) ==> p.incoming[id] == before.incoming[id]
            &&& !q.admitted.contains_key(from)
            &&& q.incoming == p.incoming
            &&& q.tmp == before.tmp
        },
        r is Err ==> final(layer)@ == old(layer)@,
        final(later)@.sessions == old(layer)@.sessions,
{
}

/// A session that is closed leads nowhere, and its node is closed, exactly if a session with that
/// node was established.
pub proof fn law_closing_a_session_closes_its_node(
    layer: &mut SessionLayer,
    session: SessionHandle,
    now: i64,
    r: Result<Closed, SessionError>,
)
    requires
        old(layer)@.wf(),
        old(layer)@.registry.nodes.len() < usize::MAX,
        old(layer)@.sessions.contains_key(session),
        call_ensures(SessionLayer::close_session, (layer, session, now), r),
        old(layer)@.registry.by_node_id.contains_key(
            old(layer)@.sessions[session].owner.default_id,
        ),
    ensures
        ({
            let m = old(layer)@;
            let after = final(layer)@;
            let content = m.sessions[session];
            let index = m.registry.by_node_id[content.owner.default_id] as int;
            &&& r is Ok <==> m.registry.nodes[index].state is Established
            &&& r is Err ==> after.sessions == m.sessions && after.nodes == m.nodes
                && after.p2p_sessions == m.p2p_sessions
            &&& r matches Ok(closed) ==> {
                &&& closed.disconnect == Some(content.raw)
                &&& closed.target == content.owner.default_id
                &&& !after.p2p_sessions.contains_key(content.raw.remote)
                &&& after.registry.nodes[index].state is Closed
                &&& forall|id: NodeId| #[trigger]
                    content.owner.identities.contains(id) ==> !after.nodes.contains_key(id)
                        && !after.p2p_nodes.contains_key(id)
            }
        }),
{
}

/// What was last told of a session is what is read: when it was seen and how fast it is. Without a
/// measurement it counts as slowest.
pub proof fn law_last_news_are_read(
    first: &mut Dispatcher,
    now: i64,
    second: &mut Dispatcher,
    ping: u64,
    after: &Dispatcher,
    seen: i64,
    time: u64,
    fresh: Dispatcher,
    ok: i32,
    unknown: u64,
)
    requires
        call_ensures(Dispatcher::update_seen, (first, now), ()),
        *old(second) == *final(first),
        call_ensures(Dispatcher::update_ping, (second, ping), ()),
        after@ == final(second)@,
        call_ensures(Dispatcher::last_seen, (after,), seen),
        call_ensures(Dispatcher::last_ping, (after,), time),
        call_ensures(Dispatcher::new, (ok, now), fresh),
        call_ensures(Dispatcher::last_ping, (&fresh,), unknown),
    ensures
        seen == now,
        time == ping,
        unknown == u64::MAX,
        fresh@.seen == now,
        fresh@.ok == ok,
        final(second)@.responses == old(first)@.responses,
        final(second)@.error_handlers == old(first)@.error_handlers,
{
}

/// An exclusive handler runs on its code, does not run again while it runs, and does once it is
/// done.
pub proof fn law_exclusive_handlers_run_one_at_a_time(
    first: &mut Dispatcher,
    code: i32,
    registration: u64,
    second: &mut Dispatcher,
    request: u64,
    runs: ResponseRoute,
    third: &mut Dispatcher,
    again: ResponseRoute,
    fourth: &mut Dispatcher,
    fifth: &mut Dispatcher,
    later: ResponseRoute,
)
    requires
        old(first)@.wf(),
        old(first)@.next_registration < u64::MAX,
        code != old(first)@.ok,
        call_ensures(Dispatcher::handle_error, (first, code, true), registration),
        *old(second) == *final(first),
        call_ensures(Dispatcher::dispatch_response, (second, request, code), runs),
        *old(third) == *final(second),
        call_ensures(Dispatcher::dispatch_response, (third, request, code), again),
        *old(fourth) == *final(third),
        call_ensures(Dispatcher::error_handled, (fourth, code, registration), ()),
        *old(fifth) == *final(fourth),
        call_ensures(Dispatcher::dispatch_response, (fifth, request, code), later),
    ensures
        runs.handle_error == Some(registration),
        again.handle_error is None,
        later.handle_error == Some(registration),
{
}

/// A node has what was told of it: its state, slot and identities are read as they are known, and
/// tasks to abort are handed out once.
pub proof fn law_node_is_read_as_it_is_known(
    node: &NodeView,
    view: &mut NetworkView,
    abort: u64,
    between: &mut NetworkView,
    tasks: Vec<u64>,
    after: &NetworkView,
    state: SessionState,
    slot: SlotId,
    entry: Result<NodeEntry<Identity>, String>,
    proved: Vec<NodeId>,
    k: int,
)
    requires
        old(view)@.wf(),
        old(view)@.has(*node),
        call_ensures(NodeView::register_abortable, (node, view, abort), ()),
        *old(between) == *final(view),
        call_ensures(NodeView::abort_initialization, (node, between), tasks),
        after@ == final(between)@,
        call_ensures(NodeView::state, (node, after), state),
        call_ensures(NodeView::slot, (node, after), slot),
        call_ensures(NodeView::identities, (node, after), entry),
        call_ensures(NodeView::authenticated_identities, (node, after), proved),
    ensures
        ({
            let before = old(view)@.nodes[node.index as int];
            &&& tasks@ == before.abort_handle.push(abort)
            &&& after@.nodes[node.index as int].abort_handle.len() == 0
            &&& state == before.state
            &&& slot == before.slot
            &&& proved@ == before.authenticated_identities
            &&& entry is Ok <==> before.node.len() > 0
            &&& entry matches Ok(e) ==> e.default_id == before.node[0] && e.identities@
                == before.node
            &&& 0 <= k < old(view)@.nodes.len() && k != node.index ==> after@.nodes[k] == old(view)@.nodes[k]
        }),
{
}

/// An entry is found by its id and its address, or not at all.
pub proof fn law_entries_are_found_by_id_and_address(
    view: &NetworkView,
    id: NodeId,
    addr: &SocketAddr,
    by_id: Option<NodeView>,
    by_addr: Option<NodeView>,
)
    requires
        view@.wf(),
        call_ensures(NetworkView::get_entry, (view, id), by_id),
        call_ensures(NetworkView::get_entry_by_addr, (view, addr), by_addr),
    ensures
        by_id is Some <==> view@.by_node_id.contains_key(id),
        by_id matches Some(node) ==> node.index == view@.by_node_id[id] && node.id
            == view@.nodes[node.index as int].id,
        by_addr is Some <==> view@.by_addr.contains_key(*addr),
        by_addr matches Some(node) ==> node.index == view@.by_addr[*addr] && node.id
            == view@.nodes[node.index as int].id,
{
}

/// The state of a node changes under its id as it does for its entry, and not for one that is not
/// known. A right to connect under an id is the right for that entry.
pub proof fn law_states_change_under_the_id(
    view: &mut NetworkView,
    id: NodeId,
    target: SessionState,
    r: Result<SessionState, TransitionError>,
    other: &mut NetworkView,
    addrs: &Vec<SocketAddr>,
    now: i64,
    lock: SessionLock,
)
    requires
        old(view)@.wf(),
        call_ensures(NetworkView::transition, (view, id, target), r),
        old(other)@.wf(),
        old(other)@.nodes.len() < usize::MAX,
        old(other)@.by_node_id.contains_key(id),
        call_ensures(NetworkView::lock_outgoing, (other, id, addrs, now), lock),
    ensures
        !old(view)@.by_node_id.contains_key(id) ==> r is Err && final(view)@ == old(view)@,
        r matches Ok(state) ==> state == target && final(view)@.nodes[old(view)@.by_node_id[id] as int].state == target,
        r is Err ==> final(view)@ == old(view)@,
        ({
            let index = old(other)@.by_node_id[id] as int;
            let state = old(other)@.nodes[index].state;
            &&& lock is Permit <==> state is Closed || state is FailedEstablish
            &&& lock matches SessionLock::Permit(permit) ==> permit.registry.index == index
                && permit.generation == final(other)@.nodes[index].generation
            &&& lock matches SessionLock::Wait(awaiting) ==> awaiting.registry.index == index
        }),
{
}

/// A permit is owned by the attempt that it was given for. What is to be done before it is released
/// goes by its outcome.
pub proof fn law_permit_belongs_to_its_attempt(
    permit: &SessionPermit,
    owner: NodeSnapshot,
    state: &SessionState,
    before: BeforeRelease,
    notice: Notice,
    told: Result<SessionState, SessionError>,
)
    requires
        call_ensures(SessionPermit::owner, (permit,), owner),
        call_ensures(SessionPermit::before_release, (state,), before),
        call_ensures(crate::network_view::NodeAwaiting::next, (notice,), told),
    ensures
        owner.id == permit.registry.id,
        owner.index == permit.registry.index,
        owner.generation == permit.generation,
        before is CleanState <==> *state is FailedEstablish,
        before is Nothing <==> (*state matches SessionState::ReverseConnection(inner) && inner
            is Finished),
        told is Ok <==> notice is State,
        told matches Ok(new) ==> notice == Notice::State(new),
{
}

/// A client fails to start exactly if it has to be connected at once and is not. Otherwise its
/// response times are measured until it is shut down.
pub proof fn law_client_starts(
    first: &mut Client,
    config: &ClientConfig,
    bind_addr: SocketAddr,
    connected: Result<(), SessionError>,
    ping_task: u64,
    r: Result<(), SessionError>,
    started: &Client,
    bound: Result<SocketAddr, String>,
    second: &mut Client,
    tasks: Vec<u64>,
)
    requires
        call_ensures(Client::spawn, (first, config, bind_addr, connected, ping_task), r),
        started.bind_addr == final(first).bind_addr,
        call_ensures(Client::bind_addr, (started,), bound),
        *old(second) == *final(first),
        call_ensures(Client::shutdown, (second,), tasks),
    ensures
        r is Err <==> connected is Err && config.auto_connect && config.auto_connect_fail_fast,
        bound == Ok::<SocketAddr, String>(bind_addr),
        r is Ok ==> tasks@ == old(first).handles@.push(ping_task),
        r is Err ==> tasks@ == old(first).handles@,
        final(second).handles@.len() == 0,
{
}

/// A neighbour is gone exactly if there is no direct session with it and the server does not know
/// it. Forgetting neighbours changes nothing else.
pub proof fn law_neighbours_are_gone_when_nobody_knows_them(
    p2p: bool,
    found: bool,
    r: bool,
    client: &mut Client,
)
    requires
        call_ensures(neighbour_is_gone, (p2p, found), r),
        call_ensures(Client::invalidate_neighbourhood_cache, (client,), ()),
    ensures
        r <==> !p2p && !found,
        final(client).neighbours is None,
        final(client).handles == old(client).handles,
        final(client).bind_addr == old(client).bind_addr,
{
}

/// A broadcast without neighbours needs as many connected nodes as were asked for, and never goes to
/// more, nor to the relay server, nor twice to one node.
pub proof fn law_broadcast_asks_for_neighbours_when_short(
    layer: &SessionLayer,
    count: u32,
    r: BroadcastAction,
)
    requires
        call_ensures(SessionLayer::broadcast, (layer, count), r),
    ensures
        ({
            let ids = match r {
                BroadcastAction::Send(ids) => ids@,
                BroadcastAction::QueryNeighbours(ids) => ids@,
            };
            &&& r is Send <==> ids.len() >= count
            &&& ids.len() <= count
            &&& ids.no_duplicates()
            &&& !ids.contains(NodeId { high: 0, low: 0 })
        }),
{
    let order = choose|order: Seq<SessionHandle>|
        {
            let targets = #[trigger] crate::client::picked(layer@, order, count);
            &&& crate::client::shuffled(layer@.p2p_sessions, order)
            &&& match r {
                BroadcastAction::Send(ids) => ids@ == targets && targets.len() >= count,
                BroadcastAction::QueryNeighbours(ids) => ids@ == targets && targets.len() < count,
            }
        };
    crate::client::lemma_broadcast_is_bounded(layer@, order, Seq::empty(), count);
    crate::client::lemma_broadcast_spares_the_server(layer@, order, count);
}

/// Each channel of a node has a state of its own, and a port by its kind.
pub proof fn law_channels_have_their_own_state(
    node: &mut VirtNode,
    channel: ChannelDesc,
    target: TcpState,
    r: Result<(), crate::error::TcpTransitionError>,
    before: &VirtNode,
    other: ChannelDesc,
    first: TcpState,
    after: &VirtNode,
    second: TcpState,
    new: TcpState,
    port: u16,
)
    requires
        old(node)@.wf(),
        call_ensures(VirtNode::transition, (node, channel, target), r),
        before@ == old(node)@,
        after@ == final(node)@,
        other != channel,
        call_ensures(VirtNode::state, (before, other), first),
        call_ensures(VirtNode::state, (after, other), second),
        call_ensures(VirtNode::state, (after, channel), new),
        call_ensures(ChannelDesc::port, (&channel,), port),
    ensures
        second == first,
        r is Ok ==> new == target,
        channel.0 is Messages ==> port == 1,
        channel.0 is Transfer ==> port == 2,
        final(node)@.id == old(node)@.id,
        final(node)@.address == old(node)@.address,
{
}

/// Connecting over tcp opens the outgoing channel of the asked kind. A connection needs a session
/// first, and the sender that comes of it belongs to that node, channel and connection.
pub proof fn law_tcp_connects_outwards(
    layer: &mut TcpLayer,
    node: NodeId,
    kind: ChannelType,
    lock: TcpLock,
    session: Result<(), SessionError>,
    opened: Result<ConnectionHandle, String>,
    connection: Result<ConnectionHandle, TcpError>,
    sender: Result<TcpSender, TcpError>,
)
    requires
        old(layer)@.wf(),
        old(layer)@.registry.virt.len() < usize::MAX,
        call_ensures(TcpLayer::connect, (layer, node, kind), lock),
        call_ensures(TcpLayer::connect_internal, (session, opened), connection),
        call_ensures(TcpLayer::sender, (node, kind, connection), sender),
    ensures
        lock matches TcpLock::Permit(permit) ==> permit.channel == ChannelDesc(
            kind,
            ChannelDirection::Out,
        ) && permit.node < final(layer)@.registry.virt.len(),
        lock matches TcpLock::Wait(awaiting) ==> awaiting.channel == ChannelDesc(
            kind,
            ChannelDirection::Out,
        ),
        !old(layer)@.registry.ips.contains_key(node) ==> lock is Permit,
        final(layer)@.registry.ips.contains_key(node),
        connection is Ok <==> session is Ok && opened is Ok,
        connection is Ok ==> connection->Ok_0 == opened->Ok_0,
        sender is Ok <==> connection is Ok,
        sender matches Ok(s) ==> s.target == node && s.channel == ChannelDesc(
            kind,
            ChannelDirection::Out,
        ) && s.connection == connection->Ok_0,
{
}

/// A payload that came in is handed on as it is, and its node is known from then on.
pub proof fn law_tcp_receives(
    layer: &mut TcpLayer,
    node: NodeId,
    payload: Vec<u8>,
    r: Vec<u8>,
    other: NodeId,
)
    requires
        old(layer)@.wf(),
        old(layer)@.registry.virt.len() < usize::MAX,
        call_ensures(TcpLayer::receive, (layer, node, payload), r),
        other != node,
    ensures
        r@ == payload@,
        final(layer)@.registry.ips.contains_key(node),
        final(layer)@.registry.ips.contains_key(other) <==> old(layer)@.registry.ips.contains_key(other),
        old(layer)@.registry.ips.contains_key(node) ==> final(layer)@.registry == old(layer)@.registry,
{
}

/// The session with the relay server is dropped with all that was reached through it; without one,
/// nothing happens.
pub proof fn law_server_session_is_dropped(
    manager: &mut SessionManager,
    r: Option<(RawSession, Vec<RemovedNode>)>,
)
    requires
        old(manager)@.wf(),
        call_ensures(SessionManager::drop_server_session, (manager,), r),
        old(manager)@.sessions.contains_key(old(manager)@.config.srv_addr) ==> old(manager)@.sessions[old(manager)@.config.srv_addr].remote == old(manager)@.config.srv_addr,
    ensures
        r is Some <==> old(manager)@.sessions.contains_key(old(manager)@.config.srv_addr),
        r is None ==> final(manager)@ == old(manager)@,
        r matches Some((session, removed)) ==> session == old(manager)@.sessions[old(manager)@.config.srv_addr] && !final(manager)@.sessions.contains_key(
            old(manager)@.config.srv_addr,
        ),
{
    if let Some((session, removed)) = r {
        crate::session_manager::lemma_closed_session_is_gone(
            old(manager)@,
            session,
            final(manager)@,
            removed@,
            NodeId { high: 0, low: 0 },
        );
    }
}

/// A silent session is closed, and with the relay server it is the session that there is.
pub proof fn law_silent_session_is_closed(
    manager: &mut SessionManager,
    session: RawSession,
    r: Option<(RawSession, Vec<RemovedNode>)>,
)
    requires
        old(manager)@.wf(),
        session.remote != old(manager)@.config.srv_addr,
        call_ensures(SessionManager::close_silent, (manager, session), r),
    ensures
        r matches Some((closed, removed)) && closed == session,
        !final(manager)@.sessions.contains_key(session.remote),
{
    if let Some((closed, removed)) = r {
        crate::session_manager::lemma_closed_session_is_gone(
            old(manager)@,
            closed,
            final(manager)@,
            removed@,
            NodeId { high: 0, low: 0 },
        );
    }
}

/// A manager introduces this node with all its identities, and with a challenge if one is asked for.
pub proof fn law_manager_introduces_all_identities(
    keys: Result<Vec<Result<Identity, String>>, String>,
    challenge_req: ChallengeRequest,
    challenge: bool,
    r: Result<SessionRequest, ConnectError>,
)
    requires
        call_ensures(prepare_challenge_request, (keys, challenge_req, challenge), r),
    ensures
        r is Ok <==> keys is Ok && forall|i: int|
            0 <= i < keys->Ok_0@.len() ==> (#[trigger] keys->Ok_0@[i]) is Ok,
        keys is Err ==> r->Err_0 is Drop,
        keys is Ok && r is Err ==> r->Err_0 is Retry,
        r matches Ok(request) ==> {
            &&& request.identities@.len() == keys->Ok_0@.len()
            &&& forall|i: int|
                0 <= i < request.identities@.len() ==> keys->Ok_0@[i] == Ok::<Identity, String>(
                    #[trigger] request.identities@[i],
                )
            &&& request.challenge_req is Some <==> challenge
            &&& challenge ==> request.challenge_req == Some(challenge_req)
            &&& request.challenge_resp is None
        },
{
}

/// A temporary session of a manager is kept for its address, and can be had only while packets can
/// be sent.
pub proof fn law_manager_keeps_temporary_sessions(
    manager: &mut SessionManager,
    addr: SocketAddr,
    fresh: SessionId,
    r: Result<RawSession, String>,
    other: SocketAddr,
)
    requires
        old(manager)@.wf(),
        call_ensures(SessionManager::temporary_session, (manager, addr, fresh), r),
        other != addr,
    ensures
        r is Ok <==> old(manager)@.sink,
        r is Err ==> final(manager)@ == old(manager)@,
        r matches Ok(session) ==> {
            let before = old(manager)@.guarded.tmp;
            let after = final(manager)@.guarded.tmp;
            &&& before.contains_key(addr) ==> session == before[addr]
            &&& !before.contains_key(addr) ==> session.id == fresh && session.remote == addr
            &&& after.contains_key(addr)
            &&& after[addr] == session
            &&& before.contains_key(other) ==> after.contains_key(other) && after[other]
                == before[other]
        },
        final(manager)@.sessions == old(manager)@.sessions,
{
}

/// A node that a session was found for is not locked any more, and whoever waits is told.
pub proof fn law_resolved_node_is_free(
    manager: &mut SessionManager,
    node: NodeId,
    r: Option<u64>,
    other: NodeId,
)
    requires
        old(manager)@.wf(),
        call_ensures(SessionManager::resolved, (manager, node), r),
        other != node,
    ensures
        r is Some <==> old(manager)@.guarded.targets.contains_key(node),
        r is Some ==> r == Some(old(manager)@.guarded.targets[node].lock),
        !final(manager)@.guarded.targets.contains_key(node),
        old(manager)@.guarded.targets.contains_key(other) ==> final(manager)@.guarded.targets.contains_key(other) && final(manager)@.guarded.targets[other] == old(manager)@.guarded.targets[other],
        final(manager)@.sessions == old(manager)@.sessions,
        final(manager)@.registry == old(manager)@.registry,
{
}

} // verus!
