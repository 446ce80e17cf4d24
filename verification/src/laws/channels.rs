//! Promises about virtual connections and forwarding channels.
use vstd::prelude::*;

use crate::config::{ClientBuilder, ClientConfig, FailFast, Surroundings};
use crate::direct_session::RawSession;
use crate::encryption::SessionEncryption;
use crate::error::{SessionError, TcpError};
use crate::model::{be_bytes, NodeId, NodeInfo, SlotId, TransportType};
use crate::network_view::{NodeSnapshot, Waiting};
use crate::refresh::BackgroundTask;
use crate::registry::{NodeEntry, NodesRegistry};
use crate::routing_session::RoutingSender;
use crate::session_events::Forwarded;
use crate::session_layer::SessionLayer;
use crate::tcp_registry::{
    to_ipv6, ChannelDesc, ChannelDirection, ChannelType, ConnectionHandle, TcpAwaiting, TcpLock,
    TcpNotice, TcpPermit, TcpRegistry, TcpSender, TcpState, VirtModel,
};
use crate::transport_layer::{
    dispatch, ForwardAction, ForwardEvent, ForwardSender, TransportLayer, TransportRoute,
};
use crate::virtual_layer::{IngressEvent, SocketEndpoint, TcpLayer};

verus! {

/// The state that a node keeps for a channel.
pub open spec fn state_for(node: VirtModel, channel: ChannelDesc) -> TcpState {
    let position: int = match (channel.0, channel.1) {
        (ChannelType::Transfer, ChannelDirection::In) => 0,
        (ChannelType::Transfer, ChannelDirection::Out) => 1,
        (ChannelType::Messages, ChannelDirection::In) => 2,
        (ChannelType::Messages, ChannelDirection::Out) => 3,
    };
    node.channels[position].state
}

/// A channel goes through its states in order: it connects from closed or failed, gets connected or
/// fails, and closes from connected. No other change happens.
pub proof fn law_channel_states_come_in_order(
    state: &mut TcpState,
    target: TcpState,
    r: Result<(), crate::error::TcpTransitionError>,
)
    requires
        call_ensures(TcpState::transition, (state, target), r),
    ensures
        r is Err ==> *final(state) == *old(state),
        r is Ok ==> *final(state) == target,
        target is Connecting ==> (r is Ok <==> *old(state) is Closed || *old(state) is Failed),
        target is Connected || target is Failed ==> (r is Ok <==> *old(state) is Connecting),
        target is Closing || target is Closed ==> (r is Ok <==> *old(state) is Connected),
{
}

/// One caller at a time connects a channel: where it is closed or failed, the caller gets the right
/// to, and whoever comes later waits for the outcome on the same channel. Other channels of the
/// node, and other nodes, are not concerned.
pub proof fn law_one_connects_a_channel(
    first: &mut TcpRegistry,
    node: NodeId,
    channel: ChannelDesc,
    lock: TcpLock,
    second: &mut TcpRegistry,
    again: TcpLock,
    other: ChannelDesc,
    k: int,
)
    requires
        old(first)@.wf(),
        old(first)@.virt.len() < usize::MAX - 1,
        call_ensures(TcpRegistry::connect_attempt, (first, node, channel), lock),
        *old(second) == *final(first),
        call_ensures(TcpRegistry::connect_attempt, (second, node, channel), again),
        other != channel,
    ensures
        ({
            let before = old(first)@;
            let after = final(first)@;
            let known = before.ips.contains_key(node);
            let index = before.nodes[before.ips[node]] as int;
            let state = state_for(before.virt[index], channel);
            &&& lock is Permit <==> !known || state is Closed || state is Failed
            &&& known && 0 <= k < before.virt.len() && k != index ==> after.virt[k]
                == before.virt[k]
            &&& !known && 0 <= k < before.virt.len() ==> after.virt[k] == before.virt[k]
            &&& lock matches TcpLock::Permit(permit) ==> {
                &&& permit.channel == channel
                &&& permit.result is None
                &&& permit.node < after.virt.len()
                &&& known ==> permit.node == index
                &&& state_for(after.virt[permit.node as int], channel) is Connecting
                &&& known ==> state_for(after.virt[index], other) == state_for(
                    before.virt[index],
                    other,
                )
                &&& !known ==> state_for(after.virt[permit.node as int], other) is Closed
                &&& !known ==> after.virt[permit.node as int].id == node
            }
            &&& lock matches TcpLock::Wait(awaiting) ==> awaiting.channel == channel
                && awaiting.node == index && after == before
            &&& lock is Permit ==> (again matches TcpLock::Wait(awaiting) && awaiting.channel
                == channel && awaiting.node == lock->Permit_0.node)
            &&& lock is Permit ==> final(second)@ == final(first)@
        }),
{
}

/// An attempt to connect ends as its outcome says, and everybody who waits learns the same.
pub proof fn law_outcome_becomes_the_channel_state(
    registry: &mut TcpRegistry,
    permit: &mut TcpPermit,
    result: Result<ConnectionHandle, TcpError>,
    same: Result<ConnectionHandle, TcpError>,
    r: Result<ConnectionHandle, TcpError>,
    other: ChannelDesc,
    k: int,
)
    requires
        old(registry)@.wf(),
        old(permit).node < old(registry)@.virt.len(),
        state_for(old(registry)@.virt[old(permit).node as int], old(permit).channel) is Connecting,
        call_ensures(TcpPermit::finish, (permit, result), same),
        call_ensures(TcpRegistry::async_drop, (registry, *final(permit)), r),
        other != old(permit).channel,
    ensures
        same == result,
        r == result,
        ({
            let node = old(permit).node as int;
            let after = final(registry)@.virt;
            let before = old(registry)@.virt;
            &&& result matches Ok(conn) ==> state_for(after[node], old(permit).channel)
                == TcpState::Connected(conn)
            &&& result matches Err(e) ==> state_for(after[node], old(permit).channel)
                == TcpState::Failed(e)
            &&& state_for(after[node], other) == state_for(before[node], other)
            &&& 0 <= k < before.len() && k != node ==> after[k] == before[k]
        }),
{
}

/// Who waits for a channel gets its connection once there is one, and an error once there will be
/// none.
pub proof fn law_waiting_ends_with_the_channel(
    state: TcpState,
    r: Waiting<Result<ConnectionHandle, TcpError>>,
    notice: TcpNotice,
    told: Result<ConnectionHandle, TcpError>,
)
    requires
        call_ensures(TcpAwaiting::await_for_finish, (state,), r),
        call_ensures(TcpAwaiting::notified, (notice,), told),
    ensures
        r is Pending <==> state is Connecting || state is Closing,
        r matches Waiting::Over(Ok(conn)) ==> state == TcpState::Connected(conn),
        state is Connected ==> (r matches Waiting::Over(Ok(_))),
        told is Ok ==> (notice matches TcpNotice::Result(result) && result is Ok),
        notice matches TcpNotice::Result(result) ==> told == result,
{
}

/// A node that is added is found by its id and by its address, with all channels closed. Nodes with
/// other addresses are found as before.
pub proof fn law_added_node_has_closed_channels(
    registry: &mut TcpRegistry,
    node: NodeId,
    r: usize,
    channel: ChannelDesc,
    found: Result<usize, String>,
    after: &TcpRegistry,
    other: u128,
)
    requires
        old(registry)@.wf(),
        old(registry)@.virt.len() < usize::MAX,
        call_ensures(TcpRegistry::add_virt_node, (registry, node), r),
        after@ == final(registry)@,
        call_ensures(TcpRegistry::resolve_node, (after, node), found),
        other != final(registry)@.ips[node],
    ensures
        ({
            let m = final(registry)@;
            &&& found == Ok::<usize, String>(r)
            &&& r < m.virt.len()
            &&& m.virt[r as int].id == node
            &&& m.virt[r as int].address == m.ips[node]
            &&& m.nodes.contains_key(m.ips[node])
            &&& m.nodes[m.ips[node]] == r
            &&& state_for(m.virt[r as int], channel) is Closed
            &&& m.nodes.contains_key(other) <==> old(registry)@.nodes.contains_key(other)
            &&& old(registry)@.nodes.contains_key(other) ==> m.nodes[other] == old(registry)@.nodes[other]
        }),
{
}

/// When a node is left, connections that were opened to it are closed, and connections that it
/// opened stay.
pub proof fn law_left_node_has_its_connections_closed(
    registry: &mut TcpRegistry,
    node: NodeId,
    kind: ChannelType,
    k: int,
)
    requires
        old(registry)@.wf(),
        old(registry)@.ips.contains_key(node),
        call_ensures(TcpRegistry::remove_node, (registry, node), ()),
    ensures
        ({
            let index = old(registry)@.nodes[old(registry)@.ips[node]] as int;
            let before = old(registry)@.virt;
            let after = final(registry)@.virt;
            let out = ChannelDesc(kind, ChannelDirection::Out);
            let inward = ChannelDesc(kind, ChannelDirection::In);
            &&& state_for(before[index], out) is Connected ==> state_for(after[index], out)
                is Closed
            &&& !(state_for(before[index], out) is Connected) ==> state_for(after[index], out)
                == state_for(before[index], out)
            &&& state_for(after[index], inward) == state_for(before[index], inward)
            &&& 0 <= k < before.len() && k != index ==> after[k] == before[k]
            &&& final(registry)@.ips == old(registry)@.ips
            &&& final(registry)@.nodes == old(registry)@.nodes
        }),
{
}

/// A connection is used only as long as it is the one that the channel has.
pub proof fn law_only_live_connections_are_used(
    sender: &TcpSender,
    registry: &TcpRegistry,
    r: Option<ConnectionHandle>,
)
    requires
        registry@.wf(),
        call_ensures(TcpSender::send, (sender, registry), r),
    ensures
        r is Some ==> r == Some(sender.connection),
        r is Some <==> registry@.ips.contains_key(sender.target) && state_for(
            registry@.virt[registry@.nodes[registry@.ips[sender.target]] as int],
            sender.channel,
        ) == TcpState::Connected(sender.connection),
{
}

/// A sender that lost its connection goes on with the new one, as long as that one is alive, and
/// keeps its target and its channel.
pub proof fn law_sender_goes_on_with_the_new_connection(
    sender: &mut TcpSender,
    registry: &TcpRegistry,
    result: Result<TcpSender, String>,
    r: Result<ConnectionHandle, TcpError>,
)
    requires
        registry@.wf(),
        call_ensures(TcpSender::reconnected, (sender, registry, result), r),
    ensures
        final(sender).target == old(sender).target,
        final(sender).channel == old(sender).channel,
        r is Err ==> final(sender).connection == old(sender).connection,
        r matches Ok(conn) ==> final(sender).connection == conn && (result matches Ok(new)
            && new.connection == conn),
        r is Ok <==> result is Ok && registry@.ips.contains_key(result->Ok_0.target) && state_for(
            registry@.virt[registry@.nodes[registry@.ips[result->Ok_0.target]] as int],
            result->Ok_0.channel,
        ) == TcpState::Connected(result->Ok_0.connection),
{
}

/// A virtual address holds the first bytes of an id, with zeros where there are too few. Only where
/// that would be no address of a single host, one byte differs.
pub proof fn law_virtual_address_holds_the_id(bytes: &[u8], r: u128, i: int)
    requires
        call_ensures(to_ipv6, (bytes,), r),
        0 <= i < 16,
    ensures
        r >= 2,
        r < 0xff00_0000_0000_0000_0000_0000_0000_0000,
        0 < i < 15 ==> be_bytes(r as nat, 16)[i] == if i < bytes@.len() {
            bytes@[i]
        } else {
            0
        },
        i == 0 && bytes@.len() > 0 && bytes@[0] != 0xff ==> be_bytes(r as nat, 16)[0] == bytes@[0],
        i == 0 && bytes@.len() > 0 && bytes@[0] == 0xff ==> be_bytes(r as nat, 16)[0] == 0,
        bytes@.len() >= 16 && bytes@[15] >= 2 ==> be_bytes(r as nat, 16)[15] == bytes@[15],
{
}

/// A packet out of the tcp stack goes to whoever uses the client, under the id of the node whose
/// virtual address it came from, and as a transfer exactly if it came on the port of transfers.
pub proof fn law_ingress_goes_by_address_and_port(
    layer: &TcpLayer,
    event: IngressEvent,
    r: Option<Forwarded>,
)
    requires
        layer@.wf(),
        call_ensures(TcpLayer::ingress_router, (layer, event), r),
    ensures
        r is Some <==> (event matches IngressEvent::Packet {
            tcp,
            remote: SocketEndpoint::Ip { addr, .. },
            local: SocketEndpoint::Ip { .. },
            ..
        } && tcp && layer@.registry.nodes.contains_key(addr)),
        r matches Some(packet) ==> (event matches IngressEvent::Packet {
            remote: SocketEndpoint::Ip { addr, .. },
            local: SocketEndpoint::Ip { port, .. },
            payload,
            ..
        } && packet.payload@ == payload@ && packet.node_id == layer@.registry.virt[
        layer@.registry.nodes[addr] as int].id && (packet.transport is Transfer <==> port == 2) && (
        packet.transport is Reliable <==> port != 2)),
{
}

/// What the tcp stack sends goes to the node whose virtual address it is sent to.
pub proof fn law_egress_goes_by_address(layer: &TcpLayer, remote: u128, r: Option<RoutingSender>)
    requires
        layer@.wf(),
        call_ensures(TcpLayer::egress_router, (layer, remote), r),
    ensures
        r is Some <==> layer@.registry.nodes.contains_key(remote),
        r matches Some(sender) ==> sender.routing is None && sender.target
            == layer@.registry.virt[layer@.registry.nodes[remote] as int].id,
{
}

/// A packet for the tcp stack is handed on as it came, and its node is known from then on.
pub proof fn law_dispatched_packet_makes_its_node_known(
    layer: &mut TcpLayer,
    packet: Forwarded,
    r: Vec<u8>,
    other: NodeId,
)
    requires
        old(layer)@.wf(),
        old(layer)@.registry.virt.len() < usize::MAX,
        call_ensures(TcpLayer::dispatch, (layer, packet), r),
        other != packet.node_id,
    ensures
        r@ == packet.payload@,
        final(layer)@.registry.ips.contains_key(packet.node_id),
        final(layer)@.registry.ips.contains_key(other) <==> old(layer)@.registry.ips.contains_key(other),
        old(layer)@.registry.ips.contains_key(packet.node_id) ==> final(layer)@.registry == old(layer)@.registry,
{
    if old(layer)@.fast_lane.contains_key(packet.node_id) {
        assert(old(layer)@.registry.find(packet.node_id) is Some);
    }
}

/// Packets without guarantees go to whoever uses the client, all others to the tcp stack.
pub proof fn law_guarantees_decide_the_route(transport: TransportType, r: TransportRoute)
    requires
        call_ensures(dispatch, (transport,), r),
    ensures
        r is Ingress <==> transport is Unreliable,
        r is Tcp <==> transport is Reliable || transport is Transfer,
{
}

/// A channel that was set is found for its node and its kind, and changes none other.
pub proof fn law_set_channel_is_found(
    layer: &mut TransportLayer,
    node_id: NodeId,
    transport: TransportType,
    tx: ForwardSender,
    after: &TransportLayer,
    found: Option<ForwardSender>,
    before: &TransportLayer,
    other: NodeId,
    kind: TransportType,
    first: Option<ForwardSender>,
    second: Option<ForwardSender>,
)
    requires
        call_ensures(TransportLayer::set_forward_channel, (layer, node_id, transport, tx), ()),
        after@ == final(layer)@,
        before@ == old(layer)@,
        call_ensures(TransportLayer::forward_channel, (after, node_id, transport), found),
        other != node_id || kind != transport,
        call_ensures(TransportLayer::forward_channel, (before, other, kind), first),
        call_ensures(TransportLayer::forward_channel, (after, other, kind), second),
    ensures
        found == Some(tx),
        second == first,
{
}

/// A channel that exists is used. Otherwise the default id of the node is asked for, and its
/// channel is used under both ids, or else a connection of the right kind is opened to it; what
/// comes out is the channel from then on.
pub proof fn law_forwarding_uses_one_channel(
    layer: &mut TransportLayer,
    node_id: NodeId,
    transport: TransportType,
    event: ForwardEvent,
    r: ForwardAction,
    before: &TransportLayer,
    had: Option<ForwardSender>,
    after: &TransportLayer,
    has: Option<ForwardSender>,
)
    requires
        !(transport is Unreliable),
        call_ensures(TransportLayer::forward_generic, (layer, node_id, transport, event), r),
        before@ == old(layer)@,
        after@ == final(layer)@,
        call_ensures(TransportLayer::forward_channel, (before, node_id, transport), had),
        call_ensures(TransportLayer::forward_channel, (after, node_id, transport), has),
    ensures
        event is Begin ==> after@ == before@,
        event is Begin && had is Some ==> r == ForwardAction::Finish(
            Ok::<ForwardSender, String>(had->Some_0),
        ),
        event is Begin && had is None ==> r is QueryInfo,
        event matches ForwardEvent::Info(Err(e)) ==> after@ == before@ && r
            == ForwardAction::Finish(Err::<ForwardSender, String>(e)),
        r matches ForwardAction::Finish(Ok(tx)) ==> has == Some(tx),
        r matches ForwardAction::Connect { node_id: id, channel } ==> {
            &&& event matches ForwardEvent::Info(Ok(info))
            &&& info@.identities.len() > 0 ==> id == info@.identities[0].node_id
            &&& channel is Messages <==> transport is Reliable
            &&& channel is Transfer <==> transport is Transfer
            &&& after@ == before@
        },
        event matches ForwardEvent::Info(Ok(info)) ==> r is Connect || (
        r matches ForwardAction::Finish(Ok(_))),
        event matches ForwardEvent::Connected { connection: Ok(conn), tx } ==> has == Some(tx)
            && r == (ForwardAction::SpawnReliable { tx, connection: conn }),
        event matches ForwardEvent::Connected { connection: Err(e), tx } ==> has == had && r
            == ForwardAction::Finish(Err::<ForwardSender, String>(e)),
{
}

/// Without guarantees, a channel that exists is used, and otherwise the way that was found becomes
/// the channel, unless another one came first.
pub proof fn law_unreliable_forwarding_uses_one_channel(
    layer: &mut TransportLayer,
    node_id: NodeId,
    event: ForwardEvent,
    r: ForwardAction,
    before: &TransportLayer,
    had: Option<ForwardSender>,
    after: &TransportLayer,
    has: Option<ForwardSender>,
)
    requires
        call_ensures(TransportLayer::forward_unreliable, (layer, node_id, event), r),
        before@ == old(layer)@,
        after@ == final(layer)@,
        call_ensures(
            TransportLayer::forward_channel,
            (before, node_id, TransportType::Unreliable),
            had,
        ),
        call_ensures(
            TransportLayer::forward_channel,
            (after, node_id, TransportType::Unreliable),
            has,
        ),
    ensures
        had is Some ==> has == had,
        event is Begin && had is Some ==> r == ForwardAction::Finish(
            Ok::<ForwardSender, String>(had->Some_0),
        ),
        event is Begin && had is None ==> r is Route && has is None,
        event matches ForwardEvent::Routed { route: Ok(way), tx } ==> if had is Some {
            r == ForwardAction::Finish(Ok::<ForwardSender, String>(had->Some_0))
        } else {
            has == Some(tx) && r == (ForwardAction::SpawnUnreliable { tx, route: way })
        },
        event matches ForwardEvent::Routed { route: Err(e), tx } ==> has == had && r
            == ForwardAction::Finish(Err::<ForwardSender, String>(e)),
        after@.reliable == before@.reliable,
        after@.transfer == before@.transfer,
{
}

/// A node that is left loses its channel without guarantees, and no other does.
pub proof fn law_left_node_loses_its_channel(
    layer: &mut TransportLayer,
    node_id: NodeId,
    r: Option<ForwardSender>,
    other: NodeId,
)
    requires
        call_ensures(TransportLayer::remove_node, (layer, node_id), r),
        other != node_id,
    ensures
        r is Some <==> old(layer)@.unreliable.contains_key(node_id),
        r is Some ==> r == Some(old(layer)@.unreliable[node_id]),
        !final(layer)@.unreliable.contains_key(node_id),
        final(layer)@.unreliable.contains_key(other) <==> old(layer)@.unreliable.contains_key(
            other,
        ),
        old(layer)@.unreliable.contains_key(other) ==> final(layer)@.unreliable[other] == old(layer)@.unreliable[other],
        final(layer)@.reliable == old(layer)@.reliable,
        final(layer)@.transfer == old(layer)@.transfer,
{
}

/// A node that was asked for is found by its id and by its slot, until it is removed. The slot of
/// direct sessions never leads to a node.
pub proof fn law_asked_for_node_is_found(
    first: &mut NodesRegistry,
    node_id: NodeId,
    session: RawSession,
    slot: SlotId,
    entry: NodeEntry,
    known: &NodesRegistry,
    by_id: Result<NodeEntry, String>,
    by_slot: Result<NodeEntry, String>,
    second: &mut NodesRegistry,
    gone: &NodesRegistry,
    lost: Result<NodeEntry, String>,
    lost_slot: Result<NodeEntry, String>,
)
    requires
        old(first)@.wf(),
        call_ensures(NodesRegistry::add_node, (first, node_id, session, slot), entry),
        known@ == final(first)@,
        call_ensures(NodesRegistry::get_node, (known, node_id), by_id),
        call_ensures(NodesRegistry::get_node_by_slot, (known, slot), by_slot),
        old(second)@ == final(first)@,
        call_ensures(NodesRegistry::remove_node, (second, node_id), ()),
        gone@ == final(second)@,
        call_ensures(NodesRegistry::get_node, (gone, node_id), lost),
        call_ensures(NodesRegistry::get_node_by_slot, (gone, slot), lost_slot),
    ensures
        entry.id == node_id,
        entry.session == session,
        entry.slot == slot,
        by_id == Ok::<NodeEntry, String>(entry),
        slot != 0 ==> by_slot == Ok::<NodeEntry, String>(entry),
        slot == 0 ==> by_slot is Err,
        lost is Err,
        lost_slot is Err,
{
}

/// Adding or removing a node leaves other nodes as they were.
pub proof fn law_other_asked_for_nodes_stay(
    first: &mut NodesRegistry,
    node_id: NodeId,
    session: RawSession,
    slot: SlotId,
    entry: NodeEntry,
    second: &mut NodesRegistry,
    other: NodeId,
)
    requires
        old(first)@.wf(),
        call_ensures(NodesRegistry::add_node, (first, node_id, session, slot), entry),
        old(second)@ == final(first)@,
        call_ensures(NodesRegistry::remove_node, (second, node_id), ()),
        other != node_id,
    ensures
        final(first)@.nodes.contains_key(other) <==> old(first)@.nodes.contains_key(other),
        old(first)@.nodes.contains_key(other) ==> final(first)@.nodes[other] == old(first)@.nodes[other],
        final(second)@.nodes.contains_key(other) <==> old(first)@.nodes.contains_key(other),
        old(first)@.nodes.contains_key(other) ==> final(second)@.nodes[other] == old(first)@.nodes[other],
{
}

/// Whatever was asked for when a client was built holds of it, and nothing else changes.
pub proof fn law_builder_keeps_what_was_asked(
    url: String,
    fresh: ClientBuilder,
    fail_fast: FailFast,
    connecting: ClientBuilder,
    bind: String,
    listening: ClientBuilder,
    expiration: u64,
    expiring: ClientBuilder,
    from: Surroundings,
    r: Result<ClientConfig, String>,
)
    requires
        call_ensures(ClientBuilder::from_url, (url,), fresh),
        call_ensures(ClientBuilder::connect, (fresh, fail_fast), connecting),
        call_ensures(ClientBuilder::listen, (connecting, bind), listening),
        call_ensures(ClientBuilder::expire_session_after, (listening, expiration), expiring),
        call_ensures(ClientBuilder::build_config, (expiring, from), r),
    ensures
        expiring.srv_url == url,
        r is Ok <==> from.identity is Ok && from.max_transmission_unit is Ok && from.srv_addr
            is Ok,
        r matches Ok(c) ==> {
            &&& c.auto_connect
            &&& c.auto_connect_fail_fast <==> fail_fast is Yes
            &&& c.bind_url@ == bind@
            &&& c.session_expiration == expiration
            &&& c.node_id == from.identity->Ok_0.0
            &&& c.node_pub_key == from.identity->Ok_0.1
            &&& c.srv_addr == from.srv_addr->Ok_0
            &&& c.max_transmission_unit == from.max_transmission_unit->Ok_0
        },
{
}

/// A client that was not asked for anything neither connects by itself nor fails fast.
pub proof fn law_defaults_ask_for_nothing(
    url: String,
    fresh: ClientBuilder,
    from: Surroundings,
    r: Result<ClientConfig, String>,
)
    requires
        call_ensures(ClientBuilder::from_url, (url,), fresh),
        call_ensures(ClientBuilder::build_config, (fresh, from), r),
    ensures
        r matches Ok(c) ==> !c.auto_connect && !c.auto_connect_fail_fast && c.bind_url@
            == "udp://0.0.0.0:0"@ && c.session_request_timeout < c.challenge_request_timeout
            && c.challenge_request_timeout < c.incoming_session_timeout
            && c.reverse_connection_tmp_timeout < c.reverse_connection_real_timeout
            && c.reverse_connection_real_timeout < c.incoming_session_timeout
            && c.session_expiration < c.ping_measure_interval,
{
}

/// The session with the relay server is kept in the background exactly if the client connects by
/// itself and does not fail fast. Packets are received and silent sessions closed in any case.
pub proof fn law_background_work_is_done(layer: &SessionLayer, r: Vec<BackgroundTask>)
    requires
        call_ensures(SessionLayer::background_tasks, (layer,), r),
    ensures
        r@.contains(BackgroundTask::KeepAlive) <==> layer@.config.auto_connect
            && !layer@.config.auto_connect_fail_fast,
        r@.contains(BackgroundTask::Dispatch),
        r@.contains(BackgroundTask::TrackExpiration),
        r@.no_duplicates(),
{
    assert(r@[0] == BackgroundTask::Dispatch);
    assert(r@[1] == BackgroundTask::TrackExpiration);
    if r@.len() == 3 {
        assert(r@[2] == BackgroundTask::KeepAlive);
    }
}

/// New encryption with a node is taken over only while the way to the node is the one that it was
/// agreed for. The new way goes over the same session, under every id of the node.
pub proof fn law_new_encryption_is_used(
    layer: &mut SessionLayer,
    node_id: NodeId,
    owner: &NodeSnapshot,
    original: u64,
    info: &NodeInfo,
    encryption: SessionEncryption,
    now: i64,
    r: Result<u64, SessionError>,
    i: int,
)
    requires
        old(layer)@.wf(),
        old(layer)@.registry.nodes.len() < usize::MAX,
        old(layer)@.next_number < u64::MAX,
        call_ensures(
            SessionLayer::publish_encryption_refresh,
            (layer, node_id, owner, original, info, encryption, now),
            r,
        ),
        0 <= i < info@.identities.len(),
    ensures
        r is Err ==> final(layer)@ == old(layer)@,
        r is Ok ==> {
            let before = old(layer)@;
            let after = final(layer)@;
            let id = info@.identities[i].node_id;
            &&& before.nodes.contains_key(node_id)
            &&& before.nodes[node_id].number == original
            &&& after.nodes.contains_key(id)
            &&& after.nodes[id].encryption == encryption
            &&& after.nodes[id].route == before.nodes[node_id].route
            &&& after.nodes[id].number != original
            &&& after.nodes[id].generation == owner.generation
            &&& after.nodes[id].authenticated_identities == info@.authenticated_identities
            &&& after.nodes[id].node.default_id == info@.identities[0]
            &&& ({
                let route = before.nodes[node_id].route;
                let relayed = before.nodes[node_id].node.default_id.node_id
                    != before.sessions[route].owner.default_id;
                &&& relayed ==> after.sessions[route].forwards.nodes.contains_key(id)
                    && after.sessions[route].forwards.nodes[id] == info@.slot
                &&& !relayed ==> after.sessions[route] == before.sessions[route]
            })
            &&& after.p2p_nodes == before.p2p_nodes
            &&& after.p2p_sessions == before.p2p_sessions
        },
{
    let ids = crate::model::ids_of(info@.identities);
    assert(ids[i] == info@.identities[i].node_id);
    assert(ids.contains(info@.identities[i].node_id));
    if r is Ok {
        let m = old(layer)@;
        assert(m.nodes[node_id].number < m.next_number);
        let entry = crate::direct_session::EntryModel {
            default_id: info@.identities[0],
            identities: info@.identities,
        };
        crate::direct_session::lemma_added_is_found(
            m.sessions[m.nodes[node_id].route].forwards,
            crate::direct_session::entry_ids(entry),
            info@.slot,
        );
        assert(crate::direct_session::entry_ids(entry).identities.contains(
            info@.identities[i].node_id,
        ));
    }
}

/// Encryption with a node can be agreed upon anew exactly while its session is the one in use at its
/// address and the way to the node came from the latest attempt.
pub proof fn law_encryption_is_refreshed_for_current_ways(
    layer: &SessionLayer,
    node_id: NodeId,
    r: Option<(NodeSnapshot, u64)>,
)
    requires
        layer@.wf(),
        call_ensures(SessionLayer::refresh_node_encryption, (layer, node_id), r),
    ensures
        ({
            let m = layer@;
            let way = m.nodes[node_id];
            let remote = m.sessions[way.route].raw.remote;
            let id = way.node.default_id.node_id;
            &&& r is Some <==> {
                &&& m.nodes.contains_key(node_id)
                &&& m.sessions.contains_key(way.route)
                &&& m.p2p_sessions.contains_key(remote)
                &&& m.p2p_sessions[remote] == way.route
                &&& m.registry.by_node_id.contains_key(id)
                &&& m.registry.nodes[m.registry.by_node_id[id] as int].generation == way.generation
            }
            &&& r matches Some((owner, original)) ==> owner.id == id && owner.generation
                == way.generation && owner.index == m.registry.by_node_id[id] && original
                == way.number
        }),
{
}

/// The network of a node is named by as many digits as its first bytes take.
pub proof fn law_network_name_has_the_first_bytes(id: &NodeId, r: String)
    requires
        call_ensures(crate::virtual_layer::network_name, (id,), r),
    ensures
        r@.len() == 8,
        crate::laws::values::digit_value(r@[7]) == id.high / 0x1_0000_0000_0000_0000_0000_0000 % 16,
{
    let n = (id.high / 0x1_0000_0000_0000_0000_0000_0000) as nat;
    crate::laws::values::lemma_hex_fixed(n, 8);
    crate::laws::values::lemma_digit(n % 16);
}

} // verus!
