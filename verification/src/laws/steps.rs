//! What runs step by step runs by the relations that the other promises speak of.
use vstd::prelude::*;

use crate::config::ClientConfig;
use crate::connect::{
    connect_stepped, resolve_stepped, reverse_stepped, ConnectAction, ConnectEvent, Connecting,
    ResolveAction, ResolveEvent, ReverseAction, ReverseAttempt, ReverseEvent, ServerReady,
};
use crate::error::{SessionError, SessionInitError};
use crate::manager_init::{init_stepped, InitAction, InitEvent, Initialization};
use crate::model::{NodeId, SessionHandle, SessionId, SocketAddr};
use crate::network_view::{NetworkView, NodeAwaiting, NodeView, SessionPermit};
use crate::session_initializer::{
    incoming_stepped, outgoing_stepped, IncomingAction, IncomingEvent, IncomingHandshake,
    OutgoingAction, OutgoingEvent, OutgoingHandshake,
};
use crate::session_layer::{ConnectionMethod, SessionLayer};
use crate::session_manager::SessionManager;
use crate::session_state::{RelayedState, SessionState};

verus! {

/// Every event of an outgoing handshake is one step of it, and changes the state of no other node.
pub proof fn law_outgoing_handshake_goes_step_by_step(
    handshake: &mut OutgoingHandshake,
    view: &mut NetworkView,
    event: OutgoingEvent,
    r: OutgoingAction,
    k: int,
)
    requires
        old(view)@.wf(),
        old(view)@.has(old(handshake).node),
        call_ensures(OutgoingHandshake::init_session, (handshake, view, event), r),
    ensures
        outgoing_stepped(*old(handshake), old(view)@, event, *final(handshake), final(view)@, r),
        final(handshake).addr == old(handshake).addr,
        final(handshake).node == old(handshake).node,
        final(handshake).challenge == old(handshake).challenge,
        final(view)@.by_node_id == old(view)@.by_node_id,
        final(view)@.by_addr == old(view)@.by_addr,
        final(view)@.nodes.len() == old(view)@.nodes.len(),
        0 <= k < old(view)@.nodes.len() && k != old(handshake).node.index ==> final(view)@.nodes[k]
            == old(view)@.nodes[k],
{
}

/// Every event of an incoming handshake is one step of it, and changes the state of no other node.
pub proof fn law_incoming_handshake_goes_step_by_step(
    handshake: &mut IncomingHandshake,
    view: &mut NetworkView,
    event: IncomingEvent,
    r: IncomingAction,
    k: int,
)
    requires
        old(view)@.wf(),
        old(view)@.has(old(handshake).node),
        call_ensures(IncomingHandshake::init_session_handler, (handshake, view, event), r),
    ensures
        incoming_stepped(*old(handshake), old(view)@, event, *final(handshake), final(view)@, r),
        final(handshake).with == old(handshake).with,
        final(handshake).node == old(handshake).node,
        final(handshake).session_id == old(handshake).session_id,
        final(handshake).request_id == old(handshake).request_id,
        final(view)@.by_node_id == old(view)@.by_node_id,
        final(view)@.by_addr == old(view)@.by_addr,
        0 <= k < old(view)@.nodes.len() && k != old(handshake).node.index ==> final(view)@.nodes[k]
            == old(view)@.nodes[k],
{
}

/// Handshakes start at their first step, with whom and as they were asked to be held.
pub proof fn law_handshakes_start_at_the_beginning(
    config: &ClientConfig,
    addr: SocketAddr,
    node: NodeView,
    challenge: bool,
    outgoing: OutgoingHandshake,
    session_id: SessionId,
    request_id: u64,
    incoming: IncomingHandshake,
    node_id: Option<NodeId>,
    managed: Initialization,
    to: NodeId,
    dont_use: Vec<ConnectionMethod>,
    connecting: Connecting,
)
    requires
        call_ensures(OutgoingHandshake::new, (config, addr, node, challenge), outgoing),
        call_ensures(
            IncomingHandshake::new,
            (addr, node, session_id, request_id, challenge),
            incoming,
        ),
        call_ensures(Initialization::new, (addr, challenge, node_id), managed),
        call_ensures(Connecting::new, (to, dont_use), connecting),
    ensures
        outgoing.step is Start,
        outgoing.addr == addr,
        outgoing.node == node,
        outgoing.challenge == challenge,
        outgoing.session_request_timeout == config.session_request_timeout,
        outgoing.challenge_request_timeout == config.challenge_request_timeout,
        incoming.step is Start,
        incoming.with == addr,
        incoming.node == node,
        incoming.session_id == session_id,
        incoming.request_id == request_id,
        incoming.challenged == challenge,
        incoming.recovered is None,
        managed.step is Start,
        managed.addr == addr,
        managed.challenge == challenge,
        managed.node_id == node_id,
        connecting.step is Begin,
        connecting.node_id == to,
        connecting.dont_use@ == dont_use@,
{
}

/// While an own solution is on its way, packets over the new session are held back, and those over
/// others are not.
pub proof fn law_new_session_is_held_back(
    layer: &mut SessionLayer,
    handshake: &mut IncomingHandshake,
    event: IncomingEvent,
    r: IncomingAction,
    other: SessionHandle,
)
    requires
        old(layer)@.wf(),
        old(layer)@.registry.has(old(handshake).node),
        call_ensures(SessionLayer::init_session_handler, (layer, handshake, event), r),
    ensures
        incoming_stepped(
            *old(handshake),
            old(layer)@.registry,
            event,
            *final(handshake),
            final(layer)@.registry,
            r,
        ),
        r matches IncomingAction::Respond { session, .. } ==> old(layer)@.sessions.contains_key(
            session,
        ) ==> final(layer)@.sessions[session].forward_pause && final(layer)@.sessions[session].forwards == old(layer)@.sessions[session].forwards,
        !(r is Respond) || r->session != other ==> (final(layer)@.sessions.contains_key(other)
            <==> old(layer)@.sessions.contains_key(other)) && (old(layer)@.sessions.contains_key(other) ==> final(layer)@.sessions[other] == old(layer)@.sessions[other]),
        final(layer)@.nodes == old(layer)@.nodes,
        final(layer)@.p2p_nodes == old(layer)@.p2p_nodes,
        final(layer)@.p2p_sessions == old(layer)@.p2p_sessions,
{
}

/// Every event of looking for a way to a node is one step of it, and changes no session.
pub proof fn law_ways_are_looked_for_step_by_step(
    layer: &mut SessionLayer,
    node_id: NodeId,
    permit: &SessionPermit,
    dont_use: &Vec<ConnectionMethod>,
    event: ResolveEvent,
    r: ResolveAction,
)
    requires
        old(layer)@.wf(),
        old(layer)@.registry.has(permit.registry),
        call_ensures(SessionLayer::resolve, (layer, node_id, permit, dont_use, event), r),
    ensures
        resolve_stepped(
            old(layer)@.registry,
            *permit,
            node_id,
            dont_use@,
            event,
            final(layer)@.registry,
            r,
        ),
        final(layer)@.sessions == old(layer)@.sessions,
        final(layer)@.nodes == old(layer)@.nodes,
        final(layer)@.p2p_nodes == old(layer)@.p2p_nodes,
        r matches ResolveAction::Try(method) ==> !dont_use@.contains(method),
{
}

/// Every event of a reverse connection is one step of it, and changes no session.
pub proof fn law_reverse_connection_goes_step_by_step(
    layer: &mut SessionLayer,
    attempt: &mut ReverseAttempt,
    permit: &SessionPermit,
    event: ReverseEvent,
    r: ReverseAction,
)
    requires
        old(layer)@.wf(),
        old(layer)@.registry.has(permit.registry),
        call_ensures(SessionLayer::try_reverse_connection, (layer, attempt, permit, event), r),
    ensures
        reverse_stepped(
            old(layer)@,
            *permit,
            *old(attempt),
            event,
            final(layer)@,
            *final(attempt),
            r,
        ),
        final(attempt).node_id == old(attempt).node_id,
        final(layer)@.sessions == old(layer)@.sessions,
        final(layer)@.nodes == old(layer)@.nodes,
        r matches ReverseAction::Finish(Ok(session)) ==> event == ReverseEvent::Finished(
            Ok::<SessionHandle, SessionError>(session),
        ),
{
}

/// Every event of connecting to a node is one step of it, and changes no session.
pub proof fn law_connecting_goes_step_by_step(
    layer: &mut SessionLayer,
    request: &mut Connecting,
    event: ConnectEvent,
    now: i64,
    r: ConnectAction,
)
    requires
        old(layer)@.wf(),
        old(layer)@.registry.nodes.len() < usize::MAX,
        call_ensures(
            SessionLayer::session_filtered_connection_methods,
            (layer, request, event, now),
            r,
        ),
    ensures
        connect_stepped(
            old(layer)@,
            *old(request),
            event,
            now,
            final(layer)@,
            *final(request),
            r,
        ),
        final(request).node_id == old(request).node_id,
        final(request).dont_use@ == old(request).dont_use@,
        final(layer)@.sessions == old(layer)@.sessions,
        final(layer)@.nodes == old(layer)@.nodes,
        r matches ConnectAction::Finish { result: Ok(sender), .. } ==> sender.target == old(request).node_id || old(request).step is Awaiting,
{
}

/// Every event of a managed initialization is one step of it.
pub proof fn law_initialization_goes_step_by_step(
    handshake: &mut Initialization,
    manager: &mut SessionManager,
    event: InitEvent,
    r: (InitAction, Option<u64>),
)
    requires
        old(manager)@.wf(),
        call_ensures(Initialization::init_session, (handshake, manager, event), r),
    ensures
        init_stepped(*old(handshake), old(manager)@, event, *final(handshake), final(manager)@, r),
        final(manager)@.registry == old(manager)@.registry,
        final(manager)@.p2p_sessions == old(manager)@.p2p_sessions,
        final(manager)@.nodes_addr == old(manager)@.nodes_addr,
{
}

/// A relayed connection begins exactly where the state of the node lets it, and changes that state
/// alone.
pub proof fn law_relayed_connection_begins(
    layer: &mut SessionLayer,
    permit: &SessionPermit,
    r: Result<(), SessionError>,
    k: int,
)
    requires
        old(layer)@.wf(),
        old(layer)@.registry.has(permit.registry),
        call_ensures(SessionLayer::begin_relayed_connection, (layer, permit), r),
    ensures
        ({
            let index = permit.registry.index as int;
            let before = old(layer)@.registry.nodes;
            let after = final(layer)@.registry.nodes;
            &&& r is Ok ==> after[index].state == SessionState::Relayed(RelayedState::Initializing)
            &&& r is Err ==> final(layer)@ == old(layer)@
            &&& before[index].state is RestartConnect ==> r is Ok
            &&& before[index].state is Established || before[index].state is Closed
                || before[index].state is Closing ==> r is Err
            &&& 0 <= k < before.len() && k != index ==> after[k] == before[k]
            &&& final(layer)@.sessions == old(layer)@.sessions
            &&& final(layer)@.nodes == old(layer)@.nodes
        }),
{
}

/// A session with the relay server is handed on, and the first endpoint that can be read becomes the
/// public address. A failure is handed on as well, and changes nothing.
pub proof fn law_server_session_tells_the_public_address(
    layer: &mut SessionLayer,
    outcome: Result<SessionHandle, SessionInitError>,
    endpoints: Result<Vec<Option<SocketAddr>>, SessionError>,
    r: Result<(SessionHandle, bool), SessionError>,
)
    requires
        old(layer)@.wf(),
        call_ensures(SessionLayer::try_server_session, (layer, outcome, endpoints), r),
    ensures
        r is Ok <==> old(layer)@.protocol is Some && outcome is Ok && endpoints is Ok,
        r is Err ==> final(layer)@ == old(layer)@,
        r matches Ok((session, public)) ==> {
            let list = endpoints->Ok_0@;
            &&& session == outcome->Ok_0
            &&& list.len() > 0 && list[0] is Some ==> public && final(layer)@.public_addr == list[0]
            &&& list.len() == 0 ==> !public
            &&& !public ==> final(layer)@.public_addr == old(layer)@.public_addr
            &&& public ==> final(layer)@.public_addr is Some
            &&& final(layer)@.sessions == old(layer)@.sessions
            &&& final(layer)@.nodes == old(layer)@.nodes
        },
        old(layer)@.protocol is Some && outcome is Ok && endpoints is Err ==> (
        r matches Err(error) && error == endpoints->Err_0),
{
}

/// A session with the relay server is watched once it is established, and a failure is reported.
pub proof fn law_established_server_session_is_watched(
    result: Result<SessionHandle, SessionError>,
    r: ServerReady,
)
    requires
        call_ensures(SessionLayer::server_established, (result,), r),
    ensures
        result matches Ok(session) ==> r.watch == Some(session) && (r.result matches Ok(s) && s
            == session),
        result is Err ==> r.watch is None && r.result is Err,
{
}

/// Whoever waits for a node waits for the entry under its id, if there is one.
pub proof fn law_waiting_is_for_the_right_node(
    layer: &SessionLayer,
    node_id: NodeId,
    r: Result<NodeAwaiting, SessionError>,
)
    requires
        layer@.wf(),
        call_ensures(SessionLayer::await_connected, (layer, node_id), r),
    ensures
        r is Ok <==> layer@.registry.by_node_id.contains_key(node_id),
        r matches Ok(awaiting) ==> awaiting.registry.index == layer@.registry.by_node_id[node_id],
{
}

} // verus!
