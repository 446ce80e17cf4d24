//! Promises about packets: who they come from, where they go, and what they make happen.
use vstd::prelude::*;

use crate::direct_session::{
    lemma_added_is_found, lemma_added_keeps_others, lemma_removed_is_gone,
    lemma_removed_keeps_others, AllowedForwards, DirectSession, Forward, NodeEntry,
};
use crate::encryption::{
    new, supported_encryptions, Encryption, EncryptionFeatures, SessionEncryption,
};
use crate::error::{EncryptionError, SessionError};
use crate::metrics::{
    metric_session_closed, metric_session_established, CounterIncrement, GaugeUpdate,
};
use crate::model::{
    lemma_node_id_bytes_injective, lemma_session_id_bytes_injective, NodeId, SessionHandle,
    SessionId, SessionType, SlotId, SocketAddr, TransportType,
};
use crate::routing_session::RoutingSender;
use crate::session_control::Sending;
use crate::session_events::{
    readable, readable_endpoints, By, ControlAction, ControlKind, Disconnected, ForwardAction,
    IncomingForward, RequestAction, RequestKind, ReverseConnection, SessionDispatch,
};
use crate::session_initializer::MAX_INCOMING_HANDSHAKES;
use crate::session_layer::{Closed, ConnectionMethod, LayerModel, SessionLayer};
use crate::session_state::{InitState, ReverseState, SessionState};

verus! {

/// A request came before, from the same address and within the same session.
pub open spec fn came_before(
    m: LayerModel,
    session_id: Seq<u8>,
    request_id: u64,
    from: SocketAddr,
) -> bool {
    exists|i: int|
        0 <= i < m.requests.len() && (#[trigger] m.requests[i]).from == from
            && m.requests[i].session_id == session_id && m.requests[i].request_id == request_id
}

/// Sessions, ways to nodes and what is known of them are as they were.
pub open spec fn same_sessions(a: LayerModel, b: LayerModel) -> bool {
    &&& a.sessions == b.sessions
    &&& a.nodes == b.nodes
    &&& a.p2p_nodes == b.p2p_nodes
    &&& a.p2p_sessions == b.p2p_sessions
}

proof fn lemma_came_before(m: LayerModel, session_id: Seq<u8>, request_id: u64, from: SocketAddr)
    ensures
        m.requests.contains(
            crate::requests::FingerprintModel { from, session_id, request_id },
        ) <==> came_before(m, session_id, request_id, from),
{
    let wanted = crate::requests::FingerprintModel { from, session_id, request_id };
    if m.requests.contains(wanted) {
        let i = choose|i: int| 0 <= i < m.requests.len() && m.requests[i] == wanted;
        assert(m.requests[i].from == from);
    }
    if came_before(m, session_id, request_id, from) {
        let i = choose|i: int|
            0 <= i < m.requests.len() && (#[trigger] m.requests[i]).from == from
                && m.requests[i].session_id == session_id && m.requests[i].request_id
                == request_id;
        assert(m.requests[i] == wanted);
    }
}

/// A request is answered unless it came before. A ping is answered to its sender under its own
/// ids. A handshake starts exactly if the request belongs to no session yet, its sender has none
/// under way, and not too many others have. Whatever was answered is remembered.
pub proof fn law_new_requests_are_answered(
    layer: &mut SessionLayer,
    session_id: Vec<u8>,
    request_id: u64,
    kind: Option<RequestKind>,
    from: SocketAddr,
    r: RequestAction,
)
    requires
        old(layer)@.wf(),
        call_ensures(SessionLayer::on_request, (layer, session_id, request_id, kind, from), r),
    ensures
        ({
            let before = old(layer)@;
            let after = final(layer)@;
            let fresh = kind is Some && !came_before(before, session_id@, request_id, from);
            let p = before.protocol->Some_0;
            &&& !fresh ==> after == before && r is Nothing
            &&& fresh ==> after.requests.len() > 0 && after.requests.last().from == from
                && after.requests.last().session_id == session_id@
                && after.requests.last().request_id == request_id
            &&& r is Pong <==> fresh && kind == Some(RequestKind::Ping)
            &&& r matches RequestAction::Pong { session_id: id, request_id: answered, to } ==> id@
                == session_id@ && answered == request_id && to == from
            &&& r is Hello <==> fresh && kind->Some_0 is Session && session_id@.len() == 0
                && before.protocol is Some && !p.admitted.contains_key(from) && p.admitted.len()
                < MAX_INCOMING_HANDSHAKES
            &&& r matches RequestAction::Hello { request_id: answered, request } ==> {
                &&& answered == request_id
                &&& kind == Some(RequestKind::Session(request))
                &&& after.protocol is Some
                &&& after.protocol->Some_0.admitted.contains_key(from)
            }
            &&& same_sessions(after, before)
            &&& after.registry == before.registry
        }),
{
    lemma_came_before(old(layer)@, session_id@, request_id, from);
}

/// A request for a handshake under way goes to that handshake: exactly if it comes from the address
/// that the handshake is held with, and no other request waits there.
pub proof fn law_handshake_gets_its_requests(
    layer: &mut SessionLayer,
    session_id: Vec<u8>,
    request_id: u64,
    kind: Option<RequestKind>,
    from: SocketAddr,
    r: RequestAction,
    id: SessionId,
    other: SessionId,
)
    requires
        old(layer)@.wf(),
        call_ensures(SessionLayer::on_request, (layer, session_id, request_id, kind, from), r),
        kind is Some,
        kind->Some_0 is Session,
        !came_before(old(layer)@, session_id@, request_id, from),
        old(layer)@.protocol is Some,
        id.bytes() == session_id@,
        other != id,
    ensures
        ({
            let before = old(layer)@.protocol->Some_0;
            let after = final(layer)@.protocol->Some_0;
            let waiting = before.incoming.contains_key(id) && before.incoming[id].remote == from
                && before.incoming[id].queued is None;
            &&& final(layer)@.protocol is Some
            &&& waiting ==> after.incoming[id].queued == Some((request_id, kind->Some_0->Session_0))
                && after.incoming[id].remote == from
            &&& !waiting ==> after.incoming == before.incoming
            &&& after.incoming.contains_key(other) <==> before.incoming.contains_key(other)
            &&& before.incoming.contains_key(other) ==> after.incoming[other]
                == before.incoming[other]
            &&& after.admitted == before.admitted
            &&& after.tmp == before.tmp
        }),
{
    lemma_came_before(old(layer)@, session_id@, request_id, from);
    crate::model::lemma_be_len(id.value as nat, 16);
    assert forall|a: SessionId| #[trigger] a.bytes() == session_id@ implies a == id by {
        lemma_session_id_bytes_injective(a, id);
    }
}

/// The first request of a handshake gets the permit to hold it where the session with the sender is
/// closed or failed, or the sender was asked to connect back; otherwise it waits for the attempt
/// under way. It needs a readable sender.
pub proof fn law_first_request_gets_the_permit(
    layer: &mut SessionLayer,
    session_id: Vec<u8>,
    request_id: u64,
    from: SocketAddr,
    request: crate::session_initializer::SessionRequest,
    remote_id: Result<NodeId, String>,
    now: i64,
    r: Result<SessionDispatch, SessionError>,
)
    requires
        old(layer)@.wf(),
        old(layer)@.registry.nodes.len() < usize::MAX,
        call_ensures(
            SessionLayer::dispatch_session,
            (layer, session_id, request_id, from, request, remote_id, now),
            r,
        ),
        session_id@.len() == 0,
    ensures
        r is Ok <==> old(layer)@.protocol is Some && remote_id is Ok,
        r is Err ==> final(layer)@ == old(layer)@,
        same_sessions(final(layer)@, old(layer)@),
        final(layer)@.protocol == old(layer)@.protocol,
        r is Ok ==> {
            let known = old(layer)@.registry;
            let id = remote_id->Ok_0;
            let index = known.by_node_id[id] as int;
            let state = known.nodes[index].state;
            &&& !(r->Ok_0 is Continued)
            &&& known.by_node_id.contains_key(id) ==> {
                let after = final(layer)@.registry.nodes[index].state;
                &&& r->Ok_0 is NewSession <==> state is Closed || state is FailedEstablish || state
                    == SessionState::ReverseConnection(ReverseState::Awaiting)
                &&& r->Ok_0 is NewSession ==> (after == SessionState::Incoming(
                    InitState::ConnectIntent,
                ) || after == SessionState::ReverseConnection(
                    ReverseState::InProgress(InitState::ConnectIntent),
                ))
                &&& r->Ok_0 is InProgress ==> after == state
            }
        },
{
}

/// Packets over a session are held back or let through exactly where the other party of that very
/// session asks for it, told apart by its address.
pub proof fn law_control_is_for_the_own_session(
    layer: &mut SessionLayer,
    session_id: Vec<u8>,
    control: Option<ControlKind>,
    from: SocketAddr,
    now: i64,
    r: ControlAction,
    other: SessionHandle,
)
    requires
        old(layer)@.wf(),
        old(layer)@.registry.nodes.len() < usize::MAX,
        call_ensures(SessionLayer::on_control, (layer, session_id, control, from, now), r),
    ensures
        ({
            let before = old(layer)@;
            let after = final(layer)@;
            let h = before.p2p_sessions[from];
            let pause = control == Some(ControlKind::PauseForwarding);
            let resume = control == Some(ControlKind::ResumeForwarding);
            &&& r is Forwarding <==> before.p2p_sessions.contains_key(from) && (pause || resume)
            &&& r is Forwarding ==> {
                &&& r == (ControlAction::Forwarding { session: h, paused: pause })
                &&& after.sessions[h].forward_pause == pause
                &&& after.sessions[h].forwards == before.sessions[h].forwards
                &&& after.sessions[h].owner == before.sessions[h].owner
                &&& other != h && before.sessions.contains_key(other) ==> after.sessions[other]
                    == before.sessions[other]
                &&& after.nodes == before.nodes
                &&& after.registry == before.registry
            }
            &&& control is None || control == Some(ControlKind::Other) ==> after == before && r
                is Nothing
            &&& control matches Some(ControlKind::ReverseConnection(message)) ==> after == before
                && r == ControlAction::ReverseConnection(message)
            &&& r is Disconnected <==> (control matches Some(ControlKind::Disconnected(by)) && by
                is Some)
        }),
{
}

/// A message that a session is closed closes the session with its sender, exactly if the message
/// names that very session and was sent within it. Other sessions are none of its business.
pub proof fn law_only_the_own_session_is_closed(
    layer: &mut SessionLayer,
    session_id: Vec<u8>,
    from: SocketAddr,
    to_close: Vec<u8>,
    now: i64,
    r: Result<Disconnected, String>,
)
    requires
        old(layer)@.wf(),
        old(layer)@.registry.nodes.len() < usize::MAX,
        call_ensures(
            SessionLayer::on_disconnected,
            (layer, session_id, from, By::SessionId(to_close), now),
            r,
        ),
        old(layer)@.p2p_sessions.contains_key(from),
    ensures
        ({
            let before = old(layer)@;
            let after = final(layer)@;
            let session = before.sessions[before.p2p_sessions[from]];
            let meant = session.raw.id.bytes() == session_id@ && to_close@ == session_id@
                && session_id@.len() == 16;
            &&& meant <==> (r matches Ok(Disconnected::Session(_)))
            &&& !meant ==> r is Err && after == before
            &&& r matches Ok(Disconnected::Session(Ok(closed))) ==> {
                &&& closed.disconnect == Some(session.raw)
                &&& closed.target == session.owner.default_id
                &&& !after.p2p_sessions.contains_key(from)
                &&& forall|id: NodeId| #[trigger]
                    session.owner.identities.contains(id) ==> !after.nodes.contains_key(id)
                        && !after.p2p_nodes.contains_key(id)
            }
        }),
{
    let m = old(layer)@;
    let session = m.sessions[m.p2p_sessions[from]];
    crate::session_control::lemma_links_kept(
        m,
        crate::session_control::closing(m, session.owner.default_id, now),
    );
    assert(m.sessions.contains_key(m.p2p_sessions[from]));
}

/// A message that a session is closed aborts what is under way with its sender, where there is no
/// session yet, and hands out what is to be aborted.
pub proof fn law_closed_session_ends_its_initialization(
    layer: &mut SessionLayer,
    session_id: Vec<u8>,
    from: SocketAddr,
    now: i64,
    r: Result<Disconnected, String>,
)
    requires
        old(layer)@.wf(),
        old(layer)@.registry.nodes.len() < usize::MAX,
        call_ensures(
            SessionLayer::on_disconnected,
            (layer, session_id, from, By::SessionId(session_id), now),
            r,
        ),
        session_id@.len() == 16,
        !old(layer)@.p2p_sessions.contains_key(from),
    ensures
        ({
            let m = old(layer)@;
            let index = m.registry.by_addr[from] as int;
            &&& r is Ok <==> m.registry.by_addr.contains_key(from) && m.protocol is Some
            &&& r is Ok ==> (r matches Ok(Disconnected::Initialization(aborted))
                && aborted.initializations@ == m.registry.nodes[index].abort_handle)
            &&& r is Ok ==> final(layer)@.registry.nodes[index].abort_handle.len() == 0
            &&& same_sessions(final(layer)@, m)
        }),
{
}

/// A message that a node is disconnected takes that node out, if a session with it was established:
/// the node with the id that the message holds, or the node on the slot that it names, as the
/// session with the sender knows it.
pub proof fn law_disconnected_node_is_left(
    layer: &mut SessionLayer,
    session_id: Vec<u8>,
    from: SocketAddr,
    by: By,
    now: i64,
    r: Result<Disconnected, String>,
    node: NodeId,
)
    requires
        old(layer)@.wf(),
        old(layer)@.registry.nodes.len() < usize::MAX,
        call_ensures(SessionLayer::on_disconnected, (layer, session_id, from, by, now), r),
        !(by is SessionId),
        ({
            let m = old(layer)@;
            let session = m.sessions[m.p2p_sessions[from]];
            match by {
                By::NodeId(bytes) => bytes@ == node.bytes(),
                By::Slot(slot) => m.p2p_sessions.contains_key(from)
                    && session.forwards.slots.contains_key(slot)
                    && session.forwards.slots[slot].default_id == node,
                By::SessionId(_) => true,
            }
        }),
    ensures
        session_id@.len() != 16 ==> r is Err && final(layer)@ == old(layer)@,
        session_id@.len() == 16 ==> {
            let known = old(layer)@.registry;
            let index = known.by_node_id[node] as int;
            &&& r matches Ok(Disconnected::Node(id, _)) && id == node
            &&& r->Ok_0->Node_1 is Ok && known.by_node_id.contains_key(node) ==> {
                &&& known.nodes[index].state is Established
                &&& !final(layer)@.nodes.contains_key(node)
                &&& !final(layer)@.p2p_nodes.contains_key(node)
                &&& !final(layer)@.registry.by_node_id.contains_key(node)
                &&& final(layer)@.registry.nodes[index].state is Closed
            }
            &&& known.by_node_id.contains_key(node) && known.nodes[index].state is Established
                ==> r->Ok_0->Node_1 is Ok
        },
{
    let m = old(layer)@;
    if let By::NodeId(bytes) = by {
        assert forall|a: NodeId| #[trigger] a.bytes() == bytes@ implies a == node by {
            lemma_node_id_bytes_injective(a, node);
        }
        assert(node.bytes().len() == 20) by {
            crate::model::lemma_be_len(node.high as nat, 16);
            crate::model::lemma_be_len(node.low as nat, 4);
        }
        if session_id@.len() == 16 {
            lemma_node_left(m, node, now);
        }
    } else if let By::Slot(slot) = by {
        let h = m.p2p_sessions[from];
        assert(m.sessions.contains_key(h));
        let removed = crate::session_control::with_session(
            m,
            h,
            crate::direct_session::SessionModel {
                forwards: m.sessions[h].forwards.removed_by_slot(slot),
                ..m.sessions[h]
            },
        );
        crate::direct_session::lemma_removed_wf(
            m.sessions[h].forwards,
            m.sessions[h].forwards.slots[slot].default_id,
        );
        crate::session_control::lemma_session_replaced(m, h, removed.sessions[h]);
        lemma_node_left(removed, node, now);
    }
}

proof fn lemma_node_left(m: LayerModel, node: NodeId, now: i64)
    requires
        m.wf(),
        m.registry.nodes.len() < usize::MAX,
    ensures
        ({
            let u = crate::session_control::closing(m, node, now).unregistered(node);
            &&& !u.nodes.contains_key(node)
            &&& !u.p2p_nodes.contains_key(node)
            &&& !u.registry.by_node_id.contains_key(node)
        }),
{
    let c = crate::session_control::closing(m, node, now);
    lemma_guarded_wf(m, node, now);
    crate::session_control::lemma_links_kept(m, c);
    crate::session_layer::lemma_unregistered_is_gone(c, node);
    assert(c.ids_to_forget(node)[0] == node);
    assert(c.ids_to_forget(node).contains(node));
}

proof fn lemma_guarded_wf(m: LayerModel, node: NodeId, now: i64)
    requires
        m.registry.wf(),
        m.registry.nodes.len() < usize::MAX,
    ensures
        crate::session_control::closing(m, node, now).registry.wf(),
{
}

/// Which node a packet came from goes by its slot: the owner of the session, or the node that the
/// session knows on the slot. What was not encrypted is handed on as it came, what was is handed on
/// decrypted, and the transport is the one that the packet came with.
pub proof fn law_packet_is_handed_on(
    layer: &SessionLayer,
    forward: IncomingForward,
    from: SocketAddr,
    session: Option<&DirectSession>,
    r: ForwardAction,
)
    requires
        call_ensures(SessionLayer::on_forward, (layer, forward, from, session), r),
    ensures
        session is None ==> r == (ForwardAction::SendDisconnect {
            session_id: forward.session_id,
            to: from,
        }),
        session matches Some(s) ==> {
            let known = s@.forwards.slots.contains_key(forward.slot);
            let sender = if forward.slot == 0 {
                s@.owner.default_id
            } else {
                s@.forwards.slots[forward.slot].default_id
            };
            &&& r is Resolve <==> forward.slot != 0 && !known
            &&& !(r is SendDisconnect)
            &&& r matches ForwardAction::Resolve { forward: same, owner, dont_use } ==> {
                &&& same == forward
                &&& owner == s@.owner.default_id
                &&& !dont_use@.contains(ConnectionMethod::Relay)
                &&& dont_use@[0] is Reverse
                &&& dont_use@[1] is Direct
                &&& dont_use@.len() == 2
            }
            &&& r is Discard ==> forward.encrypted
            &&& (forward.slot == 0 || known) && forward.encrypted ==> {
                let way = layer@.nodes[sender];
                &&& r is Deliver <==> layer@.nodes.contains_key(sender) && way.encryption.opens(
                    forward.payload@,
                ) is Some
                &&& r matches ForwardAction::Deliver { packet, counters } ==> Some(
                    packet.payload@,
                ) == way.encryption.opens(forward.payload@)
            }
            &&& (forward.slot == 0 || known) && !forward.encrypted ==> (
            r matches ForwardAction::Deliver { packet, counters } && packet.payload@
                == forward.payload@)
            &&& r matches ForwardAction::Deliver { packet, counters } ==> {
                &&& packet.node_id == sender
                &&& packet.transport is Reliable <==> forward.reliable
                &&& packet.transport is Unreliable <==> !forward.reliable
                &&& counters.0.value == forward.encoded_len
                &&& counters.1.value == 1
                &&& counters.0.node == sender
                &&& counters.1.node == sender
                &&& counters.0.relay == s@.owner.default_id
                &&& counters.1.relay == s@.owner.default_id
            }
            &&& r matches ForwardAction::Discard { sender: named, reason } ==> named == sender
        },
{
}

/// A packet from a slot that had to be asked for is handed on once the node on the slot is known,
/// under the id of that node, and not otherwise.
pub proof fn law_packet_is_handed_on_once_resolved(
    layer: &SessionLayer,
    forward: IncomingForward,
    owner: NodeId,
    sender: Result<NodeId, SessionError>,
    r: Result<ForwardAction, String>,
)
    requires
        call_ensures(SessionLayer::forward_resolved, (layer, forward, owner, sender), r),
    ensures
        r is Ok <==> sender is Ok,
        r matches Ok(action) ==> {
            &&& action is Deliver || action is Discard
            &&& !forward.encrypted ==> action is Deliver
            &&& action matches ForwardAction::Deliver { packet, counters } ==> {
                &&& packet.node_id == sender->Ok_0
                &&& !forward.encrypted ==> packet.payload@ == forward.payload@
                &&& forward.encrypted ==> layer@.nodes.contains_key(sender->Ok_0) && Some(
                    packet.payload@,
                ) == layer@.nodes[sender->Ok_0].encryption.opens(forward.payload@)
                &&& packet.transport is Reliable <==> forward.reliable
                &&& counters.0.value == forward.encoded_len
                &&& counters.1.value == 1
                &&& counters.0.node == sender->Ok_0
                &&& counters.0.relay == owner
            }
        },
{
}

/// Packets go to a session under the slot of their node: the slot of direct sessions for the owner,
/// the slot that was registered for any other node, and not at all for a node without one.
pub proof fn law_packet_goes_to_the_slot_of_its_node(
    session: &DirectSession,
    target: NodeId,
    packet: Vec<u8>,
    transport: TransportType,
    encrypted: bool,
    r: Result<Forward, SessionError>,
)
    requires
        call_ensures(DirectSession::send, (session, target, packet, transport, encrypted), r),
    ensures
        r is Ok <==> target == session@.owner.default_id || session@.forwards.nodes.contains_key(
            target,
        ),
        r matches Ok(f) ==> {
            &&& f.slot == if target == session@.owner.default_id {
                0
            } else {
                session@.forwards.nodes[target]
            }
            &&& f.session_id == session@.raw.id
            &&& f.payload@ == packet@
            &&& f.encrypted == encrypted
            &&& f.reliable <==> !(transport is Unreliable)
        },
{
}

/// A packet is sent over the way that its sender was made for, if that way is still known:
/// encrypted as that way says, within its session, to the slot of its node. Without that way, the
/// packet is handed back unchanged.
pub proof fn law_packet_goes_its_way(
    sender: &RoutingSender,
    layer: &SessionLayer,
    packet: Vec<u8>,
    transport: TransportType,
    r: Sending,
    id: NodeId,
)
    requires
        layer@.wf(),
        call_ensures(RoutingSender::send, (sender, layer, packet, transport), r),
        layer@.nodes.contains_key(id),
        sender.routing == Some(layer@.nodes[id].number),
        layer@.sessions.contains_key(layer@.nodes[id].route),
    ensures
        ({
            let way = layer@.nodes[id];
            let node = way.node.default_id.node_id;
            let session = layer@.sessions[way.route];
            let reached = node == session.owner.default_id || session.forwards.nodes.contains_key(
                node,
            );
            &&& r is Done
            &&& r->Done_0 is Ok <==> reached && way.encryption.seals(packet@.len())
            &&& r->Done_0 matches Ok(f) ==> {
                &&& f.session_id == session.raw.id
                &&& f.slot == if node == session.owner.default_id {
                    0
                } else {
                    session.forwards.nodes[node]
                }
                &&& f.encrypted <==> !(way.encryption is Plain)
                &&& way.encryption is Plain ==> f.payload@ == packet@
                &&& way.encryption.opens(f.payload@) == Some(packet@)
                &&& f.reliable <==> !(transport is Unreliable)
            }
        }),
{
}

/// A packet for a way that is gone is handed back.
pub proof fn law_packet_without_a_way_is_handed_back(
    sender: &RoutingSender,
    layer: &SessionLayer,
    packet: Vec<u8>,
    transport: TransportType,
    r: Sending,
)
    requires
        layer@.wf(),
        call_ensures(RoutingSender::send, (sender, layer, packet, transport), r),
    ensures
        r is Connect <==> sender.routing is None || forall|id: NodeId|
            layer@.nodes.contains_key(id) ==> (#[trigger] layer@.nodes[id]).number
                != sender.routing->Some_0,
        r matches Sending::Connect(back) ==> back@ == packet@,
{
}

/// What a sender tells of its way is what that way is: the session, its owner, its id, and whether
/// packets go to the node directly.
pub proof fn law_sender_tells_its_way(
    sender: &RoutingSender,
    layer: &SessionLayer,
    id: NodeId,
    session: Option<SessionHandle>,
    owner: NodeId,
    session_id: SessionId,
    kind: SessionType,
)
    requires
        layer@.wf(),
        layer@.nodes.contains_key(id),
        sender.routing == Some(layer@.nodes[id].number),
        layer@.sessions.contains_key(layer@.nodes[id].route),
        call_ensures(RoutingSender::route_session, (sender, layer), session),
        call_ensures(RoutingSender::route, (sender, layer), owner),
        call_ensures(RoutingSender::session_id, (sender, layer), session_id),
        call_ensures(RoutingSender::session_type, (sender, layer), kind),
    ensures
        session == Some(layer@.nodes[id].route),
        owner == layer@.sessions[layer@.nodes[id].route].owner.default_id,
        session_id == layer@.sessions[layer@.nodes[id].route].raw.id,
        kind is P2P <==> layer@.nodes[id].node.default_id.node_id == owner,
        kind is Relay <==> layer@.nodes[id].node.default_id.node_id != owner,
{
    assert(crate::session_control::connected(layer@, *sender));
}

/// A node that packets can be forwarded to is found by its slot and by every id. A node that was on
/// the slot before, or had one of the ids, is not found any more, and all others still are.
pub proof fn law_added_node_is_found(
    forwards: &mut AllowedForwards,
    node: NodeEntry<NodeId>,
    slot: SlotId,
    id: NodeId,
    other: SlotId,
)
    requires
        old(forwards)@.wf(),
        node@.wf(),
        call_ensures(AllowedForwards::add, (forwards, node, slot), ()),
        node@.identities.contains(id),
        other != slot,
    ensures
        final(forwards)@.wf(),
        final(forwards)@.slots.contains_key(slot),
        final(forwards)@.slots[slot] == node@,
        final(forwards)@.nodes.contains_key(id),
        final(forwards)@.nodes[id] == slot,
        old(forwards)@.slots.contains_key(other) && (forall|k: NodeId| #[trigger]
            node@.identities.contains(k) ==> !old(forwards)@.slots[other].identities.contains(k))
            ==> final(forwards)@.slots.contains_key(other) && final(forwards)@.slots[other] == old(forwards)@.slots[other],
        final(forwards)@.slots.contains_key(other) ==> !final(forwards)@.slots[other].identities.contains(id),
{
    lemma_added_is_found(old(forwards)@, node@, slot);
    if old(forwards)@.slots.contains_key(other) && (forall|k: NodeId| #[trigger]
        node@.identities.contains(k) ==> !old(forwards)@.slots[other].identities.contains(k)) {
        lemma_added_keeps_others(old(forwards)@, node@, slot, other);
    }
}

/// A node that is taken out is found under none of its ids and not by its slot, and is handed back.
/// All others stay.
pub proof fn law_removed_node_is_not_forwarded_to(
    forwards: &mut AllowedForwards,
    node_id: &NodeId,
    r: Option<NodeEntry<NodeId>>,
    id: NodeId,
    other: SlotId,
)
    requires
        old(forwards)@.wf(),
        call_ensures(AllowedForwards::remove, (forwards, node_id), r),
    ensures
        ({
            let before = old(forwards)@;
            let after = final(forwards)@;
            let slot = before.nodes[*node_id];
            &&& r is Some <==> before.nodes.contains_key(*node_id)
            &&& r is None ==> after.slots == before.slots && after.nodes == before.nodes
            &&& r matches Some(entry) ==> {
                &&& entry@ == before.slots[slot]
                &&& !after.slots.contains_key(slot)
                &&& entry@.identities.contains(id) ==> !after.nodes.contains_key(id)
                &&& other != slot && before.slots.contains_key(other) ==> after.slots.contains_key(
                    other,
                ) && after.slots[other] == before.slots[other]
            }
        }),
{
    let m = old(forwards)@;
    if m.nodes.contains_key(*node_id) {
        lemma_removed_is_gone(m, *node_id);
        let slot = m.nodes[*node_id];
        if other != slot && m.slots.contains_key(other) {
            if m.slots[other].identities.contains(*node_id) {
                assert(m.nodes[*node_id] == other);
            }
            lemma_removed_keeps_others(m, *node_id, other);
        }
    }
}

/// The node on a slot is taken out whole, and its id handed back.
pub proof fn law_freed_slot_is_empty(
    forwards: &mut AllowedForwards,
    slot: SlotId,
    r: Option<NodeId>,
    id: NodeId,
    other: SlotId,
)
    requires
        old(forwards)@.wf(),
        call_ensures(AllowedForwards::remove_by_slot, (forwards, slot), r),
        other != slot,
    ensures
        ({
            let before = old(forwards)@;
            let after = final(forwards)@;
            &&& r is Some <==> before.slots.contains_key(slot)
            &&& r is Some ==> r == Some(before.slots[slot].default_id)
            &&& !after.slots.contains_key(slot)
            &&& before.slots.contains_key(slot) && before.slots[slot].identities.contains(id)
                ==> !after.nodes.contains_key(id)
            &&& before.slots.contains_key(other) ==> after.slots.contains_key(other)
                && after.slots[other] == before.slots[other]
        }),
{
    let m = old(forwards)@;
    if m.slots.contains_key(slot) {
        let node = m.slots[slot].default_id;
        assert(m.slots[slot].identities.contains(node));
        assert(m.nodes[node] == slot);
        lemma_removed_is_gone(m, node);
        if m.slots.contains_key(other) {
            if m.slots[other].identities.contains(node) {
                assert(m.nodes[node] == other);
            }
            lemma_removed_keeps_others(m, node, other);
        }
    }
}

/// Endpoints are read one by one, and only those that cannot be read are left out.
pub proof fn law_readable_endpoints_are_kept(
    a: &Vec<Option<SocketAddr>>,
    b: &Vec<Option<SocketAddr>>,
    both: &Vec<Option<SocketAddr>>,
    ra: Vec<SocketAddr>,
    rb: Vec<SocketAddr>,
    r: Vec<SocketAddr>,
)
    requires
        both@ == a@ + b@,
        call_ensures(readable_endpoints, (a,), ra),
        call_ensures(readable_endpoints, (b,), rb),
        call_ensures(readable_endpoints, (both,), r),
    ensures
        r@ == ra@ + rb@,
        a@.len() == 1 && a@[0] is Some ==> ra@ == seq![a@[0]->Some_0],
        a@.len() == 1 && a@[0] is None ==> ra@.len() == 0,
        a@.len() == 0 ==> ra@.len() == 0,
{
    lemma_read_apart(a@, b@);
    if a@.len() == 1 {
        assert(a@.drop_last().len() == 0);
        assert(readable(a@.drop_last()) =~= Seq::empty());
    }
}

proof fn lemma_read_apart(a: Seq<Option<SocketAddr>>, b: Seq<Option<SocketAddr>>)
    ensures
        readable(a + b) == readable(a) + readable(b),
    decreases b.len(),
{
    if b.len() == 0 {
        assert(a + b =~= a);
    } else {
        lemma_read_apart(a, b.drop_last());
        assert((a + b).drop_last() =~= a + b.drop_last());
        assert(readable(a + b) =~= readable(a) + readable(b));
    }
}

/// Encryption is used exactly where both sides name it, it is enabled here, and there is a secret;
/// where it is asked for strictly and cannot be used, there is no session.
pub proof fn law_encryption_is_used_where_both_know_it(
    features: EncryptionFeatures,
    supported: &Vec<String>,
    secret: Option<[u8; 32]>,
    r: Result<SessionEncryption, EncryptionError>,
    offer: Vec<String>,
)
    requires
        call_ensures(new, (features, supported, secret), r),
        call_ensures(supported_encryptions, (features,), offer),
    ensures
        ({
            let named = exists|i: int|
                0 <= i < supported@.len() && (#[trigger] supported@[i])@ == "Aes256GcmSiv"@;
            let used = features.enabled && secret is Some && named;
            &&& r is Err <==> features.strict && !used
            &&& r matches Ok(encryption) ==> (encryption is Plain <==> !used)
            &&& r matches Ok(SessionEncryption::Aes256GcmSiv(e)) ==> e.secret()
                == secret->Some_0@
        }),
        offer@.len() > 0 <==> features.enabled,
        offer@.len() > 0 ==> offer@[0]@ == "Aes256GcmSiv"@,
{
}

/// Without encryption packets are handed on as they are, and any can be sent.
pub proof fn law_plain_packets_stay(
    encryption: &SessionEncryption,
    packet: Vec<u8>,
    r: Result<Vec<u8>, EncryptionError>,
)
    requires
        encryption is Plain,
        call_ensures(SessionEncryption::encrypt, (encryption, packet), r),
    ensures
        r matches Ok(sealed) && sealed@ == packet@,
{
}

/// What was encrypted is read back by whoever has the same secret.
pub proof fn law_encrypted_packets_are_read_back(
    here: &SessionEncryption,
    packet: Vec<u8>,
    sealed: Result<Vec<u8>, EncryptionError>,
    there: &SessionEncryption,
    opened: Result<Vec<u8>, EncryptionError>,
)
    requires
        here is Plain <==> there is Plain,
        here is Plain || here->Aes256GcmSiv_0.secret() == there->Aes256GcmSiv_0.secret(),
        call_ensures(SessionEncryption::encrypt, (here, packet), sealed),
        sealed is Ok,
        call_ensures(SessionEncryption::decrypt, (there, sealed->Ok_0), opened),
    ensures
        opened matches Ok(back) && back@ == packet@,
{
}

/// Opening and closing a session show in the metrics of the node that the session was with.
pub proof fn law_metrics_speak_of_the_node(
    node_id: NodeId,
    method: ConnectionMethod,
    opened: (GaugeUpdate, CounterIncrement),
    closed: &Closed,
    gone: (Option<GaugeUpdate>, CounterIncrement),
)
    requires
        call_ensures(metric_session_established, (node_id, method), opened),
        call_ensures(metric_session_closed, (closed,), gone),
    ensures
        opened.0.node == node_id,
        opened.1.node == node_id,
        opened.0.value != 0,
        gone.1.node == closed.target,
        gone.0 is Some <==> closed.disconnect is Some,
        gone.0 matches Some(gauge) ==> gauge.node == closed.target && gauge.value == 0
            && gauge.name@ == opened.0.name@ && gauge.label@ == opened.0.label@,
        gone.1.label@ == opened.1.label@,
{
}

/// Packets are counted apart by direction and by whether their delivery is guaranteed: the number
/// of packets under one name and their size under another, both for the node and its relay.
pub proof fn law_packets_are_counted_apart(
    relay: NodeId,
    node: NodeId,
    size: u64,
    a: (crate::metrics::CounterUpdate, crate::metrics::CounterUpdate),
    b: (crate::metrics::CounterUpdate, crate::metrics::CounterUpdate),
    c: (crate::metrics::CounterUpdate, crate::metrics::CounterUpdate),
    d: (crate::metrics::CounterUpdate, crate::metrics::CounterUpdate),
)
    requires
        call_ensures(
            crate::metrics::count_outgoing,
            (relay, node, TransportType::Unreliable, size),
            a,
        ),
        call_ensures(
            crate::metrics::count_outgoing,
            (relay, node, TransportType::Reliable, size),
            b,
        ),
        call_ensures(
            crate::metrics::count_incoming,
            (relay, node, TransportType::Unreliable, size),
            c,
        ),
        call_ensures(
            crate::metrics::count_incoming,
            (relay, node, TransportType::Reliable, size),
            d,
        ),
    ensures
        a.0.value == size && a.1.value == 1 && a.0.node == node && a.1.relay == relay,
        c.0.value == size && c.1.value == 1 && c.0.node == node && c.1.relay == relay,
        a.0.name@ != a.1.name@,
        b.0.name@ != b.1.name@,
        c.0.name@ != c.1.name@,
        d.0.name@ != d.1.name@,
        a.0.name@ != b.0.name@ && a.1.name@ != b.1.name@,
        c.0.name@ != d.0.name@ && c.1.name@ != d.1.name@,
        a.0.name@ != c.0.name@ && a.1.name@ != c.1.name@,
        b.0.name@ != d.0.name@ && b.1.name@ != d.1.name@,
{
    reveal_strlit("ya-relay.packet.tcp.outgoing.size");
    reveal_strlit("ya-relay.packet.tcp.outgoing.num");
    reveal_strlit("ya-relay.packet.tcp.incoming.size");
    reveal_strlit("ya-relay.packet.tcp.incoming.num");
    reveal_strlit("ya-relay.packet.udp.outgoing.size");
    reveal_strlit("ya-relay.packet.udp.outgoing.num");
    reveal_strlit("ya-relay.packet.udp.incoming.size");
    reveal_strlit("ya-relay.packet.udp.incoming.num");
    assert(a.0.name@[16] == 'u' && a.1.name@[16] == 'u');
    assert(c.0.name@[16] == 'u' && c.1.name@[16] == 'u');
    assert(b.0.name@[16] == 't' && b.1.name@[16] == 't');
    assert(d.0.name@[16] == 't' && d.1.name@[16] == 't');
    assert(a.0.name@[20] == 'o' && a.1.name@[20] == 'o');
    assert(b.0.name@[20] == 'o' && b.1.name@[20] == 'o');
    assert(c.0.name@[20] == 'i' && c.1.name@[20] == 'i');
    assert(d.0.name@[20] == 'i' && d.1.name@[20] == 'i');
    assert(a.0.name@.len() == 33 && a.1.name@.len() == 32);
    assert(b.0.name@.len() == 33 && b.1.name@.len() == 32);
    assert(c.0.name@.len() == 33 && c.1.name@.len() == 32);
    assert(d.0.name@.len() == 33 && d.1.name@.len() == 32);
}

} // verus!
