//! Promises about the sessions of a manager, and about what it does with packets.
use vstd::prelude::*;

use crate::direct_session::RawSession;
use crate::manager_events::{ControlHandled, ForwardHandled, RequestHandled};
use crate::model::{Identity, NodeId, SessionId, SocketAddr};
use crate::registry::NodeEntry;
use crate::session_events::{By, ControlKind, IncomingForward, RequestKind};
use crate::session_manager::{
    removed_ids, with_identities, ManagerModel, RemovedNode, SessionManager,
};

verus! {

proof fn lemma_identities(
    m: Map<NodeId, (NodeId, crate::model::PublicKey)>,
    node_id: NodeId,
    identities: Seq<Identity>,
    id: NodeId,
)
    ensures
        ({
            let named = exists|i: int|
                0 <= i < identities.len() && (#[trigger] identities[i]).node_id == id;
            let after = with_identities(m, node_id, identities);
            &&& named && id != node_id ==> after.contains_key(id) && after[id].0 == node_id
                && exists|i: int|
                0 <= i < identities.len() && (#[trigger] identities[i]).node_id == id
                    && identities[i].public_key == after[id].1
            &&& !named || id == node_id ==> (after.contains_key(id) <==> m.contains_key(id)) && (
            m.contains_key(id) ==> after[id] == m[id])
        }),
    decreases identities.len(),
{
    if identities.len() > 0 {
        let rest = identities.drop_last();
        lemma_identities(m, node_id, rest, id);
        assert(identities[identities.len() - 1] == identities.last());
        assert forall|i: int| 0 <= i < rest.len() implies rest[i] == #[trigger] identities[i] by {}
        if exists|i: int| 0 <= i < rest.len() && (#[trigger] rest[i]).node_id == id {
            let i = choose|i: int| 0 <= i < rest.len() && (#[trigger] rest[i]).node_id == id;
            assert(identities[i].node_id == id);
            if id != node_id && identities.last().node_id != id {
                let before = with_identities(m, node_id, rest);
                let k = choose|k: int|
                    0 <= k < rest.len() && (#[trigger] rest[k]).node_id == id && rest[k].public_key
                        == before[id].1;
                assert(identities[k].node_id == id);
            }
        }
    }
}

/// A session is added exactly if packets can be sent. It is found by its address unless one is
/// there already, and every id of the node leads to the id that the node goes by.
pub proof fn law_added_session_is_found(
    manager: &mut SessionManager,
    addr: SocketAddr,
    id: SessionId,
    node_id: NodeId,
    identities: &Vec<Identity>,
    r: Result<RawSession, String>,
    alias: NodeId,
    other: SocketAddr,
)
    requires
        old(manager)@.wf(),
        call_ensures(SessionManager::add_session, (manager, addr, id, node_id, identities), r),
        other != addr,
    ensures
        r is Ok <==> old(manager)@.sink,
        r is Err ==> final(manager)@ == old(manager)@,
        r matches Ok(session) ==> {
            let before = old(manager)@;
            let after = final(manager)@;
            let named = exists|i: int|
                0 <= i < identities@.len() && (#[trigger] identities@[i]).node_id == alias;
            &&& session.id == id
            &&& session.remote == addr
            &&& after.sessions.contains_key(addr)
            &&& before.sessions.contains_key(addr) ==> after.sessions[addr] == before.sessions[addr]
            &&& !before.sessions.contains_key(addr) ==> after.sessions[addr] == session
            &&& after.sessions.contains_key(other) <==> before.sessions.contains_key(other)
            &&& before.sessions.contains_key(other) ==> after.sessions[other]
                == before.sessions[other]
            &&& named && alias != node_id ==> after.nodes_identity.contains_key(alias)
                && after.nodes_identity[alias].0 == node_id
            &&& !named ==> (after.nodes_identity.contains_key(alias)
                <==> before.nodes_identity.contains_key(alias))
            &&& !named && before.nodes_identity.contains_key(alias) ==> after.nodes_identity[alias]
                == before.nodes_identity[alias]
            &&& after.p2p_sessions == before.p2p_sessions
            &&& after.nodes_addr == before.nodes_addr
            &&& after.registry == before.registry
        },
{
    lemma_identities(old(manager)@.nodes_identity, node_id, identities@, alias);
}

/// A session that another node started is found as the session with that node as well, which
/// packets go to directly.
pub proof fn law_incoming_session_is_direct(
    manager: &mut SessionManager,
    addr: SocketAddr,
    id: SessionId,
    node_id: NodeId,
    identities: &Vec<Identity>,
    r: Result<RawSession, String>,
    other: NodeId,
)
    requires
        old(manager)@.wf(),
        call_ensures(
            SessionManager::add_incoming_session,
            (manager, addr, id, node_id, identities),
            r,
        ),
        other != node_id,
    ensures
        r is Ok <==> old(manager)@.sink,
        r is Err ==> final(manager)@ == old(manager)@,
        r matches Ok(session) ==> {
            let before = old(manager)@;
            let after = final(manager)@;
            &&& session.id == id
            &&& session.remote == addr
            &&& after.p2p_sessions.contains_key(node_id)
            &&& after.p2p_sessions[node_id] == session
            &&& after.nodes_addr.contains_key(addr)
            &&& after.nodes_addr[addr] == node_id
            &&& after.registry.nodes.contains_key(node_id)
            &&& after.registry.nodes[node_id].session == session
            &&& after.registry.nodes[node_id].slot == 0
            &&& after.registry.nodes.contains_key(other) <==> before.registry.nodes.contains_key(
                other,
            )
            &&& before.registry.nodes.contains_key(other) ==> after.registry.nodes[other]
                == before.registry.nodes[other]
            &&& after.p2p_sessions.contains_key(other) <==> before.p2p_sessions.contains_key(other)
            &&& before.p2p_sessions.contains_key(other) ==> after.p2p_sessions[other]
                == before.p2p_sessions[other]
        },
{
}

/// A node that is removed has neither an entry nor a session nor channels any more, no packet takes
/// the fast lane, and its channels are handed out to be closed. Other nodes keep theirs.
pub proof fn law_removed_node_is_gone(
    manager: &mut SessionManager,
    node_id: NodeId,
    r: RemovedNode,
    other: NodeId,
    lane: crate::session_manager::Lane,
)
    requires
        old(manager)@.wf(),
        call_ensures(SessionManager::remove_node, (manager, node_id), r),
        other != node_id,
    ensures
        ({
            let before = old(manager)@;
            let after = final(manager)@;
            &&& r.node_id == node_id
            &&& r.reliable is Some <==> before.forward_reliable.contains_key(node_id)
            &&& r.reliable is Some ==> r.reliable == Some(before.forward_reliable[node_id])
            &&& r.unreliable is Some <==> before.forward_unreliable.contains_key(node_id)
            &&& r.unreliable is Some ==> r.unreliable == Some(before.forward_unreliable[node_id])
            &&& !after.registry.nodes.contains_key(node_id)
            &&& !after.p2p_sessions.contains_key(node_id)
            &&& !after.forward_reliable.contains_key(node_id)
            &&& !after.forward_unreliable.contains_key(node_id)
            &&& before.p2p_sessions.contains_key(node_id) ==> !after.nodes_addr.contains_key(
                before.p2p_sessions[node_id].remote,
            )
            &&& !after.fast_lane.contains_key(lane)
            &&& after.registry.nodes.contains_key(other) <==> before.registry.nodes.contains_key(
                other,
            )
            &&& before.registry.nodes.contains_key(other) ==> after.registry.nodes[other]
                == before.registry.nodes[other]
            &&& after.p2p_sessions.contains_key(other) <==> before.p2p_sessions.contains_key(other)
            &&& before.p2p_sessions.contains_key(other) ==> after.p2p_sessions[other]
                == before.p2p_sessions[other]
            &&& after.forward_reliable.contains_key(other)
                <==> before.forward_reliable.contains_key(other)
            &&& before.forward_reliable.contains_key(other) ==> after.forward_reliable[other]
                == before.forward_reliable[other]
            &&& after.sessions == before.sessions
        }),
{
}

/// A session that is closed is not found any more, and the node behind it, or every node that was
/// reached through it, is removed. Other nodes stay, and so do other sessions.
pub proof fn law_closed_session_takes_its_nodes_along(
    manager: &mut SessionManager,
    session: RawSession,
    r: Vec<RemovedNode>,
    node: NodeId,
    other: SocketAddr,
)
    requires
        old(manager)@.wf(),
        call_ensures(SessionManager::close_session, (manager, session), r),
        other != session.remote,
    ensures
        ({
            let before = old(manager)@;
            let after = final(manager)@;
            let behind = if before.nodes_addr.contains_key(session.remote) {
                before.nodes_addr[session.remote] == node
            } else {
                before.registry.nodes.contains_key(node) && before.registry.nodes[node].session.id
                    == session.id
            };
            &&& !after.sessions.contains_key(session.remote)
            &&& !after.nodes_addr.contains_key(session.remote)
            &&& session.remote == before.config.srv_addr ==> forall|
                lane: crate::session_manager::Lane,
            |
                !#[trigger] after.fast_lane.contains_key(lane)
            &&& behind <==> exists|i: int| 0 <= i < r@.len() && (#[trigger] r@[i]).node_id == node
            &&& behind ==> !after.registry.nodes.contains_key(node)
            &&& !behind ==> (after.registry.nodes.contains_key(node)
                <==> before.registry.nodes.contains_key(node))
            &&& !behind && before.registry.nodes.contains_key(node) ==> after.registry.nodes[node]
                == before.registry.nodes[node]
            &&& after.sessions.contains_key(other) <==> before.sessions.contains_key(other)
            &&& before.sessions.contains_key(other) ==> after.sessions[other]
                == before.sessions[other]
        }),
{
    let before = old(manager)@;
    let after = final(manager)@;
    let ids = removed_ids(r@);
    crate::session_manager::lemma_closed_session_is_gone(before, session, after, r@, node);
    lemma_sessions_stay(before.without_session(session), ids);
    assert(ids.contains(node) <==> crate::session_manager::touched(before, session, node));
    if ids.contains(node) {
        let i = choose|i: int| 0 <= i < ids.len() && ids[i] == node;
        assert(r@[i].node_id == node);
    }
    if exists|i: int| 0 <= i < r@.len() && (#[trigger] r@[i]).node_id == node {
        let i = choose|i: int| 0 <= i < r@.len() && (#[trigger] r@[i]).node_id == node;
        assert(ids[i] == node);
    }
}

proof fn lemma_sessions_stay(m: ManagerModel, ids: Seq<NodeId>)
    ensures
        m.without_nodes(ids).sessions == m.sessions,
        forall|a: SocketAddr|
            !m.nodes_addr.contains_key(a) ==> !#[trigger] m.without_nodes(
                ids,
            ).nodes_addr.contains_key(a),
    decreases ids.len(),
{
    if ids.len() > 0 {
        lemma_sessions_stay(m, ids.drop_last());
    }
}

/// A node is connected to only where none of its addresses is in use.
pub proof fn law_addresses_in_use_are_refused(
    manager: &SessionManager,
    addrs: &Vec<SocketAddr>,
    r: Result<(), String>,
)
    requires
        call_ensures(SessionManager::assert_not_connected, (manager, addrs), r),
    ensures
        r is Err <==> exists|i: int|
            0 <= i < addrs@.len() && manager@.nodes_addr.contains_key(#[trigger] addrs@[i]),
{
    assert(r is Err <==> crate::session_manager::some_connected(manager@, addrs@));
}

/// Requests are answered to their sender: pings always, and requests of a handshake as long as nodes
/// can start sessions.
pub proof fn law_manager_answers_requests(
    manager: &SessionManager,
    session_id: Vec<u8>,
    request_id: u64,
    kind: Option<RequestKind>,
    from: SocketAddr,
    r: RequestHandled,
)
    requires
        call_ensures(
            SessionManager::on_request,
            (manager, session_id, request_id, kind, from),
            r,
        ),
    ensures
        r is Pong <==> kind == Some(RequestKind::Ping),
        r is Session <==> kind is Some && kind->Some_0 is Session && manager@.starting,
        r matches RequestHandled::Pong { session_id: id, request_id: answered, to } ==> id@
            == session_id@ && answered == request_id && to == from,
        r matches RequestHandled::Session { session_id: id, request_id: same, from: sender, request }
            ==> id@ == session_id@ && same == request_id && sender == from && kind == Some(
            RequestKind::Session(request),
        ),
{
}

/// A message speaks for the session with its sender. A session that its other party closed is
/// closed here as well, and a node that the other party lost is removed.
pub proof fn law_manager_minds_its_senders(
    manager: &mut SessionManager,
    kind: Option<ControlKind>,
    from: SocketAddr,
    r: ControlHandled,
)
    requires
        old(manager)@.wf(),
        call_ensures(SessionManager::on_control, (manager, kind, from), r),
    ensures
        ({
            let before = old(manager)@;
            let after = final(manager)@;
            let pause = kind == Some(ControlKind::PauseForwarding);
            let resume = kind == Some(ControlKind::ResumeForwarding);
            &&& r is Forwarding <==> (pause || resume) && before.sessions.contains_key(from)
            &&& r matches ControlHandled::Forwarding { session, paused } ==> session
                == before.sessions[from] && paused == pause && after == before
            &&& r is Closed <==> (kind matches Some(ControlKind::Disconnected(Some(by))) && by
                is SessionId) && before.sessions.contains_key(from)
            &&& r matches ControlHandled::Closed { session, removed } ==> session
                == before.sessions[from] && !after.sessions.contains_key(session.remote)
            &&& r matches ControlHandled::Removed(gone) ==> {
                &&& before.registry.nodes.contains_key(gone.node_id)
                &&& !after.registry.nodes.contains_key(gone.node_id)
                &&& !after.p2p_sessions.contains_key(gone.node_id)
                &&& match kind {
                    Some(ControlKind::Disconnected(Some(By::Slot(slot)))) =>
                        before.registry.slots.contains_key(slot)
                            && before.registry.slots[slot] == gone.node_id,
                    Some(ControlKind::Disconnected(Some(By::NodeId(bytes)))) => bytes@
                        == gone.node_id.bytes(),
                    _ => false,
                }
            }
            &&& r is Nothing ==> after == before
            &&& r matches ControlHandled::Resolve(message) ==> kind == Some(
                ControlKind::ReverseConnection(message),
            ) && after == before && message.endpoints@.len() > 0
            &&& kind matches Some(ControlKind::ReverseConnection(message)) ==> (r is Resolve
                <==> message.endpoints@.len() > 0)
        }),
{
    let before = old(manager)@;
    if let ControlHandled::Closed { session, removed } = r {
        crate::session_manager::lemma_closed_session_is_gone(
            before,
            session,
            final(manager)@,
            removed@,
            NodeId { high: 0, low: 0 },
        );
    }
}

/// Which node a packet came from goes by its slot, or by its address where it came directly. The
/// payload is handed on as it came: to the tcp stack where its delivery is guaranteed, and to
/// whoever uses the node otherwise.
pub proof fn law_manager_hands_packets_on(
    manager: &mut SessionManager,
    forward: IncomingForward,
    from: SocketAddr,
    r: ForwardHandled,
)
    requires
        old(manager)@.wf(),
        call_ensures(SessionManager::on_forward, (manager, forward, from), r),
    ensures
        ({
            let m = old(manager)@;
            let lane = crate::session_manager::Lane { from, slot: forward.slot };
            let fast = forward.reliable && m.fast_lane.contains_key(lane);
            let named = if forward.slot == 0 {
                m.nodes_addr.contains_key(from)
            } else {
                m.registry.slots.contains_key(forward.slot)
            };
            let id = if forward.slot == 0 {
                m.nodes_addr[from]
            } else {
                m.registry.slots[forward.slot]
            };
            let known = named && m.registry.nodes.contains_key(id);
            &&& r is Inject <==> fast
            &&& r matches ForwardHandled::Inject(payload) ==> payload@ == forward.payload@
            &&& r is Receive <==> !fast && known && forward.reliable
            &&& r is Ingress <==> known && !forward.reliable
            &&& r matches ForwardHandled::Receive { node, payload } ==> node.id == id && payload@
                == forward.payload@ && final(manager)@.fast_lane.contains_key(lane)
            &&& r matches ForwardHandled::Ingress { node_id, payload } ==> node_id == id
                && payload@ == forward.payload@
            &&& r is Resolve <==> !fast && forward.slot != 0 && !known
            &&& r matches ForwardHandled::Resolve { forward: same } ==> same == forward
            &&& r is Disconnect <==> !fast && forward.slot == 0 && !named && m.sink
            &&& r matches ForwardHandled::Disconnect(session) ==> session.remote == from
                && session.id == forward.session_id
            &&& final(manager)@.sessions == m.sessions
            &&& final(manager)@.registry == m.registry
        }),
{
}

/// A packet whose node had to be asked for is handed on under that node.
pub proof fn law_manager_hands_resolved_packets_on(
    manager: &mut SessionManager,
    forward: IncomingForward,
    from: SocketAddr,
    result: Result<NodeEntry, String>,
    r: ForwardHandled,
)
    requires
        old(manager)@.wf(),
        call_ensures(SessionManager::forward_resolved, (manager, forward, from, result), r),
    ensures
        result matches Err(e) ==> r == ForwardHandled::Failed(e) && final(manager)@ == old(manager)@,
        result matches Ok(node) ==> if forward.reliable {
            r matches ForwardHandled::Receive { node: entry, payload } && entry == node && payload@
                == forward.payload@
        } else {
            r matches ForwardHandled::Ingress { node_id, payload } && node_id == node.id && payload@
                == forward.payload@
        },
{
}

/// Responses are awaited within the session with their sender, or within the temporary one.
pub proof fn law_manager_finds_the_dispatcher(
    manager: &SessionManager,
    from: SocketAddr,
    r: Option<RawSession>,
)
    requires
        call_ensures(SessionManager::dispatcher, (manager, from), r),
    ensures
        manager@.sessions.contains_key(from) ==> r == Some(manager@.sessions[from]),
        !manager@.sessions.contains_key(from) && manager@.guarded.tmp.contains_key(from) ==> r
            == Some(manager@.guarded.tmp[from]),
        !manager@.sessions.contains_key(from) && !manager@.guarded.tmp.contains_key(from) ==> r
            is None,
{
}

/// Shutting down hands out everything that has to be stopped, once, and nothing is sent afterwards.
pub proof fn law_manager_stops(
    first: &mut SessionManager,
    stopped: (bool, Vec<u64>),
    second: &mut SessionManager,
    closed: bool,
)
    requires
        old(first)@.wf(),
        call_ensures(SessionManager::begin_shutdown, (first,), stopped),
        *old(second) == *final(first),
        call_ensures(SessionManager::shutdown, (second,), closed),
    ensures
        stopped.1@ == old(first)@.handles,
        stopped.0 == old(first)@.starting,
        closed == old(first)@.sink,
        !final(second)@.starting,
        !final(second)@.sink,
        final(second)@.handles.len() == 0,
        forall|a: SocketAddr| !#[trigger] final(second)@.guarded.tmp.contains_key(a),
{
}

/// A manager tries all endpoints that can be read, except its own.
pub proof fn law_manager_leaves_own_addresses_out(
    manager: &SessionManager,
    endpoints: &Vec<Option<SocketAddr>>,
    r: Vec<SocketAddr>,
    addr: SocketAddr,
)
    requires
        call_ensures(SessionManager::filter_own_addresses, (manager, endpoints), r),
    ensures
        r@.contains(addr) <==> endpoints@.contains(Some(addr)) && manager@.bind_addr != Some(addr)
            && manager@.public_addr != Some(addr),
{
    let keep = |a: SocketAddr| crate::manager_connect::not_own(manager@, a);
    crate::laws::sessions::lemma_filtered(
        crate::session_events::readable(endpoints@),
        keep,
        addr,
    );
    lemma_readable_holds(endpoints@, addr);
}

proof fn lemma_readable_holds(endpoints: Seq<Option<SocketAddr>>, addr: SocketAddr)
    ensures
        crate::session_events::readable(endpoints).contains(addr) <==> endpoints.contains(
            Some(addr),
        ),
    decreases endpoints.len(),
{
    if endpoints.len() > 0 {
        let rest = endpoints.drop_last();
        lemma_readable_holds(rest, addr);
        assert(endpoints == rest.push(endpoints.last()));
        crate::assoc::lemma_contains_push(rest, endpoints.last());
        if let Some(last) = endpoints.last() {
            crate::assoc::lemma_contains_push(crate::session_events::readable(rest), last);
        }
    }
}

} // verus!
