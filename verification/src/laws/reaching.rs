//! Promises about how nodes are reached: over sessions of a manager, and through the relay server.
use vstd::prelude::*;

use crate::connect::lemma_relayed_node_is_reached;
use crate::direct_session::RawSession;
use crate::encryption::SessionEncryption;
use crate::error::SessionError;
use crate::manager_connect::{
    ChannelHeard, ChannelNext, DirectEvent, DirectNext, DirectTry, ForwardHeard, ForwardNext,
    OptimalEvent, OptimalNext, Resolution, Resolving, ReverseHeard, ReverseNext, ReverseWait,
    ServerEvent, ServerNext, ServerStep,
};
use crate::manager_init::{InitAction, InitEvent, InitStep, Initialization};
use crate::model::{ids_of, Identity, NodeId, SessionHandle, SessionId, SlotId, SocketAddr};
use crate::network_view::SessionPermit;
use crate::registry::NodeEntry;
use crate::session_guard::{ConnectError, NodeAwaiting};
use crate::session_layer::SessionLayer;
use crate::session_manager::SessionManager;
use crate::session_state::{RelayedState, SessionState};
use crate::transport_layer::ForwardSender;

verus! {

/// Whether one of the identities has an id.
pub open spec fn has_identity(identities: Seq<Identity>, id: NodeId) -> bool {
    exists|i: int| 0 <= i < identities.len() && (#[trigger] identities[i]).node_id == id
}

proof fn lemma_has_identity(identities: Seq<Identity>, id: NodeId)
    ensures
        ids_of(identities).contains(id) <==> has_identity(identities, id),
{
    let ids = ids_of(identities);
    if ids.contains(id) {
        let i = choose|i: int| 0 <= i < ids.len() && ids[i] == id;
        assert(identities[i].node_id == id);
    }
    if has_identity(identities, id) {
        let i = choose|i: int|
            0 <= i < identities.len() && (#[trigger] identities[i]).node_id == id;
        assert(ids[i] == id);
    }
}

/// A session is taken up exactly where the other party answers within it and, if it was challenged,
/// proves to be the node that was asked for, under any of its ids.
pub proof fn law_session_is_with_the_node_asked_for(
    handshake: &mut Initialization,
    manager: &mut SessionManager,
    event: InitEvent,
    r: (InitAction, Option<u64>),
    id: SessionId,
    bytes: Vec<u8>,
    recovered: Result<(NodeId, Vec<Identity>), String>,
)
    requires
        old(manager)@.wf(),
        old(manager)@.sink,
        call_ensures(Initialization::init_session, (handshake, manager, event), r),
        old(handshake).step == InitStep::AwaitingReply(id),
        event == (InitEvent::ReplyReceived { reply: Ok::<Vec<u8>, String>(bytes), recovered }),
    ensures
        ({
            let h = *old(handshake);
            let answered = bytes@ == id.bytes();
            let proved = if h.challenge {
                recovered is Ok && (h.node_id matches Some(node) ==> recovered->Ok_0.0 == node
                    || has_identity(recovered->Ok_0.1@, node))
            } else {
                h.node_id is None || h.node_id == Some(NodeId { high: 0, low: 0 })
            };
            &&& r.0 is Resume <==> answered && proved
            &&& r.0 is Resume || (r.0 matches InitAction::Fail { error, disconnect }
                && disconnect && error is Drop)
            &&& r.0 matches InitAction::Resume(session) ==> {
                &&& session.id == id
                &&& session.remote == h.addr
                &&& final(handshake).step == InitStep::Resuming(session)
                &&& final(manager)@.sessions.contains_key(h.addr)
                &&& !old(manager)@.sessions.contains_key(h.addr) ==> final(manager)@.sessions[h.addr] == session
            }
            &&& r.0 is Fail ==> final(manager)@ == old(manager)@ && final(handshake).step is Done
            &&& r.1 is None
        }),
{
    if let Ok(found) = recovered {
        if let Some(node) = old(handshake).node_id {
            lemma_has_identity(found.1@, node);
        }
    }
    if !old(handshake).challenge {
        if let Some(node) = old(handshake).node_id {
            lemma_has_identity(Seq::empty(), node);
        }
    }
}

/// A handshake whose steps all succeed asks, solves, answers, resumes and ends with the session.
pub proof fn law_initialization_runs_through(
    hs: Seq<Initialization>,
    ms: Seq<crate::session_manager::ManagerModel>,
    fresh: SessionId,
    first: Vec<u8>,
    id: SessionId,
    second: Vec<u8>,
    recovered: Result<(NodeId, Vec<Identity>), String>,
    rs: Seq<(InitAction, Option<u64>)>,
)
    requires
        hs.len() == 6,
        ms.len() == 6,
        rs.len() == 5,
        ms[0].sink,
        hs[0].step == InitStep::Start,
        first@ == id.bytes(),
        second@ == id.bytes(),
        hs[0].challenge ==> recovered is Ok && (hs[0].node_id matches Some(node)
            ==> recovered->Ok_0.0 == node),
        !hs[0].challenge ==> hs[0].node_id is None,
        crate::manager_init::init_stepped(
            hs[0],
            ms[0],
            InitEvent::Begin { fresh, prepared: Ok(()) },
            hs[1],
            ms[1],
            rs[0],
        ),
        crate::manager_init::init_stepped(
            hs[1],
            ms[1],
            InitEvent::SessionReceived(Ok((first, true))),
            hs[2],
            ms[2],
            rs[1],
        ),
        crate::manager_init::init_stepped(
            hs[2],
            ms[2],
            InitEvent::Solved(Ok(())),
            hs[3],
            ms[3],
            rs[2],
        ),
        crate::manager_init::init_stepped(
            hs[3],
            ms[3],
            InitEvent::ReplyReceived { reply: Ok(second), recovered },
            hs[4],
            ms[4],
            rs[3],
        ),
        crate::manager_init::init_stepped(
            hs[4],
            ms[4],
            InitEvent::Resumed(Ok(())),
            hs[5],
            ms[5],
            rs[4],
        ),
    ensures
        rs[0].0 matches InitAction::SendSession { session, timeout } && session.remote == (if ms[0].guarded.tmp.contains_key(
            hs[0].addr,
        ) {
            ms[0].guarded.tmp[hs[0].addr].remote
        } else {
            hs[0].addr
        }) && timeout == ms[0].config.session_request_timeout,
        rs[1].0 is Solve,
        rs[2].0 == (InitAction::SendSolution {
            id,
            timeout: ms[0].config.challenge_request_timeout,
        }),
        rs[3].0 == InitAction::Resume(RawSession { id, remote: hs[0].addr }),
        rs[4].0 == InitAction::Finish(RawSession { id, remote: hs[0].addr }),
        hs[5].step is Done,
        ms[5].sessions.contains_key(hs[0].addr),
{
    crate::model::lemma_be_len(id.value as nat, 16);
    if let InitStep::Solving(other) = hs[2].step {
        crate::model::lemma_session_id_bytes_injective(other, id);
    }
}

/// An attempt that fails on the way ends without a session, and can be repeated.
pub proof fn law_failed_initialization_leaves_no_session(
    handshake: &mut Initialization,
    manager: &mut SessionManager,
    event: InitEvent,
    r: (InitAction, Option<u64>),
)
    requires
        old(manager)@.wf(),
        call_ensures(Initialization::init_session, (handshake, manager, event), r),
    ensures
        r.0 is Fail ==> final(handshake).step is Done && final(manager)@.sessions == old(manager)@.sessions,
        r.0 is Ignore ==> *final(handshake) == *old(handshake) && final(manager)@ == old(manager)@,
        r.0 is Finish ==> old(handshake).step is Resuming,
        r.0 is Resume ==> old(handshake).step is AwaitingReply,
        final(handshake).addr == old(handshake).addr,
        final(handshake).node_id == old(handshake).node_id,
        final(handshake).challenge == old(handshake).challenge,
        old(handshake).step is Done ==> r.0 is Ignore,
        (event matches InitEvent::SessionReceived(Err(_))) && old(handshake).step
            is AwaitingSession ==> (r.0 matches InitAction::Fail { error, disconnect } && error
            is Retry && !disconnect),
        (event matches InitEvent::Solved(Err(_))) && old(handshake).step is Solving ==> (
        r.0 matches InitAction::Fail { error, disconnect } && error is Retry && !disconnect),
        (event matches InitEvent::Resumed(Err(_))) && old(handshake).step is Resuming ==> (
        r.0 matches InitAction::Fail { error, disconnect } && error is Retry && !disconnect),
        (event matches InitEvent::Resumed(Ok(_))) && old(handshake).step is Resuming ==> (
        r.0 matches InitAction::Finish(session) && old(handshake).step == InitStep::Resuming(
            session,
        )),
{
}

/// A direct session with a node is found by its address and under its id.
pub proof fn law_direct_session_is_kept(
    manager: &mut SessionManager,
    addr: SocketAddr,
    node_id: NodeId,
    result: Result<RawSession, ConnectError>,
    r: Result<RawSession, ConnectError>,
    other: NodeId,
)
    requires
        old(manager)@.wf(),
        call_ensures(SessionManager::init_p2p_session, (manager, addr, node_id, result), r),
        other != node_id,
    ensures
        r == result,
        result is Err ==> final(manager)@ == old(manager)@,
        result matches Ok(session) ==> final(manager)@.p2p_sessions.contains_key(node_id) && final(manager)@.p2p_sessions[node_id] == session && final(manager)@.nodes_addr.contains_key(addr)
            && final(manager)@.nodes_addr[addr] == node_id,
        final(manager)@.p2p_sessions.contains_key(other) <==> old(manager)@.p2p_sessions.contains_key(other),
        old(manager)@.p2p_sessions.contains_key(other) ==> final(manager)@.p2p_sessions[other]
            == old(manager)@.p2p_sessions[other],
        final(manager)@.registry == old(manager)@.registry,
{
}

/// A session with the relay server is found by the address of the server.
pub proof fn law_relay_session_is_kept(
    manager: &mut SessionManager,
    addr: SocketAddr,
    result: Result<RawSession, ConnectError>,
    r: Result<RawSession, ConnectError>,
    other: SocketAddr,
)
    requires
        old(manager)@.wf(),
        call_ensures(SessionManager::init_server_session, (manager, addr, result), r),
        other != addr,
    ensures
        r is Ok <==> result is Ok,
        result is Err ==> final(manager)@ == old(manager)@ && r->Err_0 is Retry,
        result matches Ok(session) ==> r->Ok_0 == session && final(manager)@.sessions.contains_key(
            addr,
        ) && final(manager)@.sessions[addr] == session,
        final(manager)@.sessions.contains_key(other) <==> old(manager)@.sessions.contains_key(
            other,
        ),
        old(manager)@.sessions.contains_key(other) ==> final(manager)@.sessions[other] == old(manager)@.sessions[other],
{
}

/// This node does not connect to itself, and not without an id. Whoever else wants to connect to
/// the same node gets the same lock.
pub proof fn law_resolving_needs_another_node(
    manager: &mut SessionManager,
    node_id: &Vec<u8>,
    endpoints: &Vec<Option<SocketAddr>>,
    lock: u64,
    r: Result<Resolving, String>,
)
    requires
        old(manager)@.wf(),
        call_ensures(SessionManager::resolve, (manager, node_id, endpoints, lock), r),
    ensures
        r is Ok ==> node_id@.len() == 20,
        node_id@.len() == 20 && node_id@ != old(manager)@.config.node_id.bytes() ==> r is Ok,
        node_id@ == old(manager)@.config.node_id.bytes() ==> r is Err,
        r is Err ==> final(manager)@ == old(manager)@,
        r matches Ok(resolving) ==> {
            let m = old(manager)@;
            &&& resolving.node_id.bytes() == node_id@
            &&& m.guarded.targets.contains_key(resolving.node_id) ==> resolving.lock
                == m.guarded.targets[resolving.node_id].lock && final(manager)@ == m
            &&& final(manager)@.sessions == m.sessions
            &&& final(manager)@.registry == m.registry
        },
{
    if let Ok(resolving) = r {
        if node_id@ == old(manager)@.config.node_id.bytes() {
            crate::model::lemma_node_id_bytes_injective(
                resolving.node_id,
                old(manager)@.config.node_id,
            );
        }
    }
}

/// Where a direct session was got, packets go over it directly. Where trying on makes sense, the
/// relay server is used, if the node has a slot there. An error that says to stop is returned.
pub proof fn law_relay_is_used_where_nothing_else_works(
    manager: &mut SessionManager,
    node_id: NodeId,
    slot: SlotId,
    direct: Result<RawSession, ConnectError>,
    r: Resolution,
)
    requires
        old(manager)@.wf(),
        call_ensures(SessionManager::try_resolve, (manager, node_id, slot, direct), r),
    ensures
        r is ServerSession <==> (direct matches Err(ConnectError::Retry(_))) && slot != 0,
        (r matches Resolution::Finish(Ok(_))) <==> direct is Ok,
        direct is Err ==> final(manager)@ == old(manager)@,
        direct matches Err(ConnectError::Drop(e)) ==> (r matches Resolution::Finish(Err(error))
            && error == ConnectError::Drop(e)),
        direct matches Ok(session) ==> {
            let entry = r->Finish_0->Ok_0;
            let after = final(manager)@.registry;
            &&& entry.id == node_id
            &&& entry.session == session
            &&& entry.slot == 0
            &&& after.nodes.contains_key(node_id)
            &&& after.nodes[node_id] == entry
            &&& slot != 0 ==> after.slots.contains_key(slot) && after.slots[slot] == node_id
        },
        forall|id: NodeId|
            id != node_id && old(manager)@.registry.nodes.contains_key(id) ==> final(manager)@.registry.nodes.contains_key(id) && #[trigger] final(manager)@.registry.nodes[id]
                == old(manager)@.registry.nodes[id],
{
}

/// A node that is reached through the relay server is found by its id and on its slot there.
pub proof fn law_relayed_node_is_found(
    manager: &mut SessionManager,
    node_id: NodeId,
    slot: SlotId,
    server: Result<RawSession, String>,
    r: Result<NodeEntry, ConnectError>,
)
    requires
        old(manager)@.wf(),
        call_ensures(SessionManager::resolve_through_server, (manager, node_id, slot, server), r),
    ensures
        r is Ok <==> server is Ok,
        r is Err ==> final(manager)@ == old(manager)@,
        r matches Ok(entry) ==> {
            let after = final(manager)@.registry;
            &&& entry.id == node_id
            &&& entry.session == server->Ok_0
            &&& entry.slot == slot
            &&& after.nodes.contains_key(node_id)
            &&& after.nodes[node_id] == entry
            &&& slot != 0 ==> after.slots.contains_key(slot) && after.slots[slot] == node_id
        },
{
}

/// Addresses are tried one after the other, each once. The node is asked to connect only after all
/// of them failed, only if that is allowed, and only if this node has a public address. The first
/// session ends the search.
pub proof fn law_addresses_come_before_asking_back(
    attempt: &mut DirectTry,
    manager: &SessionManager,
    event: DirectEvent,
    r: DirectNext,
)
    requires
        call_ensures(DirectTry::try_direct_session, (attempt, manager, event), r),
    ensures
        ({
            let h = *old(attempt);
            let goes_on = event is Begin || (event matches DirectEvent::Attempted(
                Err(ConnectError::Retry(_)),
            ));
            let left = h.next < h.addrs@.len();
            &&& r is InitP2p <==> goes_on && left
            &&& r matches DirectNext::InitP2p(addr) ==> addr == h.addrs@[h.next as int] && final(attempt).next == h.next + 1
            &&& r is Reverse <==> goes_on && !left && h.try_reverse && manager@.public_addr is Some
            &&& (r matches DirectNext::Finish(Ok(_))) <==> (event matches DirectEvent::Attempted(
                Ok(_),
            )) || (event matches DirectEvent::Reversed(Ok(_)))
            &&& event matches DirectEvent::Attempted(Ok(session)) ==> (
            r matches DirectNext::Finish(Ok(s)) && s == session)
            &&& event matches DirectEvent::Reversed(Ok(session)) ==> (
            r matches DirectNext::Finish(Ok(s)) && s == session)
            &&& event matches DirectEvent::Attempted(Err(ConnectError::Drop(e))) ==> (
            r matches DirectNext::Finish(Err(error)) && error == ConnectError::Drop(e))
            &&& event matches DirectEvent::Reversed(Err(_)) ==> (
            r matches DirectNext::Finish(Err(error)) && error is Retry)
            &&& final(attempt).addrs@ == h.addrs@
            &&& final(attempt).node_id == h.node_id
            &&& final(attempt).try_reverse == h.try_reverse
        }),
{
    assert(old(attempt).addrs.len() == old(attempt).addrs@.len());
}

/// Asking a node to connect goes over the relay server, waits for a first message, and then for
/// the session; what came of it is returned.
pub proof fn law_asking_back_waits_in_order(
    manager: &mut SessionManager,
    node_id: NodeId,
    step: ReverseWait,
    event: ReverseHeard,
    r: (ReverseWait, ReverseNext),
    awaiting: NodeAwaiting,
)
    requires
        old(manager)@.wf(),
        call_ensures(SessionManager::try_reverse_connection, (manager, node_id, step, event), r),
    ensures
        ({
            let m = old(manager)@;
            &&& step is Start && event is Begin ==> (r.1 is ServerSession
                <==> m.guarded.targets.contains_key(node_id))
            &&& r.1 is ServerSession ==> final(manager)@.guarded.targets[node_id].wait_for_connection && r.0 == ReverseWait::Server(
                NodeAwaiting { lock: m.guarded.targets[node_id].lock },
            )
            &&& step == ReverseWait::Server(awaiting) && (event matches ReverseHeard::Server(Ok(_)))
                ==> r.1 is Request && r.0 == ReverseWait::Requesting(awaiting)
            &&& step == ReverseWait::Requesting(awaiting) && (event matches ReverseHeard::Requested(
                Ok(_),
            )) ==> r.1 == (ReverseNext::AwaitFirstMessage {
                awaiting,
                timeout: m.config.reverse_connection_tmp_timeout,
            }) && r.0 == ReverseWait::FirstMessage(awaiting)
            &&& step == ReverseWait::FirstMessage(awaiting) && (
            event matches ReverseHeard::FirstMessage(Ok(_))) ==> r.1 == (
            ReverseNext::AwaitConnection {
                awaiting,
                timeout: m.config.reverse_connection_real_timeout,
            }) && r.0 == ReverseWait::Connection(awaiting)
            &&& step == ReverseWait::Connection(awaiting) && (
            event matches ReverseHeard::Connection(Some(Some(Ok(session))))) ==> (
            r.1 matches ReverseNext::Finish(Ok(s)) && event == ReverseHeard::Connection(
                Some(Some(Ok::<RawSession, ConnectError>(s))),
            ))
            &&& (r.1 matches ReverseNext::Finish(Ok(_))) ==> step is Connection && (
            event matches ReverseHeard::Connection(Some(Some(Ok(_)))))
            &&& r.1 is Finish ==> r.0 is Done
            &&& r.1 is Ignore ==> r.0 == step && final(manager)@ == m
            &&& step is Done ==> r.1 is Ignore
            &&& final(manager)@.sessions == m.sessions
        }),
{
}

/// The session with the relay server is initialized by one caller at a time, under one lock, and
/// only if there is none. Endpoints that the server sees become the public address.
pub proof fn law_relay_session_is_shared(
    manager: &mut SessionManager,
    step: ServerStep,
    event: ServerEvent,
    r: (ServerStep, ServerNext),
)
    requires
        old(manager)@.wf(),
        call_ensures(SessionManager::server_session, (manager, step, event), r),
    ensures
        ({
            let m = old(manager)@;
            let id = NodeId { high: 0, low: 0 };
            let addr = m.config.srv_addr;
            &&& step is Start && event is Begin ==> r.1 is Lock && r.0 is Locking
            &&& step is Start && event is Begin && m.guarded.targets.contains_key(id) ==> r.1
                == ServerNext::Lock(m.guarded.targets[id].lock) && final(manager)@ == m
            &&& step is Locking && event is Locked && m.sessions.contains_key(addr) ==> (
            r.1 matches ServerNext::Finish(Ok(s)) && s == m.sessions[addr])
            &&& step is Locking && event is Locked && !m.sessions.contains_key(addr) ==> r.1
                == ServerNext::InitServerSession(addr) && r.0 is Initializing
            &&& step is Initializing && event is Initialized ==> !final(manager)@.guarded.targets.contains_key(id)
            &&& step is Initializing && (event matches ServerEvent::Initialized(Ok(_))) ==> (
            r.1 matches ServerNext::Established { session, notify } && event
                == ServerEvent::Initialized(Ok::<RawSession, ConnectError>(session)) && r.0
                == ServerStep::Registering(session) && (notify is Some
                <==> m.guarded.targets.contains_key(id)))
            &&& step is Initializing && (event matches ServerEvent::Initialized(Err(_))) ==> r.1
                is Failed && r.0 is Done
            &&& step matches ServerStep::Registering(session) ==> event matches ServerEvent::Endpoints(
                Ok(list),
            ) ==> {
                &&& r.1 matches ServerNext::Finish(Ok(s)) && s == session
                &&& list@.len() > 0 && list@[0] is Some ==> final(manager)@.public_addr == list@[0]
                &&& (forall|i: int| 0 <= i < list@.len() ==> (#[trigger] list@[i]) is None)
                    ==> final(manager)@ == m
            }
            &&& step is Registering && (event matches ServerEvent::Endpoints(Err(_))) ==> (
            r.1 matches ServerNext::Finish(Err(_))) && final(manager)@ == m
            &&& final(manager)@.sessions == m.sessions
        }),
{
    if let ServerEvent::Endpoints(Ok(list)) = event {
        if forall|i: int| 0 <= i < list@.len() ==> (#[trigger] list@[i]) is None {
            lemma_none_readable(list@);
        }
    }
}

proof fn lemma_none_readable(list: Seq<Option<SocketAddr>>)
    requires
        forall|i: int| 0 <= i < list.len() ==> (#[trigger] list[i]) is None,
    ensures
        crate::connect::first_some(list) is None,
    decreases list.len(),
{
    if list.len() > 0 {
        assert forall|i: int| 0 <= i < list.skip(1).len() implies (#[trigger] list.skip(1)[i])
            is None by {
            assert(list.skip(1)[i] == list[i + 1]);
        }
        lemma_none_readable(list.skip(1));
    }
}

/// A node that is known is reached over its session. Any other is asked for at the relay server and
/// resolved, and a failure on the way ends the search.
pub proof fn law_known_node_is_reached_at_once(
    manager: &SessionManager,
    node_id: NodeId,
    event: OptimalEvent,
    r: OptimalNext,
)
    requires
        call_ensures(SessionManager::optimal_session, (manager, node_id, event), r),
    ensures
        ({
            let known = manager@.registry.nodes;
            &&& event is Begin ==> (r is ServerSession <==> !known.contains_key(node_id))
            &&& event is Begin && known.contains_key(node_id) ==> (
            r matches OptimalNext::Finish(Ok(s)) && s == known[node_id].session)
            &&& event matches OptimalEvent::Resolved(Ok(entry)) ==> (
            r matches OptimalNext::Finish(Ok(s)) && s == entry.session)
            &&& event matches OptimalEvent::Identified(Ok(info)) ==> r == OptimalNext::Resolve(info)
            &&& event matches OptimalEvent::Server(Ok(_)) ==> r is FindNode
            &&& event matches OptimalEvent::Found(Ok(_)) ==> r is Identify
            &&& (event matches OptimalEvent::Server(Err(_))) || (
            event matches OptimalEvent::Found(Err(_))) || (
            event matches OptimalEvent::Identified(Err(_))) || (
            event matches OptimalEvent::Resolved(Err(_))) ==> (
            r matches OptimalNext::Finish(Err(_)))
        }),
{
}

/// A channel to a known node is used if there is one, and opened otherwise; it is the channel of
/// that node from then on. There is no channel to a node that is not known.
pub proof fn law_known_node_gets_a_channel(
    manager: &mut SessionManager,
    node_id: NodeId,
    event: ForwardHeard,
    r: ForwardNext,
)
    requires
        old(manager)@.wf(),
        call_ensures(SessionManager::forward, (manager, node_id, event), r),
    ensures
        ({
            let m = old(manager)@;
            let after = final(manager)@;
            let known = m.registry.nodes.contains_key(node_id);
            let open = m.forward_reliable.contains_key(node_id);
            &&& event is Begin && known && !open ==> r == ForwardNext::Lock(m.registry.nodes[node_id])
            &&& event is Begin && known && !open ==> forall|lane: crate::session_manager::Lane|
                !#[trigger] after.fast_lane.contains_key(lane)
            &&& event is Begin && known && open ==> (r matches ForwardNext::Finish(Ok(tx)) && tx
                == m.forward_reliable[node_id])
            &&& event is Begin && !known ==> (r matches ForwardNext::Finish(Err(_)))
            &&& event matches ForwardHeard::Locked { node, was_locked } ==> {
                &&& after == m
                &&& was_locked && open ==> (r matches ForwardNext::Finish(Ok(tx)) && tx
                    == m.forward_reliable[node_id])
                &&& !(was_locked && open) ==> r == ForwardNext::Connect(node)
            }
            &&& event matches ForwardHeard::Connected { node, result: Ok(_), tx } ==> r == (
            ForwardNext::Spawn { node, tx }) && after.forward_reliable.contains_key(node_id)
                && after.forward_reliable[node_id] == tx
            &&& event matches ForwardHeard::Connected { node, result: Err(e), tx } ==> (
            r matches ForwardNext::Finish(Err(error)) && error == e) && after == m
            &&& forall|id: NodeId|
                id != node_id && m.forward_reliable.contains_key(id)
                    ==> after.forward_reliable.contains_key(id)
                    && #[trigger] after.forward_reliable[id] == m.forward_reliable[id]
            &&& after.registry == m.registry
            &&& after.sessions == m.sessions
        }),
{
}

/// The same without guarantees, where the channel opens at once.
pub proof fn law_known_node_gets_an_unreliable_channel(
    manager: &mut SessionManager,
    node_id: NodeId,
    tx: ForwardSender,
    r: ForwardNext,
)
    requires
        old(manager)@.wf(),
        call_ensures(SessionManager::forward_unreliable, (manager, node_id, tx), r),
    ensures
        ({
            let m = old(manager)@;
            let known = m.registry.nodes.contains_key(node_id);
            let open = m.forward_unreliable.contains_key(node_id);
            &&& !known ==> (r matches ForwardNext::Finish(Err(_))) && final(manager)@ == m
            &&& known && open ==> (r matches ForwardNext::Finish(Ok(used)) && used
                == m.forward_unreliable[node_id]) && final(manager)@ == m
            &&& known && !open ==> r == (ForwardNext::Spawn {
                node: m.registry.nodes[node_id],
                tx,
            }) && final(manager)@.forward_unreliable.contains_key(node_id) && final(manager)@.forward_unreliable[node_id] == tx
        }),
{
}

/// A channel sends what is put into it as it is, under the slot of its node, until sending fails or
/// nothing more comes; then it closes.
pub proof fn law_channel_sends_until_it_closes(
    manager: &mut SessionManager,
    session: RawSession,
    node: NodeEntry,
    event: ChannelHeard,
    r: ChannelNext,
)
    requires
        old(manager)@.wf(),
        call_ensures(
            SessionManager::forward_unreliable_handler,
            (manager, session, node, event),
            r,
        ),
    ensures
        event matches ChannelHeard::Payload(Some(payload)) ==> (r matches ChannelNext::Send(f)
            && f.session_id == session.id && f.slot == node.slot && !f.reliable && !f.encrypted
            && f.payload@ == payload@) && final(manager)@ == old(manager)@,
        event matches ChannelHeard::Sent(Ok(_)) ==> r is Receive && final(manager)@ == old(manager)@,
        r is Close <==> (event matches ChannelHeard::Payload(None)) || (
        event matches ChannelHeard::Sent(Err(_))),
        r matches ChannelNext::Close(removed) ==> removed@.len() == 1 && removed@[0].node_id
            == node.id && !final(manager)@.registry.nodes.contains_key(node.id) && !final(manager)@.forward_unreliable.contains_key(node.id),
{
}

/// The same with guarantees: the tcp stack gets the payload, and closing takes the session along.
pub proof fn law_reliable_channel_sends_until_it_closes(
    manager: &mut SessionManager,
    node: NodeEntry,
    event: ChannelHeard,
    r: ChannelNext,
)
    requires
        old(manager)@.wf(),
        call_ensures(SessionManager::forward_reliable_handler, (manager, node, event), r),
    ensures
        event matches ChannelHeard::Payload(Some(payload)) ==> r == ChannelNext::SendReliable(
            payload,
        ) && final(manager)@ == old(manager)@,
        event matches ChannelHeard::Sent(Ok(_)) ==> r is Receive && final(manager)@ == old(manager)@,
        r is Close <==> (event matches ChannelHeard::Payload(None)) || (
        event matches ChannelHeard::Sent(Err(_))),
        r is Close ==> !final(manager)@.sessions.contains_key(node.session.remote),
{
    if let ChannelNext::Close(removed) = r {
        crate::session_manager::lemma_closed_session_is_gone(
            old(manager)@,
            node.session,
            final(manager)@,
            removed@,
            node.id,
        );
    }
}

/// A node behind a relay is reached over the session with the relay server, under each of its ids
/// and on the slot that the server knows it by. That fails without a session with the server, and
/// where the node has no identity.
pub proof fn law_relayed_connection_reaches_the_node(
    layer: &mut SessionLayer,
    permit: &SessionPermit,
    server: Result<SessionHandle, SessionError>,
    encryption: SessionEncryption,
    r: Result<SessionHandle, SessionError>,
    i: int,
)
    requires
        old(layer)@.wf(),
        old(layer)@.registry.has(permit.registry),
        old(layer)@.next_number < u64::MAX,
        call_ensures(
            SessionLayer::try_relayed_connection,
            (layer, permit, server, encryption),
            r,
        ),
        old(layer)@.registry.nodes[permit.registry.index as int].state == SessionState::Relayed(
            RelayedState::Initializing,
        ),
        0 <= i,
    ensures
        ({
            let m = old(layer)@;
            let after = final(layer)@;
            let node = m.registry.nodes[permit.registry.index as int];
            &&& r is Ok <==> server is Ok && node.node.len() > 0 && m.sessions.contains_key(
                server->Ok_0,
            )
            &&& r is Err ==> after == m
            &&& r matches Ok(h) ==> {
                &&& h == server->Ok_0
                &&& after.registry.nodes[permit.registry.index as int].state
                    == SessionState::Relayed(RelayedState::Ready)
                &&& i < node.node.len() ==> {
                    let id = node.node[i].node_id;
                    &&& after.nodes.contains_key(id)
                    &&& after.nodes[id].route == h
                    &&& after.nodes[id].encryption == encryption
                    &&& after.nodes[id].generation == permit.generation
                    &&& after.nodes[id].authenticated_identities == node.authenticated_identities
                    &&& after.nodes[id].node.identities == node.node
                    &&& after.nodes[id].node.default_id == node.node[0]
                    &&& after.sessions[h].forwards.nodes.contains_key(id)
                    &&& after.sessions[h].forwards.nodes[id] == node.slot
                    &&& after.sessions[h].forwards.slots[node.slot].default_id
                        == node.node[0].node_id
                }
                &&& after.p2p_nodes == m.p2p_nodes
                &&& after.p2p_sessions == m.p2p_sessions
            }
        }),
{
    let m = old(layer)@;
    let node = m.registry.nodes[permit.registry.index as int];
    if r is Ok && i < node.node.len() {
        let ids = ids_of(node.node);
        assert(ids[i] == node.node[i].node_id);
        assert(ids.contains(node.node[i].node_id));
        lemma_relayed_node_is_reached(
            m,
            *permit,
            server->Ok_0,
            encryption,
            node.node[i].node_id,
        );
    }
}

} // verus!
