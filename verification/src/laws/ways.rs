//! Promises about finding ways to nodes.
use vstd::prelude::*;

use crate::connect::{
    connect_stepped, first_endpoint, resolve_stepped, reverse_stepped, ConnectAction, ConnectEvent,
    ConnectStep, Connecting, DirectAction, DirectAttempt, ResolveAction, ResolveEvent,
    ReverseAction, ReverseAttempt, ReverseEvent, ReverseStep, ServerAction,
};
use crate::error::{SessionError, SessionInitError};
use crate::laws::handshakes::only_state;
use crate::model::{NodeId, NodeInfo, SessionHandle, SocketAddr};
use crate::network_view::{NetworkModel, NodeAwaiting, SessionPermit};
use crate::routing_session::RoutingSender;
use crate::session_layer::{ConnectionMethod, LayerModel, SessionLayer};
use crate::session_state::{InitState, ReverseState, SessionState};

verus! {

/// Place of a way in the order in which ways are tried.
pub open spec fn place(method: ConnectionMethod) -> int {
    match method {
        ConnectionMethod::Direct => 1,
        ConnectionMethod::Reverse => 2,
        ConnectionMethod::Relay => 3,
    }
}

/// Whether a way may be tried, and comes after one that failed.
pub open spec fn left_to_try(
    last: Option<ConnectionMethod>,
    dont_use: Seq<ConnectionMethod>,
    method: ConnectionMethod,
) -> bool {
    !dont_use.contains(method) && (last matches Some(failed) ==> place(failed) < place(method))
}

/// The first way that is left is tried: a direct session before a reverse connection, and that
/// before a relay. The search ends without a session exactly if no way is left.
pub proof fn law_every_way_is_tried(
    m: NetworkModel,
    permit: SessionPermit,
    node_id: NodeId,
    dont_use: Seq<ConnectionMethod>,
    event: ResolveEvent,
    last: Option<ConnectionMethod>,
    after: NetworkModel,
    r: ResolveAction,
)
    requires
        m.has(permit.registry),
        resolve_stepped(m, permit, node_id, dont_use, event, after, r),
        match last {
            None => event is Begin,
            Some(failed) => event == ResolveEvent::Failed(failed),
        },
        last is Some && last != Some(ConnectionMethod::Relay) ==> {
            let state = m.nodes[permit.registry.index as int].state;
            state is Outgoing || state is ReverseConnection || state is RestartConnect
        },
    ensures
        r matches ResolveAction::Try(method) ==> left_to_try(last, dont_use, method) && forall|
            other: ConnectionMethod,
        | #[trigger]
            left_to_try(last, dont_use, other) ==> place(method) <= place(other),
        r is Finish <==> forall|method: ConnectionMethod|
            !#[trigger] left_to_try(last, dont_use, method),
        r matches ResolveAction::Finish { result, established } ==> result is Err
            && established is None,
        match last {
            None => after == m,
            Some(ConnectionMethod::Relay) => after == m,
            Some(_) => only_state(m, permit.registry, SessionState::RestartConnect, after),
        },
{
    if r is Finish {
        assert forall|method: ConnectionMethod| !#[trigger] left_to_try(
            last,
            dont_use,
            method,
        ) by {
            match method {
                ConnectionMethod::Direct => {},
                ConnectionMethod::Reverse => {},
                ConnectionMethod::Relay => {},
            }
        }
    }
}

/// A way that leads to a session ends the search with that session.
pub proof fn law_first_session_ends_the_search(
    m: NetworkModel,
    permit: SessionPermit,
    node_id: NodeId,
    dont_use: Seq<ConnectionMethod>,
    method: ConnectionMethod,
    session: SessionHandle,
    after: NetworkModel,
    r: ResolveAction,
)
    requires
        resolve_stepped(
            m,
            permit,
            node_id,
            dont_use,
            ResolveEvent::Succeeded(method, session),
            after,
            r,
        ),
    ensures
        after == m,
        r == (ResolveAction::Finish {
            result: Ok::<SessionHandle, SessionError>(session),
            established: Some(method),
        }),
{
}

/// The addresses of a node are tried one after the other, in order, until one of them leads to a
/// session. Without a session, the attempt ends only when no address is left.
pub proof fn law_addresses_are_tried_in_order(
    attempt: &mut DirectAttempt,
    last: Option<Result<SessionHandle, SessionInitError>>,
    r: DirectAction,
)
    requires
        call_ensures(DirectAttempt::step, (attempt, last), r),
    ensures
        final(attempt).node_id == old(attempt).node_id,
        last matches Some(Ok(session)) ==> r == DirectAction::Finish(
            Ok::<SessionHandle, SessionError>(session),
        ),
        !(last matches Some(Ok(_))) ==> {
            let left = old(attempt).addrs@;
            &&& r is Init <==> left.len() > 0
            &&& r matches DirectAction::Init(addr) ==> left == seq![addr] + final(attempt).addrs@
            &&& r matches DirectAction::Finish(result) ==> result is Err && left.len() == 0
        },
{
    if old(attempt).addrs@.len() > 0 {
        assert(old(attempt).addrs@ =~= seq![old(attempt).addrs@[0]] + old(attempt).addrs@.skip(1));
    }
}

/// A direct session is tried at exactly the addresses that are known of the node, and only if
/// there are any.
pub proof fn law_direct_session_uses_known_addresses(
    layer: &SessionLayer,
    node_id: NodeId,
    permit: &SessionPermit,
    r: Result<DirectAttempt, SessionError>,
)
    requires
        layer@.protocol is Some,
        call_ensures(SessionLayer::try_direct_session, (layer, node_id, permit), r),
    ensures
        ({
            let known = layer@.registry.nodes[permit.registry.index as int].addresses;
            &&& r is Ok <==> known.len() > 0
            &&& r matches Ok(attempt) ==> attempt.node_id == node_id && attempt.addrs@ == known
            &&& r matches Err(e) ==> e is NotApplicable
        }),
{
}

/// A request for a reverse connection that goes well at every step returns the session that the
/// other node opened: the relay server is asked to tell the node, a message of the node is waited
/// for with the shorter limit, and the end of its handshake with the longer one.
pub proof fn law_reverse_connection_succeeds(
    ms: Seq<LayerModel>,
    permit: SessionPermit,
    attempts: Seq<ReverseAttempt>,
    actions: Seq<ReverseAction>,
    server: SessionHandle,
    session: SessionHandle,
)
    requires
        ms.len() == 6,
        attempts.len() == 6,
        actions.len() == 5,
        ms[0].registry.has(permit.registry),
        ms[0].public_addr is Some,
        attempts[0].step == ReverseStep::Begin,
        ({
            let state = ms[0].registry.nodes[permit.registry.index as int].state;
            state == SessionState::Outgoing(InitState::ConnectIntent) || state
                == SessionState::RestartConnect
        }),
        reverse_stepped(
            ms[0],
            permit,
            attempts[0],
            ReverseEvent::Begin,
            ms[1],
            attempts[1],
            actions[0],
        ),
        reverse_stepped(
            ms[1],
            permit,
            attempts[1],
            ReverseEvent::Server(Ok(server)),
            ms[2],
            attempts[2],
            actions[1],
        ),
        reverse_stepped(
            ms[2],
            permit,
            attempts[2],
            ReverseEvent::Requested(Ok(())),
            ms[3],
            attempts[3],
            actions[2],
        ),
        reverse_stepped(
            ms[3],
            permit,
            attempts[3],
            ReverseEvent::Handshake(Ok(())),
            ms[4],
            attempts[4],
            actions[3],
        ),
        reverse_stepped(
            ms[4],
            permit,
            attempts[4],
            ReverseEvent::Finished(Ok(session)),
            ms[5],
            attempts[5],
            actions[4],
        ),
    ensures
        actions[0] == ReverseAction::GetServer(NodeAwaiting { registry: permit.registry }),
        actions[1] == (ReverseAction::Request { server, node_id: attempts[0].node_id }),
        actions[2] == ReverseAction::AwaitHandshake(ms[0].config.reverse_connection_tmp_timeout),
        actions[3] == ReverseAction::AwaitFinish(ms[0].config.reverse_connection_real_timeout),
        actions[4] == ReverseAction::Finish(Ok::<SessionHandle, SessionError>(session)),
        only_state(
            ms[0].registry,
            permit.registry,
            SessionState::ReverseConnection(ReverseState::Awaiting),
            ms[5].registry,
        ),
        ms[5].sessions == ms[0].sessions,
        ms[5].nodes == ms[0].nodes,
        ms[5].p2p_sessions == ms[0].p2p_sessions,
        ms[5].p2p_nodes == ms[0].p2p_nodes,
{
}

/// A request for a reverse connection finishes with a session only where one came, with the error
/// of a step that failed, and with a timeout only where nothing came in time. It needs a public
/// address of this node.
pub proof fn law_reverse_connection_reports_what_happened(
    m: LayerModel,
    permit: SessionPermit,
    attempt: ReverseAttempt,
    event: ReverseEvent,
    m_after: LayerModel,
    after: ReverseAttempt,
    r: ReverseAction,
)
    requires
        m.registry.has(permit.registry),
        reverse_stepped(m, permit, attempt, event, m_after, after, r),
    ensures
        after.node_id == attempt.node_id,
        r is Finish ==> after.step == ReverseStep::Done,
        r matches ReverseAction::Finish(Ok(session)) ==> attempt.step == ReverseStep::Finishing
            && event == ReverseEvent::Finished(Ok(session)),
        attempt.step == ReverseStep::Finishing ==> (event matches ReverseEvent::Finished(result)
            ==> r == ReverseAction::Finish(result) && m_after == m),
        attempt.step == ReverseStep::Finishing && event is NotFinished ==> (r
            matches ReverseAction::Finish(Err(SessionError::Timeout(_)))),
        attempt.step == ReverseStep::Handshake && event is NoHandshake ==> (r
            matches ReverseAction::Finish(Err(SessionError::Timeout(_)))),
        (r matches ReverseAction::Finish(Err(SessionError::Timeout(_)))) ==> (event is NoHandshake
            || event is NotFinished || (event matches ReverseEvent::Server(Err(_))) || (event
            matches ReverseEvent::Requested(Err(_))) || (event matches ReverseEvent::Handshake(
            Err(_),
        )) || (event matches ReverseEvent::Finished(Err(_)))),
        attempt.step == ReverseStep::Server ==> (event matches ReverseEvent::Server(Err(e)) ==> r
            == ReverseAction::Finish(Err::<SessionHandle, SessionError>(e))),
        attempt.step == ReverseStep::Requesting ==> (event matches ReverseEvent::Requested(Err(e))
            ==> r == ReverseAction::Finish(Err::<SessionHandle, SessionError>(e))),
        attempt.step == ReverseStep::Handshake ==> (event matches ReverseEvent::Handshake(Err(e))
            ==> r == ReverseAction::Finish(Err::<SessionHandle, SessionError>(e))),
        attempt.step == ReverseStep::Begin && event is Begin && m.public_addr is None ==> (r
            matches ReverseAction::Finish(Err(SessionError::NotApplicable(_)))) && m_after == m,
        attempt.step != ReverseStep::Begin ==> m_after == m,
{
}

/// Where a way to a node is known, it is handed out as soon as its session is ready, and nobody
/// is asked for anything.
pub proof fn law_known_way_is_used(
    m: LayerModel,
    request: Connecting,
    m1: LayerModel,
    waiting: Connecting,
    first: ConnectAction,
    m2: LayerModel,
    done: Connecting,
    last: ConnectAction,
    now: i64,
)
    requires
        m.nodes.contains_key(request.node_id),
        m.registry.by_node_id.contains_key(request.node_id),
        request.step == ConnectStep::Begin,
        connect_stepped(m, request, ConnectEvent::Begin, now, m1, waiting, first),
        connect_stepped(m1, waiting, ConnectEvent::Connected(Ok(())), now, m2, done, last),
    ensures
        m2 == m,
        first matches ConnectAction::AwaitConnected(awaiting) && awaiting.registry.index
            == m.registry.by_node_id[request.node_id],
        last == (ConnectAction::Finish {
            result: Ok::<RoutingSender, SessionError>(
                RoutingSender {
                    target: request.node_id,
                    routing: Some(m.nodes[request.node_id].number),
                },
            ),
            watch: None,
        }),
{
}

/// Where no way to a node is known, information about it is asked for, and then either the caller
/// gets the right to establish a session, without the ways that must not be used, or waits for
/// whoever has that right. A node is never connected to under an id of this one.
pub proof fn law_unknown_way_is_looked_for(
    m: LayerModel,
    request: Connecting,
    m1: LayerModel,
    asking: Connecting,
    first: ConnectAction,
    info: NodeInfo,
    m2: LayerModel,
    after: Connecting,
    second: ConnectAction,
    now: i64,
)
    requires
        m.wf(),
        !m.nodes.contains_key(request.node_id),
        request.step == ConnectStep::Begin,
        info.identities@.len() > 0,
        m.registry.by_node_id.contains_key(info.identities@[0].node_id),
        connect_stepped(m, request, ConnectEvent::Begin, now, m1, asking, first),
        connect_stepped(m1, asking, ConnectEvent::Info(Ok(info)), now, m2, after, second),
    ensures
        first is QueryInfo,
        m1 == m,
        ({
            let remote = info.identities@[0].node_id;
            let index = m.registry.by_node_id[remote];
            let state = m.registry.nodes[index as int].state;
            if remote == m.config.node_id {
                &&& m2 == m
                &&& second matches ConnectAction::Finish {
                    result: Err(SessionError::BadRequest(_)),
                    ..
                }
            } else if state is Closed || state is FailedEstablish {
                &&& second matches ConnectAction::Resolve { permit, dont_use } && dont_use@
                    == request.dont_use@ && permit.registry.index == index && !permit.reverse
                    && permit.generation == m2.registry.nodes[index as int].generation
                &&& m2.registry.nodes[index as int].state == SessionState::Outgoing(
                    InitState::ConnectIntent,
                )
                &&& m2.sessions == m.sessions
                &&& m2.nodes == m.nodes
            } else {
                &&& m2.registry == m.registry
                &&& second matches ConnectAction::Wait(awaiting) && awaiting.registry.index == index
            }
        }),
{
}

/// What establishing a session came to is what the request returns: the way to the node, to be
/// watched, or the text of the error.
pub proof fn law_established_way_is_returned(
    m: LayerModel,
    request: Connecting,
    remote: NodeId,
    result: Result<SessionHandle, SessionError>,
    m_after: LayerModel,
    after: Connecting,
    r: ConnectAction,
    now: i64,
)
    requires
        request.step == ConnectStep::Establishing(remote),
        connect_stepped(m, request, ConnectEvent::Established(result), now, m_after, after, r),
    ensures
        m_after == m,
        after.step == ConnectStep::Done,
        r matches ConnectAction::Finish { result: way, watch } && match result {
            Ok(session) => watch == Some(session) && match way {
                Ok(sender) => m.nodes.contains_key(request.node_id) && sender.target
                    == request.node_id && sender.routing == Some(m.nodes[request.node_id].number),
                Err(_) => !m.nodes.contains_key(request.node_id),
            },
            Err(e) => watch is None && (way matches Err(SessionError::Generic(text)) && text@
                == e.text()),
        },
{
}

/// The session with the relay server is used where there is one. Otherwise one caller gets the
/// right to establish it, at the address of the configuration, and all others wait.
pub proof fn law_server_session_is_established_once(
    layer: &mut SessionLayer,
    now: i64,
    r: ServerAction,
)
    requires
        call_ensures(SessionLayer::server_session, (layer, now), r),
        old(layer)@.wf(),
        old(layer)@.registry.nodes.len() < usize::MAX,
    ensures
        ({
            let m = old(layer)@;
            let after = final(layer)@;
            let addr = m.config.srv_addr;
            &&& after.sessions == m.sessions
            &&& after.p2p_sessions == m.p2p_sessions
            &&& after.nodes == m.nodes
            &&& r is Ready <==> m.p2p_sessions.contains_key(addr)
            &&& r matches ServerAction::Ready(session) ==> session == m.p2p_sessions[addr]
                && after == m
            &&& r matches ServerAction::Establish { permit, node_id, addr: at } ==> at == addr
                && node_id == (NodeId { high: 0, low: 0 }) && !permit.reverse
                && after.registry.nodes[permit.registry.index as int].state
                == SessionState::Outgoing(InitState::ConnectIntent)
            &&& r matches ServerAction::Wait(awaiting) ==> {
                let state = after.registry.nodes[awaiting.registry.index as int].state;
                !(state is Closed) && !(state is FailedEstablish)
            }
        }),
{
    let m = old(layer)@.registry;
    let addrs = seq![old(layer)@.config.srv_addr];
    assert(addrs.skip(1) =~= Seq::empty());
    assert(crate::network_view::first_by_addr(m.by_addr, addrs.skip(1)) is None);
}

/// The endpoint under which the relay server sees this node is the first one that could be read.
pub proof fn law_first_readable_endpoint_counts(
    endpoints: &Vec<Option<SocketAddr>>,
    r: Option<SocketAddr>,
)
    requires
        call_ensures(first_endpoint, (endpoints,), r),
    ensures
        match r {
            Some(addr) => exists|i: int|
                {
                    &&& 0 <= i < endpoints@.len()
                    &&& #[trigger] endpoints@[i] == Some(addr)
                    &&& forall|j: int| 0 <= j < i ==> #[trigger] endpoints@[j] is None
                },
            None => forall|i: int| 0 <= i < endpoints@.len() ==> #[trigger] endpoints@[i] is None,
        },
{
    lemma_first_some(endpoints@);
}

proof fn lemma_first_some(list: Seq<Option<SocketAddr>>)
    ensures
        match crate::connect::first_some(list) {
            Some(addr) => exists|i: int|
                {
                    &&& 0 <= i < list.len()
                    &&& #[trigger] list[i] == Some(addr)
                    &&& forall|j: int| 0 <= j < i ==> #[trigger] list[j] is None
                },
            None => forall|i: int| 0 <= i < list.len() ==> #[trigger] list[i] is None,
        },
    decreases list.len(),
{
    if list.len() > 0 {
        let rest = list.skip(1);
        lemma_first_some(rest);
        if list[0] is None {
            match crate::connect::first_some(list) {
                Some(addr) => {
                    let i = choose|i: int|
                        {
                            &&& 0 <= i < rest.len()
                            &&& #[trigger] rest[i] == Some(addr)
                            &&& forall|j: int| 0 <= j < i ==> #[trigger] rest[j] is None
                        };
                    assert(list[i + 1] == Some(addr));
                    assert forall|j: int| 0 <= j < i + 1 implies #[trigger] list[j] is None by {
                        if j > 0 {
                            assert(rest[j - 1] is None);
                        }
                    }
                },
                None => {
                    assert forall|i: int| 0 <= i < list.len() implies #[trigger] list[i] is None by {
                        if i > 0 {
                            assert(rest[i - 1] is None);
                        }
                    }
                },
            }
        } else {
            assert(list[0] == Some(list[0]->Some_0));
        }
    }
}

/// A node that was not known is tried at the endpoints that the relay server names, except those
/// that are this node's own.
pub proof fn law_new_node_is_tried_at_its_endpoints(
    m: LayerModel,
    request: Connecting,
    info: NodeInfo,
    now: i64,
    after_m: LayerModel,
    after: Connecting,
    r: ConnectAction,
    addr: SocketAddr,
)
    requires
        m.wf(),
        m.registry.nodes.len() < usize::MAX,
        request.step == ConnectStep::Querying,
        info.identities@.len() > 0,
        info.identities@[0].node_id != m.config.node_id,
        !m.registry.by_node_id.contains_key(info.identities@[0].node_id),
        forall|i: int|
            0 <= i < info.endpoints@.len() ==> !m.registry.by_addr.contains_key(
                #[trigger] info.endpoints@[i],
            ),
        connect_stepped(m, request, ConnectEvent::Info(Ok(info)), now, after_m, after, r),
    ensures
        ({
            let node = after_m.registry.nodes.last();
            &&& after_m.registry.nodes.len() == m.registry.nodes.len() + 1
            &&& node.id == info.identities@[0].node_id
            &&& node.addresses.contains(addr) <==> info.endpoints@.contains(addr) && m.bind_addr
                != Some(addr) && m.public_addr != Some(addr)
            &&& node.addresses.contains(addr) ==> after_m.registry.by_addr.contains_key(addr)
                && after_m.registry.by_addr[addr] == m.registry.nodes.len()
            &&& r is Resolve
        }),
{
    let keep = |a: SocketAddr| crate::session_control::foreign(m, a);
    let addrs = info.endpoints@.filter(keep);
    crate::laws::sessions::lemma_filtered(info.endpoints@, keep, addr);
    assert forall|i: int| 0 <= i < addrs.len() implies !m.registry.by_addr.contains_key(
        #[trigger] addrs[i],
    ) by {
        crate::laws::sessions::lemma_filtered(info.endpoints@, keep, addrs[i]);
        assert(addrs.contains(addrs[i]));
        let k = choose|k: int| 0 <= k < info.endpoints@.len() && info.endpoints@[k] == addrs[i];
        assert(!m.registry.by_addr.contains_key(info.endpoints@[k]));
    }
    lemma_no_address_known(m.registry.by_addr, addrs);
}

proof fn lemma_no_address_known(known: Map<SocketAddr, usize>, addrs: Seq<SocketAddr>)
    requires
        forall|i: int| 0 <= i < addrs.len() ==> !known.contains_key(#[trigger] addrs[i]),
    ensures
        crate::network_view::first_by_addr(known, addrs) is None,
    decreases addrs.len(),
{
    if addrs.len() > 0 {
        assert forall|i: int| 0 <= i < addrs.skip(1).len() implies !known.contains_key(
            #[trigger] addrs.skip(1)[i],
        ) by {
            assert(addrs.skip(1)[i] == addrs[i + 1]);
        }
        lemma_no_address_known(known, addrs.skip(1));
    }
}

} // verus!
