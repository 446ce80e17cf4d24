//! Promises about the view of the network, the states of sessions, and permits.
use vstd::prelude::*;

use crate::error::{SessionError, TransitionError};
use crate::model::{Identity, NodeId, NodeInfo, SessionHandle, SocketAddr};
use crate::network_view::{
    NetworkModel, NetworkView, NodeAwaiting, NodeModel, NodeSnapshot, NodeView, SessionLock,
    SessionPermit, Validity, Waiting,
};
use crate::session_layer::{LayerModel, SessionLayer};
use crate::session_state::{InitState, RelayedState, ReverseState, SessionState};

verus! {

/// Whether an id is among identities.
pub open spec fn named(identities: Seq<Identity>, id: NodeId) -> bool {
    exists|i: int| 0 <= i < identities.len() && (#[trigger] identities[i]).node_id == id
}

proof fn lemma_named(identities: Seq<Identity>, id: NodeId)
    ensures
        crate::model::ids_of(identities).contains(id) <==> named(identities, id),
        crate::model::ids_of(identities).len() == identities.len(),
{
    let ids = crate::model::ids_of(identities);
    if ids.contains(id) {
        let i = choose|i: int| 0 <= i < ids.len() && ids[i] == id;
        assert(identities[i].node_id == id);
    }
    if named(identities, id) {
        let i = choose|i: int| 0 <= i < identities.len() && (#[trigger] identities[i]).node_id == id;
        assert(ids[i] == id);
    }
}

proof fn lemma_first_known(m: NetworkModel, ids: Seq<NodeId>)
    ensures
        match m.first_known(ids) {
            Some(index) => exists|i: int|
                0 <= i < ids.len() && m.by_node_id.contains_key(#[trigger] ids[i])
                    && m.by_node_id[ids[i]] == index,
            None => forall|i: int|
                0 <= i < ids.len() ==> !m.by_node_id.contains_key(#[trigger] ids[i]),
        },
    decreases ids.len(),
{
    if ids.len() > 0 {
        let rest = ids.skip(1);
        lemma_first_known(m, rest);
        if !m.by_node_id.contains_key(ids[0]) {
            match m.first_known(ids) {
                Some(index) => {
                    let i = choose|i: int|
                        0 <= i < rest.len() && m.by_node_id.contains_key(#[trigger] rest[i])
                            && m.by_node_id[rest[i]] == index;
                    assert(ids[i + 1] == rest[i]);
                },
                None => {
                    assert forall|i: int| 0 <= i < ids.len() implies !m.by_node_id.contains_key(
                        #[trigger] ids[i],
                    ) by {
                        if i > 0 {
                            assert(rest[i - 1] == ids[i]);
                        }
                    }
                },
            }
        }
    }
}

/// An entry holds exactly what information about a node says, and nothing else changed but which
/// ids and addresses lead to the entry.
pub open spec fn taken_over(
    m: NetworkModel,
    info: &NodeInfo,
    now: i64,
    index: usize,
    after: NetworkModel,
) -> bool {
    let node = after.nodes[index as int];
    &&& index < after.nodes.len()
    &&& forall|id: NodeId| #[trigger]
        named(info.identities@, id) ==> after.by_node_id.contains_key(id)
            && after.by_node_id[id] == index
    &&& forall|a: SocketAddr| #[trigger]
        info.endpoints@.contains(a) ==> after.by_addr.contains_key(a)
            && after.by_addr[a] == index
    &&& node.id == info.identities@[0].node_id
    &&& node.node == info.identities@
    &&& node.authenticated_identities == info.authenticated_identities@
    &&& node.addresses == info.endpoints@
    &&& node.slot == info.slot
    &&& node.supported_encryption == info.supported_encryption@
    &&& node.session_key == info.session_key
    &&& node.last_info_update == now
    &&& index < m.nodes.len() ==> node.state == m.nodes[index as int].state
        && node.generation == m.nodes[index as int].generation && node.abort_handle
        == m.nodes[index as int].abort_handle && after.nodes.len() == m.nodes.len()
    &&& index == m.nodes.len() ==> node.state is Closed && node.abort_handle.len() == 0
        && after.nodes.len() == m.nodes.len() + 1
    &&& index <= m.nodes.len()
    &&& forall|k: int|
        0 <= k < m.nodes.len() && k != index ==> #[trigger] after.nodes[k] == m.nodes[k]
    &&& forall|id: NodeId|
        !named(info.identities@, id) ==> (#[trigger] after.by_node_id.contains_key(id)
            <==> m.by_node_id.contains_key(id)) && (m.by_node_id.contains_key(id) ==> after.by_node_id[id] == m.by_node_id[id])
}

/// Information that names a node by its default id is taken over whole, whatever was known before:
/// each id that it names and each address lead to one entry, and the entry holds exactly what the
/// information says. The state of the session and everything about other nodes stay.
pub proof fn law_information_is_taken_over(
    view: &mut NetworkView,
    info: &NodeInfo,
    now: i64,
    r: Result<(), String>,
)
    requires
        call_ensures(NetworkView::update_entry, (view, info, now), r),
        old(view)@.wf(),
        old(view)@.nodes.len() < usize::MAX,
        info.identities@.len() > 0,
        forall|id: NodeId|
            #![trigger old(view)@.by_node_id.contains_key(id)]
            named(info.identities@, id) && old(view)@.by_node_id.contains_key(id) ==> {
                let index = old(view)@.by_node_id[id];
                &&& old(view)@.nodes[index as int].id == info.identities@[0].node_id
                &&& forall|other: NodeId|
                    #![trigger old(view)@.by_node_id[other]]
                    named(info.identities@, other) && old(view)@.by_node_id.contains_key(other)
                        ==> old(view)@.by_node_id[other] == index
            },
    ensures
        r is Ok,
        exists|index: usize| #[trigger]
            taken_over(old(view)@, info, now, index, final(view)@),
{
    let m = old(view)@;
    let ids = crate::model::ids_of(info.identities@);
    assert forall|id: NodeId| ids.contains(id) <==> #[trigger] named(info.identities@, id) by {
        lemma_named(info.identities@, id);
    }
    assert(m.consistent(ids)) by {
        assert forall|a: NodeId, b: NodeId|
            ids.contains(a) && ids.contains(b) && m.by_node_id.contains_key(a)
                && m.by_node_id.contains_key(b) implies #[trigger] m.by_node_id[a]
            == #[trigger] m.by_node_id[b] by {
            assert(named(info.identities@, a) && named(info.identities@, b));
        }
    }
    lemma_named(info.identities@, info.identities@[0].node_id);
    lemma_first_known(m, ids);
    let after = final(view)@;
    let index = match m.first_known(ids) {
        Some(index) => index,
        None => m.nodes.len() as usize,
    };
    if let Some(found) = m.first_known(ids) {
        let i = choose|i: int|
            0 <= i < ids.len() && m.by_node_id.contains_key(#[trigger] ids[i])
                && m.by_node_id[ids[i]] == found;
        assert(ids.contains(ids[i]));
        assert(named(info.identities@, ids[i]));
    }
    assert(after == m.updated(info@, now));
    let node = after.nodes[index as int];
    assert forall|id: NodeId| !named(info.identities@, id) implies (
    #[trigger] after.by_node_id.contains_key(id) <==> m.by_node_id.contains_key(id)) && (m.by_node_id.contains_key(id) ==> after.by_node_id[id] == m.by_node_id[id]) by {
        assert(!ids.contains(id));
        if !m.by_node_id.contains_key(id) {
            assert(!after.by_node_id.dom().contains(id));
        }
    }
    assert(taken_over(m, info, now, index, after));
}

/// Ids that lead to different entries are never taken for one node: such information is refused,
/// and nothing changes.
pub proof fn law_contradicting_information_is_refused(
    view: &mut NetworkView,
    info: &NodeInfo,
    now: i64,
    r: Result<(), String>,
    a: NodeId,
    b: NodeId,
)
    requires
        call_ensures(NetworkView::update_entry, (view, info, now), r),
        named(info.identities@, a),
        named(info.identities@, b),
        old(view)@.by_node_id.contains_key(a),
        old(view)@.by_node_id.contains_key(b),
        old(view)@.by_node_id[a] != old(view)@.by_node_id[b],
    ensures
        r is Err,
        final(view)@ == old(view)@,
{
    lemma_named(info.identities@, a);
    lemma_named(info.identities@, b);
    assert(!old(view)@.consistent(crate::model::ids_of(info.identities@)));
}

/// What is known of a node is what is read back of it. Newer information is recommended while
/// nothing is known, and otherwise once the time is over, unless there is a session.
pub proof fn law_information_is_read_back(
    node: &NodeView,
    view: &NetworkView,
    now: i64,
    r: Validity<NodeInfo>,
    addresses: Vec<SocketAddr>,
)
    requires
        call_ensures(NodeView::info, (node, view, now), r),
        call_ensures(NodeView::public_addresses, (node, view), addresses),
    ensures
        ({
            let known = view@.nodes[node.index as int];
            let info = match r {
                Validity::UpToDate(info) => info,
                Validity::UpdateRecommended(info) => info,
            };
            &&& info.identities@ == known.node
            &&& info.authenticated_identities@ == known.authenticated_identities
            &&& info.endpoints@ == known.addresses
            &&& info.slot == known.slot
            &&& info.supported_encryption@ == known.supported_encryption
            &&& info.session_key == known.session_key
            &&& addresses@ == known.addresses
            &&& known.node.len() == 0 ==> r is UpdateRecommended
            &&& known.node.len() > 0 && known.state is Established ==> r is UpToDate
            &&& known.node.len() > 0 && !(known.state is Established) ==> (r is UpToDate <==> now
                - known.last_info_update <= view@.ttl)
        }),
{
}

/// A node has one entry: the one that its id leads to, or else the one that the first of its known
/// addresses leads to. Otherwise it gets a new one, closed, which its id and all its addresses lead
/// to from then on. No other entry changes.
pub proof fn law_node_has_one_entry(
    view: &mut NetworkView,
    node_id: NodeId,
    addrs: &Vec<SocketAddr>,
    now: i64,
    r: NodeView,
)
    requires
        call_ensures(NetworkView::guard, (view, node_id, addrs, now), r),
        old(view)@.wf(),
        old(view)@.nodes.len() < usize::MAX,
    ensures
        ({
            let m = old(view)@;
            let after = final(view)@;
            let by_addr = exists|i: int|
                0 <= i < addrs@.len() && m.by_addr.contains_key(#[trigger] addrs@[i]);
            &&& m.by_node_id.contains_key(node_id) ==> after == m && r.index
                == m.by_node_id[node_id]
            &&& !m.by_node_id.contains_key(node_id) && by_addr ==> after == m && exists|i: int|
                {
                    &&& 0 <= i < addrs@.len()
                    &&& m.by_addr.contains_key(#[trigger] addrs@[i])
                    &&& m.by_addr[addrs@[i]] == r.index
                    &&& forall|j: int|
                        0 <= j < i ==> !m.by_addr.contains_key(#[trigger] addrs@[j])
                }
            &&& !m.by_node_id.contains_key(node_id) && !by_addr ==> {
                &&& r.index == m.nodes.len()
                &&& r.id == node_id
                &&& after.nodes.len() == m.nodes.len() + 1
                &&& after.nodes[r.index as int].id == node_id
                &&& after.nodes[r.index as int].state is Closed
                &&& after.nodes[r.index as int].node.len() == 0
                &&& after.nodes[r.index as int].addresses == addrs@
                &&& after.nodes[r.index as int].abort_handle.len() == 0
                &&& after.by_node_id == m.by_node_id.insert(node_id, r.index)
                &&& forall|a: SocketAddr| #[trigger]
                    addrs@.contains(a) ==> after.by_addr.contains_key(a) && after.by_addr[a]
                        == r.index
                &&& forall|a: SocketAddr|
                    !addrs@.contains(a) ==> (#[trigger] after.by_addr.contains_key(a)
                        <==> m.by_addr.contains_key(a)) && (m.by_addr.contains_key(a)
                        ==> after.by_addr[a] == m.by_addr[a])
            }
            &&& forall|k: int| 0 <= k < m.nodes.len() ==> #[trigger] after.nodes[k] == m.nodes[k]
        }),
{
    let m = old(view)@;
    lemma_first_by_addr(m.by_addr, addrs@);
    assert forall|a: SocketAddr| !addrs@.contains(a) && m.find(node_id, addrs@) is None implies (
    #[trigger] final(view)@.by_addr.contains_key(a) <==> m.by_addr.contains_key(a)) && (m.by_addr.contains_key(a) ==> final(view)@.by_addr[a]
        == m.by_addr[a]) by {
        if !m.by_addr.contains_key(a) {
            assert(!final(view)@.by_addr.dom().contains(a));
        }
    }
}

proof fn lemma_first_by_addr(known: Map<SocketAddr, usize>, addrs: Seq<SocketAddr>)
    ensures
        match crate::network_view::first_by_addr(known, addrs) {
            Some(index) => exists|i: int|
                {
                    &&& 0 <= i < addrs.len()
                    &&& known.contains_key(#[trigger] addrs[i])
                    &&& known[addrs[i]] == index
                    &&& forall|j: int| 0 <= j < i ==> !known.contains_key(#[trigger] addrs[j])
                },
            None => forall|i: int| 0 <= i < addrs.len() ==> !known.contains_key(#[trigger] addrs[i]),
        },
    decreases addrs.len(),
{
    if addrs.len() > 0 {
        let rest = addrs.skip(1);
        lemma_first_by_addr(known, rest);
        if !known.contains_key(addrs[0]) {
            match crate::network_view::first_by_addr(known, addrs) {
                Some(index) => {
                    let i = choose|i: int|
                        {
                            &&& 0 <= i < rest.len()
                            &&& known.contains_key(#[trigger] rest[i])
                            &&& known[rest[i]] == index
                            &&& forall|j: int|
                                0 <= j < i ==> !known.contains_key(#[trigger] rest[j])
                        };
                    assert(addrs[i + 1] == rest[i]);
                    assert forall|j: int| 0 <= j < i + 1 implies !known.contains_key(
                        #[trigger] addrs[j],
                    ) by {
                        if j > 0 {
                            assert(rest[j - 1] == addrs[j]);
                        }
                    }
                },
                None => {
                    assert forall|i: int| 0 <= i < addrs.len() implies !known.contains_key(
                        #[trigger] addrs[i],
                    ) by {
                        if i > 0 {
                            assert(rest[i - 1] == addrs[i]);
                        }
                    }
                },
            }
        }
    }
}

/// A node that is removed is not found any more under any id or address that led to its entry, and
/// everything else is found as before.
pub proof fn law_removed_node_is_not_found(
    view: &mut NetworkView,
    node_id: NodeId,
    other: NodeId,
    addr: SocketAddr,
)
    requires
        call_ensures(NetworkView::remove_node, (view, node_id), ()),
    ensures
        ({
            let m = old(view)@;
            let after = final(view)@;
            let known = m.by_node_id.contains_key(node_id);
            let index = m.by_node_id[node_id];
            &&& after.nodes == m.nodes
            &&& !known ==> after == m
            &&& after.by_node_id.contains_key(other) <==> m.by_node_id.contains_key(other) && !(
            known && m.by_node_id[other] == index)
            &&& after.by_node_id.contains_key(other) ==> after.by_node_id[other]
                == m.by_node_id[other]
            &&& after.by_addr.contains_key(addr) <==> m.by_addr.contains_key(addr) && !(known
                && m.by_addr[addr] == index)
            &&& after.by_addr.contains_key(addr) ==> after.by_addr[addr] == m.by_addr[addr]
        }),
{
}

/// Removing several nodes is removing each of them.
pub proof fn law_removed_nodes_are_not_found(
    view: &mut NetworkView,
    ids: &Vec<NodeId>,
    other: NodeId,
    addr: SocketAddr,
)
    requires
        call_ensures(NetworkView::remove_nodes, (view, ids), ()),
    ensures
        ({
            let m = old(view)@;
            let after = final(view)@;
            let gone = |index: usize|
                exists|i: int|
                    0 <= i < ids@.len() && m.by_node_id.contains_key(#[trigger] ids@[i])
                        && m.by_node_id[ids@[i]] == index;
            &&& after.nodes == m.nodes
            &&& after.by_node_id.contains_key(other) <==> m.by_node_id.contains_key(other) && !gone(
                m.by_node_id[other],
            )
            &&& after.by_node_id.contains_key(other) ==> after.by_node_id[other]
                == m.by_node_id[other]
            &&& after.by_addr.contains_key(addr) <==> m.by_addr.contains_key(addr) && !gone(
                m.by_addr[addr],
            )
            &&& after.by_addr.contains_key(addr) ==> after.by_addr[addr] == m.by_addr[addr]
        }),
{
    let m = old(view)@;
    lemma_belongs(m, ids@, m.by_node_id[other]);
    lemma_belongs(m, ids@, m.by_addr[addr]);
}

proof fn lemma_belongs(m: NetworkModel, ids: Seq<NodeId>, index: usize)
    ensures
        m.belongs(ids.to_set(), index) <==> exists|i: int|
            0 <= i < ids.len() && m.by_node_id.contains_key(#[trigger] ids[i])
                && m.by_node_id[ids[i]] == index,
{
    if m.belongs(ids.to_set(), index) {
        let id = choose|id: NodeId| #[trigger]
            ids.to_set().contains(id) && m.by_node_id.contains_key(id) && m.by_node_id[id] == index;
        let i = choose|i: int| 0 <= i < ids.len() && ids[i] == id;
        assert(m.by_node_id.contains_key(ids[i]));
    }
    if exists|i: int|
        0 <= i < ids.len() && m.by_node_id.contains_key(#[trigger] ids[i]) && m.by_node_id[ids[i]]
            == index {
        let i = choose|i: int|
            0 <= i < ids.len() && m.by_node_id.contains_key(#[trigger] ids[i])
                && m.by_node_id[ids[i]] == index;
        assert(ids.to_set().contains(ids[i]));
    }
}

/// Place of a stage in a handshake.
pub open spec fn stage(s: InitState) -> int {
    match s {
        InitState::ConnectIntent => 1,
        InitState::Initializing => 2,
        InitState::ChallengeHandshake => 3,
        InitState::HandshakeResponse => 4,
        InitState::ChallengeVerified => 5,
        InitState::SessionRegistered => 6,
        InitState::Ready => 7,
    }
}

/// A handshake starts from a session that is closed or failed, goes through its stages one by one,
/// and never turns into one of the other direction.
pub proof fn law_handshakes_go_stage_by_stage(a: &SessionState, b: InitState, out: bool, inc: bool)
    requires
        call_ensures(SessionState::allowed, (a, &SessionState::Outgoing(b)), out),
        call_ensures(SessionState::allowed, (a, &SessionState::Incoming(b)), inc),
    ensures
        out <==> match *a {
            SessionState::Outgoing(s) => stage(b) == stage(s) + 1,
            SessionState::Closed => stage(b) == 1,
            SessionState::FailedEstablish(_) => stage(b) == 1,
            _ => false,
        },
        inc <==> match *a {
            SessionState::Incoming(s) => stage(b) == stage(s) + 1,
            SessionState::Closed => stage(b) == 1,
            SessionState::FailedEstablish(_) => stage(b) == 1,
            _ => false,
        },
{
}

/// A session is established only once a handshake is ready, or a relayed connection is, or a
/// reverse connection came to a good end. It is left through closing only.
pub proof fn law_only_ready_sessions_are_established(
    a: &SessionState,
    session: SessionHandle,
    established: bool,
    closing: bool,
    closed: bool,
)
    requires
        call_ensures(SessionState::allowed, (a, &SessionState::Established(session)), established),
        call_ensures(SessionState::allowed, (a, &SessionState::Closing), closing),
        call_ensures(SessionState::allowed, (a, &SessionState::Closed), closed),
    ensures
        established <==> match *a {
            SessionState::Outgoing(s) => s is Ready,
            SessionState::Incoming(s) => s is Ready,
            SessionState::Relayed(s) => s is Ready,
            SessionState::ReverseConnection(ReverseState::InProgress(s)) => s is Ready,
            SessionState::ReverseConnection(ReverseState::Finished(result)) => result is Ok,
            SessionState::Established(_) => true,
            _ => false,
        },
        closing <==> *a is Established,
        closed <==> *a is Closing,
{
}

/// Every attempt to connect can fail, and nothing else can. Another way can be tried instead of a
/// direct or a reverse connection.
pub proof fn law_every_attempt_can_fail(
    a: &SessionState,
    e: SessionError,
    failed: bool,
    restarted: bool,
)
    requires
        call_ensures(SessionState::allowed, (a, &SessionState::FailedEstablish(e)), failed),
        call_ensures(SessionState::allowed, (a, &SessionState::RestartConnect), restarted),
    ensures
        failed <==> *a is Outgoing || *a is Incoming || *a is ReverseConnection || *a is Relayed
            || *a is RestartConnect,
        restarted <==> *a is Outgoing || *a is ReverseConnection || *a is RestartConnect,
{
}

/// A reverse connection and a relayed one can be tried before a handshake started, or after another
/// way failed. A reverse connection then waits for the other node, follows its handshake stage by
/// stage, and ends well only with a ready one.
pub proof fn law_other_ways_come_before_or_after_a_handshake(
    a: &SessionState,
    b: &ReverseState,
    c: RelayedState,
    reverse: bool,
    relayed: bool,
)
    requires
        call_ensures(SessionState::allowed, (a, &SessionState::ReverseConnection(*b)), reverse),
        call_ensures(SessionState::allowed, (a, &SessionState::Relayed(c)), relayed),
    ensures
        reverse <==> match (*a, *b) {
            (SessionState::RestartConnect, ReverseState::Awaiting) => true,
            (SessionState::Outgoing(s), ReverseState::Awaiting) => s is ConnectIntent,
            (
                SessionState::ReverseConnection(ReverseState::Awaiting),
                ReverseState::InProgress(s),
            ) => s is ConnectIntent,
            (
                SessionState::ReverseConnection(ReverseState::InProgress(s)),
                ReverseState::InProgress(t),
            ) => stage(t) == stage(s) + 1,
            (
                SessionState::ReverseConnection(ReverseState::InProgress(s)),
                ReverseState::Finished(result),
            ) => s is Ready || result is Err,
            _ => false,
        },
        relayed <==> match *a {
            SessionState::RestartConnect => c is Initializing,
            SessionState::Outgoing(s) => s is ConnectIntent && c is Initializing,
            SessionState::ReverseConnection(ReverseState::InProgress(s)) => s is ConnectIntent
                && c is Initializing,
            SessionState::Relayed(s) => s is Initializing && c is Ready,
            _ => false,
        },
{
}

/// A state changes exactly to what is asked for, where that is allowed, and stays where it is not.
/// The handshake of another node counts towards the reverse connection that is waited for.
pub proof fn law_states_change_only_where_allowed(
    state: &mut SessionState,
    target: SessionState,
    allowed: bool,
    r: Result<SessionState, TransitionError>,
)
    requires
        call_ensures(SessionState::transition, (state, target), r),
        call_ensures(SessionState::allowed, (old(state), &target), allowed),
    ensures
        allowed ==> *final(state) == target && r == Ok::<SessionState, TransitionError>(target),
        !allowed ==> *final(state) == *old(state) && r == Err::<SessionState, TransitionError>(
            TransitionError::InvalidTransition(*old(state), target),
        ),
{
}

/// The handshake of another node counts towards the reverse connection that is waited for, and
/// stands for itself otherwise.
pub proof fn law_incoming_stages_find_their_connection(
    state: &mut SessionState,
    s: InitState,
    r: Result<SessionState, TransitionError>,
)
    requires
        call_ensures(SessionState::transition_incoming, (state, s), r),
    ensures
        r matches Ok(next) ==> *final(state) == next && match *old(state) {
            SessionState::ReverseConnection(_) => next == SessionState::ReverseConnection(
                ReverseState::InProgress(s),
            ),
            _ => next == SessionState::Incoming(s),
        },
        r is Err ==> *final(state) == *old(state),
        *old(state) == SessionState::ReverseConnection(ReverseState::Awaiting) ==> (r is Ok
            <==> stage(s) == 1),
        *old(state) is Closed || *old(state) is FailedEstablish ==> (r is Ok <==> stage(s) == 1),
        *old(state) matches SessionState::Incoming(p) ==> (r is Ok <==> stage(s) == stage(p) + 1),
        *old(state) matches SessionState::ReverseConnection(ReverseState::InProgress(p)) ==> (r
            is Ok <==> stage(s) == stage(p) + 1),
        *old(state) is Outgoing || *old(state) is Established || *old(state) is Relayed ==> r
            is Err,
{
}

/// One caller at a time gets the right to connect to a node: where the session is closed or failed,
/// the caller gets it, under a new number, and everybody after that waits.
pub proof fn law_one_permit_at_a_time(
    node: &NodeView,
    view: &mut NetworkView,
    first: SessionLock,
    again: &mut NetworkView,
    second: SessionLock,
    incoming: &mut NetworkView,
    third: SessionLock,
)
    requires
        old(view)@.has(*node),
        call_ensures(NodeView::lock_outgoing, (node, view), first),
        old(again)@ == final(view)@,
        call_ensures(NodeView::lock_outgoing, (node, again), second),
        old(incoming)@ == final(view)@,
        call_ensures(NodeView::lock_incoming, (node, incoming), third),
        first is Permit,
    ensures
        ({
            let before = old(view)@.nodes[node.index as int];
            let after = final(view)@.nodes[node.index as int];
            let permit = first->Permit_0;
            &&& before.state is Closed || before.state is FailedEstablish
            &&& after.state == SessionState::Outgoing(InitState::ConnectIntent)
            &&& permit.registry == *node
            &&& permit.generation == after.generation
            &&& after.generation != before.generation
            &&& !permit.reverse
            &&& permit.result is None
            &&& forall|k: int|
                0 <= k < old(view)@.nodes.len() && k != node.index ==> #[trigger] final(view)@.nodes[k] == old(view)@.nodes[k]
            &&& second matches SessionLock::Wait(awaiting) && awaiting.registry == *node
            &&& third matches SessionLock::Wait(awaiting) && awaiting.registry == *node
            &&& final(again)@ == final(view)@
            &&& final(incoming)@ == final(view)@
        }),
{
}

/// The right to connect is given exactly where the session is closed or failed. Another node gets
/// in beside that while a reverse connection is waited for.
pub proof fn law_permits_are_given_when_idle(
    node: &NodeView,
    view: &mut NetworkView,
    outgoing: SessionLock,
    other: &mut NetworkView,
    incoming: SessionLock,
)
    requires
        old(view)@.has(*node),
        old(other)@ == old(view)@,
        call_ensures(NodeView::lock_outgoing, (node, view), outgoing),
        call_ensures(NodeView::lock_incoming, (node, other), incoming),
    ensures
        ({
            let state = old(view)@.nodes[node.index as int].state;
            let idle = state is Closed || state is FailedEstablish;
            let awaited = state == SessionState::ReverseConnection(ReverseState::Awaiting);
            &&& outgoing is Permit <==> idle
            &&& incoming is Permit <==> idle || awaited
            &&& outgoing is Wait ==> final(view)@ == old(view)@
            &&& incoming is Wait ==> final(other)@ == old(other)@
            &&& incoming matches SessionLock::Permit(permit) ==> {
                let after = final(other)@.nodes[node.index as int];
                &&& permit.reverse == awaited
                &&& permit.registry == *node
                &&& permit.generation == after.generation
                &&& after.state == if awaited {
                    SessionState::ReverseConnection(
                        ReverseState::InProgress(InitState::ConnectIntent),
                    )
                } else {
                    SessionState::Incoming(InitState::ConnectIntent)
                }
            }
        }),
{
}

/// The outcome of an attempt is what the state becomes: the session, or the error. The answer to a
/// request for a reverse connection is left to whoever made the request. An attempt without an
/// outcome counts as failed.
pub proof fn law_outcome_becomes_the_state(
    permit: &mut SessionPermit,
    result: Result<SessionHandle, SessionError>,
    same: Result<SessionHandle, SessionError>,
    ended: &mut SessionPermit,
    last: SessionState,
    empty: &mut SessionPermit,
    lost: SessionState,
)
    requires
        call_ensures(SessionPermit::collect_results, (permit, result), same),
        *old(ended) == *final(permit),
        call_ensures(SessionPermit::final_state, (ended,), last),
        old(empty).result is None,
        call_ensures(SessionPermit::final_state, (empty,), lost),
    ensures
        same == result,
        last == if old(permit).reverse {
            SessionState::ReverseConnection(ReverseState::Finished(result))
        } else {
            match result {
                Ok(session) => SessionState::Established(session),
                Err(e) => SessionState::FailedEstablish(e),
            }
        },
        old(empty).reverse ==> (lost matches SessionState::ReverseConnection(
            ReverseState::Finished(Err(_)),
        )),
        !old(empty).reverse ==> lost is FailedEstablish,
{
}

/// Who waits for a session gets the one that was established, as long as it is there, or the
/// reason why there is none. Nobody waits for a session whose attempt is over, and everybody waits
/// while it goes on.
pub proof fn law_waiting_ends_with_the_attempt(
    state: SessionState,
    alive: bool,
    finish: Waiting<Result<SessionHandle, SessionError>>,
    end: Waiting<SessionError>,
    reverse: Waiting<Result<SessionHandle, SessionError>>,
    message: bool,
)
    requires
        call_ensures(NodeAwaiting::await_for_finish, (state, alive), finish),
        call_ensures(NodeAwaiting::await_for_closed_or_failed, (state,), end),
        call_ensures(NodeAwaiting::await_reverse_finish, (state,), reverse),
        call_ensures(NodeAwaiting::await_handshake, (&state,), message),
    ensures
        finish is Over <==> state is Established || state is Closed || state is FailedEstablish,
        state matches SessionState::Established(session) ==> (alive ==> finish == Waiting::Over(
            Ok::<SessionHandle, SessionError>(session),
        )) && (!alive ==> (finish matches Waiting::Over(Err(_)))),
        state matches SessionState::FailedEstablish(e) ==> finish == Waiting::Over(
            Err::<SessionHandle, SessionError>(e),
        ) && end == Waiting::Over(e),
        state is Closed ==> (finish matches Waiting::Over(Err(_))),
        end is Over <==> state is Closed || state is FailedEstablish,
        reverse is Over <==> (state matches SessionState::ReverseConnection(
            ReverseState::Finished(_),
        )),
        state matches SessionState::ReverseConnection(ReverseState::Finished(result)) ==> reverse
            == Waiting::Over(result),
        message <==> match state {
            SessionState::Outgoing(s) => s is ChallengeHandshake,
            SessionState::Incoming(s) => s is ChallengeHandshake,
            SessionState::ReverseConnection(ReverseState::InProgress(s)) => s is ChallengeHandshake,
            _ => false,
        },
{
}

/// Whether a snapshot of a node is still good: its id leads to the same entry, and no attempt to
/// connect was granted since.
pub proof fn law_snapshots_age_with_attempts(
    view: &NetworkView,
    snapshot: &NodeSnapshot,
    r: bool,
)
    requires
        view@.wf(),
        call_ensures(NetworkView::is_current, (view, snapshot), r),
    ensures
        r <==> view@.by_node_id.contains_key(snapshot.id) && view@.by_node_id[snapshot.id]
            == snapshot.index && view@.nodes[snapshot.index as int].generation
            == snapshot.generation,
{
}

/// A permit that ends with a session leaves the node established, forgets what could be aborted,
/// and changes nothing else. One that ends without leaves no way to the node.
pub proof fn law_permit_ends_as_its_outcome_says(
    node: NodeView,
    layer: &mut SessionLayer,
    session: SessionHandle,
    r: crate::permit::Released,
)
    requires
        old(layer)@.registry.has(node),
        call_ensures(
            SessionPermit::async_drop,
            (node, layer, SessionState::Established(session)),
            r,
        ),
        ({
            let state = old(layer)@.registry.nodes[node.index as int].state;
            state == SessionState::Outgoing(InitState::Ready) || state == SessionState::Incoming(
                InitState::Ready,
            ) || state == SessionState::Relayed(RelayedState::Ready) || state
                == SessionState::ReverseConnection(ReverseState::Finished(Ok(session)))
        }),
    ensures
        r.first is None,
        r.again is None,
        ({
            let m = old(layer)@;
            let after = final(layer)@;
            let i = node.index as int;
            &&& after.sessions == m.sessions
            &&& after.nodes == m.nodes
            &&& after.p2p_sessions == m.p2p_sessions
            &&& after.p2p_nodes == m.p2p_nodes
            &&& after.registry.by_node_id == m.registry.by_node_id
            &&& after.registry.by_addr == m.registry.by_addr
            &&& after.registry.nodes.len() == m.registry.nodes.len()
            &&& after.registry.nodes[i] == (NodeModel {
                state: SessionState::Established(session),
                abort_handle: Seq::empty(),
                ..m.registry.nodes[i]
            })
            &&& forall|k: int|
                0 <= k < m.registry.nodes.len() && k != i ==> #[trigger] after.registry.nodes[k]
                    == m.registry.nodes[k]
        }),
{
}

/// An attempt that failed leaves the node failed with the same error, and nothing of it in place.
pub proof fn law_failed_attempt_leaves_a_failed_node(
    node: NodeView,
    layer: &mut SessionLayer,
    error: SessionError,
    r: crate::permit::Released,
)
    requires
        old(layer)@.wf(),
        old(layer)@.registry.has(node),
        call_ensures(
            SessionPermit::async_drop,
            (node, layer, SessionState::FailedEstablish(error)),
            r,
        ),
    ensures
        ({
            let state = old(layer)@.registry.nodes[node.index as int].state;
            let after = final(layer)@;
            let busy = state is Outgoing || state is Incoming || state is ReverseConnection || state
                is Relayed || state is RestartConnect;
            &&& r.first is Some
            &&& !after.nodes.contains_key(node.id)
            &&& !after.p2p_nodes.contains_key(node.id)
            &&& !after.registry.by_node_id.contains_key(node.id)
            &&& busy ==> after.registry.nodes[node.index as int].state
                == SessionState::FailedEstablish(error)
            &&& busy ==> r.again is None
        }),
{
    crate::permit::lemma_failed_attempt_leaves_nothing(
        old(layer)@,
        node,
        error,
        final(layer)@,
        r,
    );
    let m = old(layer)@;
    let new_state = SessionState::FailedEstablish(error);
    let mid = choose|mid: LayerModel| #[trigger]
        crate::permit::prepared(m, node, new_state, mid, r.first) && crate::permit::settled(
            mid,
            node,
            new_state,
            final(layer)@,
            r.again,
        );
    lemma_cleaning_keeps_states(m, node, mid, r.first->Some_0);
}

/// An attempt that claims a session although the node is not ready for one fails, and the node is
/// unregistered.
pub proof fn law_misfit_outcome_fails_the_attempt(
    node: NodeView,
    layer: &mut SessionLayer,
    session: SessionHandle,
    r: crate::permit::Released,
)
    requires
        old(layer)@.wf(),
        old(layer)@.registry.has(node),
        call_ensures(
            SessionPermit::async_drop,
            (node, layer, SessionState::Established(session)),
            r,
        ),
        ({
            let state = old(layer)@.registry.nodes[node.index as int].state;
            state == SessionState::Outgoing(InitState::ConnectIntent) || state
                == SessionState::Incoming(InitState::ConnectIntent) || state is RestartConnect
        }),
    ensures
        r.again is Some,
        final(layer)@.registry.nodes[node.index as int].state is FailedEstablish,
{
    let m = old(layer)@;
    let new_state = SessionState::Established(session);
    let mid = choose|mid: LayerModel| #[trigger]
        crate::permit::prepared(m, node, new_state, mid, r.first) && crate::permit::settled(
            mid,
            node,
            new_state,
            final(layer)@,
            r.again,
        );
    let before = mid.registry.nodes[node.index as int].state;
    let (last, failure) = choose|
        last: LayerModel,
        failure: SessionState,
    |
        {
            &&& #[trigger] crate::permit::cleaned(mid, node, last, r.again->Some_0)
            &&& #[trigger] crate::permit::misfit(before, new_state, failure)
            &&& final(layer)@ == if crate::session_state::state_allowed(
                last.registry.nodes[node.index as int].state,
                failure,
            ) {
                crate::permit::moved(last, node, failure)
            } else {
                last
            }
        };
    lemma_cleaning_keeps_states(mid, node, last, r.again->Some_0);
}

proof fn lemma_cleaning_keeps_states(
    m: LayerModel,
    node: NodeView,
    after: LayerModel,
    r: crate::permit::Cleaned,
)
    requires
        m.registry.wf(),
        m.registry.has(node),
        crate::permit::cleaned(m, node, after, r),
    ensures
        after.registry.nodes.len() == m.registry.nodes.len(),
        after.registry.nodes[node.index as int].state == m.registry.nodes[node.index as int].state,
{
    let addrs = m.registry.nodes[node.index as int].addresses;
    let states = choose|states: Seq<LayerModel>|
        {
            &&& #[trigger] crate::permit::all_aborted(states, addrs, r.aborted@)
            &&& states[0] == m
            &&& states.last().wf()
            &&& after == states.last().unregistered(node.id)
            &&& r.closed == states.last().report(node.id)
        };
    assert forall|j: int| 0 <= j < addrs.len() implies #[trigger] aborted_at(
        states,
        addrs,
        r.aborted@,
        j,
    ) by {
        lemma_each_aborted(states, addrs, r.aborted@, j);
    }
    lemma_aborting_keeps_states(states, addrs, r.aborted@, node.index as int, addrs.len() as int);
    lemma_unregistering_keeps_nodes(states.last(), node.id);
}

/// Aborting what is under way with one address came to its outcome.
spec fn aborted_at(
    states: Seq<LayerModel>,
    addrs: Seq<SocketAddr>,
    r: Seq<Result<crate::session_control::Aborted, SessionError>>,
    j: int,
) -> bool {
    crate::session_control::abort_outcome(states[j], addrs[j], states[j + 1], r[j])
}

proof fn lemma_each_aborted(
    states: Seq<LayerModel>,
    addrs: Seq<SocketAddr>,
    r: Seq<Result<crate::session_control::Aborted, SessionError>>,
    j: int,
)
    requires
        crate::permit::all_aborted(states, addrs, r),
        0 <= j < addrs.len(),
    ensures
        aborted_at(states, addrs, r, j),
{
    let state = states[j];
}

proof fn lemma_one_aborted(
    before: LayerModel,
    addr: SocketAddr,
    after: LayerModel,
    r: Result<crate::session_control::Aborted, SessionError>,
    i: int,
)
    requires
        crate::session_control::abort_outcome(before, addr, after, r),
        before.registry.wf(),
        0 <= i < before.registry.nodes.len(),
    ensures
        after.registry.wf(),
        after.registry.nodes.len() == before.registry.nodes.len(),
        after.registry.nodes[i].state == before.registry.nodes[i].state,
{
}

proof fn lemma_aborting_keeps_states(
    states: Seq<LayerModel>,
    addrs: Seq<SocketAddr>,
    r: Seq<Result<crate::session_control::Aborted, SessionError>>,
    i: int,
    k: int,
)
    requires
        forall|j: int| 0 <= j < addrs.len() ==> #[trigger] aborted_at(states, addrs, r, j),
        0 <= k <= addrs.len(),
        states[0].registry.wf(),
        0 <= i < states[0].registry.nodes.len(),
    ensures
        states[k].registry.wf(),
        states[k].registry.nodes.len() == states[0].registry.nodes.len(),
        states[k].registry.nodes[i].state == states[0].registry.nodes[i].state,
    decreases k,
{
    if k > 0 {
        lemma_aborting_keeps_states(states, addrs, r, i, k - 1);
        assert(aborted_at(states, addrs, r, k - 1));
        lemma_one_aborted(states[k - 1], addrs[k - 1], states[k], r[k - 1], i);
    }
}

proof fn lemma_unregistering_keeps_nodes(m: LayerModel, id: NodeId)
    ensures
        m.unregistered(id).registry.nodes == m.registry.nodes,
{
    let unlinked = match m.direct(id) {
        Some(h) => LayerModel {
            p2p_sessions: m.p2p_sessions.remove(m.sessions[h].raw.remote),
            ..m
        },
        None => m,
    };
    lemma_forgetting_keeps_registry(unlinked, m.ids_to_forget(id));
}

proof fn lemma_forgetting_keeps_registry(
    m: LayerModel,
    ids: Seq<NodeId>,
)
    ensures
        m.forgotten(ids).registry == m.registry,
    decreases ids.len(),
{
    if ids.len() > 0 {
        lemma_forgetting_keeps_registry(m, ids.drop_last());
    }
}

} // verus!
