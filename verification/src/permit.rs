//! The end of a permit to establish a session.
use vstd::prelude::*;

use crate::error::SessionError;
#[allow(unused_imports)]
use crate::error::TransitionError;
use crate::model::SocketAddr;
#[allow(unused_imports)]
use crate::network_view::NodeModel;
use crate::network_view::{BeforeRelease, NodeView, SessionPermit};
#[allow(unused_imports)]
use crate::session_control::{abort_outcome, lemma_links_kept};
use crate::session_control::Aborted;
#[allow(unused_imports)]
use crate::session_layer::{lemma_unregistered_is_gone, LayerModel};
use crate::session_layer::{Closed, SessionLayer};
#[allow(unused_imports)]
use crate::session_state::{state_allowed, state_text, ReverseState};
use crate::session_state::SessionState;

verus! {

/// What was removed of a node.
pub struct Cleaned {
    /// What came of aborting initializations, for each address of the node.
    pub aborted: Vec<Result<Aborted, SessionError>>,
    pub closed: Closed,
}

/// What was removed of a node when a permit ended.
pub struct Released {
    /// Because no session was established.
    pub first: Option<Cleaned>,
    /// Because the outcome did not fit the state of the node.
    pub again: Option<Cleaned>,
}

/// Initializations with all addresses were aborted, one address after the other, by which the
/// layer went through the given states.
pub open spec fn all_aborted(
    states: Seq<LayerModel>,
    addrs: Seq<SocketAddr>,
    r: Seq<Result<Aborted, SessionError>>,
) -> bool {
    &&& states.len() == addrs.len() + 1
    &&& r.len() == addrs.len()
    &&& forall|i: int|
        0 <= i < addrs.len() ==> abort_outcome(
            #[trigger] states[i],
            addrs[i],
            states[i + 1],
            r[i],
        )
}

/// Initializations with the addresses of a node were aborted, and then everything about the node
/// was unregistered.
pub open spec fn cleaned(m: LayerModel, node: NodeView, after: LayerModel, r: Cleaned) -> bool {
    exists|states: Seq<LayerModel>|
        {
            &&& #[trigger] all_aborted(
                states,
                m.registry.nodes[node.index as int].addresses,
                r.aborted@,
            )
            &&& states[0] == m
            &&& states.last().wf()
            &&& after == states.last().unregistered(node.id)
            &&& r.closed == states.last().report(node.id)
        }
}

/// What happens before an outcome is made known.
pub open spec fn prepared(
    m: LayerModel,
    node: NodeView,
    new_state: SessionState,
    after: LayerModel,
    r: Option<Cleaned>,
) -> bool {
    match new_state {
        SessionState::FailedEstablish(_) => r matches Some(c) && cleaned(m, node, after, c),
        SessionState::ReverseConnection(ReverseState::Finished(_)) => r is None && after == m,
        _ => r is None && after == (LayerModel {
            registry: m.registry.with_node(
                node.index,
                NodeModel {
                    abort_handle: Seq::empty(),
                    ..m.registry.nodes[node.index as int]
                },
            ),
            ..m
        }),
    }
}

/// The state of a node was replaced.
pub open spec fn moved(m: LayerModel, node: NodeView, state: SessionState) -> LayerModel {
    LayerModel { registry: m.registry.with_state(node.index, state), ..m }
}

/// The failure that stands for an outcome that did not fit.
pub open spec fn misfit(
    before: SessionState,
    new_state: SessionState,
    failure: SessionState,
) -> bool {
    failure matches SessionState::FailedEstablish(SessionError::ProgrammingError(m)) && m@
        == "Failed to transition to state: "@ + state_text(new_state) + ": "@
        + TransitionError::InvalidTransition(before, new_state).text()
}

/// The outcome was made known. One that does not fit the state of the node is turned into a
/// failure, unless it is about a reverse connection, which somebody else sees to.
pub open spec fn settled(
    m: LayerModel,
    node: NodeView,
    new_state: SessionState,
    after: LayerModel,
    r: Option<Cleaned>,
) -> bool {
    let before = m.registry.nodes[node.index as int].state;
    if state_allowed(before, new_state) {
        r is None && after == moved(m, node, new_state)
    } else if new_state is ReverseConnection {
        r is None && after == m
    } else {
        &&& r matches Some(c)
        &&& exists|mid: LayerModel, failure: SessionState|
            {
                &&& #[trigger] cleaned(m, node, mid, c)
                &&& #[trigger] misfit(before, new_state, failure)
                &&& after == if state_allowed(
                    mid.registry.nodes[node.index as int].state,
                    failure,
                ) {
                    moved(mid, node, failure)
                } else {
                    mid
                }
            }
    }
}

/// What a permit leaves behind.
pub open spec fn permit_released(
    m: LayerModel,
    node: NodeView,
    new_state: SessionState,
    after: LayerModel,
    r: Released,
) -> bool {
    exists|mid: LayerModel| #[trigger]
        prepared(m, node, new_state, mid, r.first) && settled(mid, node, new_state, after, r.again)
}

/// Replacing a node in the registry by one that differs in other things than its id changes
/// nothing about sessions.
proof fn lemma_node_replaced(m: LayerModel, node: NodeView, with: NodeModel)
    requires
        m.wf(),
        m.registry.has(node),
        with.id == node.id,
    ensures
        ({
            let after = LayerModel { registry: m.registry.with_node(node.index, with), ..m };
            after.wf() && after.registry.has(node)
        }),
{
    let after = LayerModel { registry: m.registry.with_node(node.index, with), ..m };
    assert forall|id: crate::model::NodeId| after.registry.by_node_id.contains_key(id) implies (
    #[trigger] after.registry.by_node_id[id]) < after.registry.nodes.len() by {
        assert(m.registry.by_node_id[id] < m.registry.nodes.len());
    }
    assert forall|a: SocketAddr| after.registry.by_addr.contains_key(a) implies (
    #[trigger] after.registry.by_addr[a]) < after.registry.nodes.len() by {
        assert(m.registry.by_addr[a] < m.registry.nodes.len());
    }
    lemma_links_kept(m, after);
}

impl SessionPermit {
    /// Makes sure that all data about a node is unregistered, and that whatever initializes a
    /// session with it is aborted.
    pub fn clean_state(node: NodeView, layer: &mut SessionLayer) -> (r: Cleaned)
        requires
            old(layer)@.wf(),
            old(layer)@.registry.has(node),
        ensures
            final(layer)@.wf(),
            final(layer)@.registry.has(node),
            cleaned(old(layer)@, node, final(layer)@, r),
    {
        let ghost before = layer@;
        let addrs = node.public_addresses(&layer.registry);
        let mut aborted: Vec<Result<Aborted, SessionError>> = Vec::new();
        let ghost mut states: Seq<LayerModel> = seq![before];
        let mut i: usize = 0;
        while i < addrs.len()
            invariant
                0 <= i <= addrs@.len(),
                layer@.wf(),
                layer@.registry.has(node),
                states.len() == i + 1,
                states[0] == before,
                states.last() == layer@,
                aborted@.len() == i,
                forall|j: int|
                    0 <= j < i ==> abort_outcome(
                        #[trigger] states[j],
                        addrs@[j],
                        states[j + 1],
                        aborted@[j],
                    ),
            decreases addrs@.len() - i,
        {
            aborted.push(layer.abort_initializations(addrs[i]));
            proof {
                states = states.push(layer@);
            }
            i += 1;
        }
        let closed = layer.unregister(node.id);
        let r = Cleaned { aborted, closed };
        assert(all_aborted(
            states,
            before.registry.nodes[node.index as int].addresses,
            r.aborted@,
        ));
        r
    }

    /// Ends a permit: the outcome becomes the state of the node. Without a session, nothing is
    /// left of the attempt.
    pub fn async_drop(node: NodeView, layer: &mut SessionLayer, new_state: SessionState) -> (r:
        Released)
        requires
            old(layer)@.wf(),
            old(layer)@.registry.has(node),
        ensures
            final(layer)@.wf(),
            final(layer)@.registry.has(node),
            permit_released(old(layer)@, node, new_state, final(layer)@, r),
    {
        let ghost before = layer@;
        let first = match SessionPermit::before_release(&new_state) {
            BeforeRelease::CleanState => Some(SessionPermit::clean_state(node, layer)),
            BeforeRelease::ForgetAbortable => {
                node.unregister_abortable(&mut layer.registry);
                proof {
                    lemma_node_replaced(
                        before,
                        node,
                        NodeModel {
                            abort_handle: Seq::empty(),
                            ..before.registry.nodes[node.index as int]
                        },
                    );
                }
                None
            },
            BeforeRelease::Nothing => None,
        };
        let ghost mid = layer@;
        assert(prepared(before, node, new_state, mid, first));
        let failure = SessionPermit::release(node, &mut layer.registry, new_state);
        proof {
            if state_allowed(mid.registry.nodes[node.index as int].state, new_state) {
                lemma_node_replaced(
                    mid,
                    node,
                    NodeModel { state: new_state, ..mid.registry.nodes[node.index as int] },
                );
                assert(layer@ =~= moved(mid, node, new_state));
            } else {
                assert(layer@ =~= mid);
            }
        }
        let again = match failure {
            None => None,
            Some(failure) => {
                assert(layer@ =~= mid);
                let removed = SessionPermit::clean_state(node, layer);
                let ghost cleared = layer@;
                let _ = node.transition(&mut layer.registry, failure);
                proof {
                    if state_allowed(
                        cleared.registry.nodes[node.index as int].state,
                        failure,
                    ) {
                        lemma_node_replaced(
                            cleared,
                            node,
                            NodeModel {
                                state: failure,
                                ..cleared.registry.nodes[node.index as int]
                            },
                        );
                        assert(layer@ =~= moved(cleared, node, failure));
                    } else {
                        assert(layer@.registry.nodes =~= cleared.registry.nodes);
                        assert(layer@ =~= cleared);
                    }
                    assert(cleaned(mid, node, cleared, removed));
                    assert(misfit(
                        mid.registry.nodes[node.index as int].state,
                        new_state,
                        failure,
                    ));
                }
                Some(removed)
            },
        };
        assert(settled(mid, node, new_state, layer@, again));
        Released { first, again }
    }
}

/// A permit that ends without a session leaves no way to the node, no session with it under its
/// id, and nothing in the registry under which the node would be found.
pub proof fn lemma_failed_attempt_leaves_nothing(
    m: LayerModel,
    node: NodeView,
    error: SessionError,
    after: LayerModel,
    r: Released,
)
    requires
        permit_released(m, node, SessionState::FailedEstablish(error), after, r),
    ensures
        !after.nodes.contains_key(node.id),
        !after.p2p_nodes.contains_key(node.id),
        !after.registry.by_node_id.contains_key(node.id),
{
    let new_state = SessionState::FailedEstablish(error);
    let mid = choose|mid: LayerModel| #[trigger]
        prepared(m, node, new_state, mid, r.first) && settled(mid, node, new_state, after, r.again);
    lemma_cleaned_is_gone(m, node, mid, r.first->Some_0);
    let before = mid.registry.nodes[node.index as int].state;
    if !state_allowed(before, new_state) {
        let c = r.again->Some_0;
        let (last, failure) = choose|last: LayerModel, failure: SessionState|
            {
                &&& #[trigger] cleaned(mid, node, last, c)
                &&& #[trigger] misfit(before, new_state, failure)
                &&& after == if state_allowed(
                    last.registry.nodes[node.index as int].state,
                    failure,
                ) {
                    moved(last, node, failure)
                } else {
                    last
                }
            };
        lemma_cleaned_is_gone(mid, node, last, c);
    }
}

proof fn lemma_cleaned_is_gone(m: LayerModel, node: NodeView, after: LayerModel, r: Cleaned)
    requires
        cleaned(m, node, after, r),
    ensures
        !after.nodes.contains_key(node.id),
        !after.p2p_nodes.contains_key(node.id),
        !after.registry.by_node_id.contains_key(node.id),
{
    let states = choose|states: Seq<LayerModel>|
        {
            &&& #[trigger] all_aborted(
                states,
                m.registry.nodes[node.index as int].addresses,
                r.aborted@,
            )
            &&& states[0] == m
            &&& states.last().wf()
            &&& after == states.last().unregistered(node.id)
            &&& r.closed == states.last().report(node.id)
        };
    let mid = states.last();
    lemma_unregistered_is_gone(mid, node.id);
    assert(mid.ids_to_forget(node.id)[0] == node.id);
    assert(mid.ids_to_forget(node.id).contains(node.id));
}

} // verus!
