//! Promises about handshakes.
use vstd::prelude::*;

use crate::error::{ProtocolError, SessionError};
use crate::model::{NodeId, SessionHandle, SessionId};
use crate::network_view::{NetworkModel, NodeModel, NodeView};
use crate::session_initializer::{
    incoming_stepped, outgoing_stepped, IncomingAction, IncomingEvent, IncomingHandshake,
    IncomingStep, OutgoingAction, OutgoingEvent, OutgoingHandshake, OutgoingStep, Recovered,
};
use crate::session_state::{InitState, ReverseState, SessionState};

verus! {

/// Who proved their identities includes a node.
pub open spec fn proves(recovered: Recovered, id: NodeId) -> bool {
    ||| recovered.node_id == id
    ||| exists|i: int|
        0 <= i < recovered.identities@.len() && (#[trigger] recovered.identities@[i]).node_id == id
}

/// One entry of the network is in another state, and nothing else differs.
pub open spec fn only_state(
    before: NetworkModel,
    node: NodeView,
    state: SessionState,
    after: NetworkModel,
) -> bool {
    let i = node.index as int;
    &&& after.ttl == before.ttl
    &&& after.by_node_id == before.by_node_id
    &&& after.by_addr == before.by_addr
    &&& after.nodes.len() == before.nodes.len()
    &&& after.nodes[i] == (NodeModel { state, ..before.nodes[i] })
    &&& forall|k: int|
        0 <= k < before.nodes.len() && k != i ==> #[trigger] after.nodes[k] == before.nodes[k]
}

/// The session is registered exactly if the other party proved to be the node that was asked for,
/// under its default id or under any other. A handshake with anybody else fails, and they are told.
pub proof fn law_session_is_registered_with_the_node_that_was_asked_for(
    h: OutgoingHandshake,
    m: NetworkModel,
    id: SessionId,
    recovered: Recovered,
    after: OutgoingHandshake,
    m_after: NetworkModel,
    action: OutgoingAction,
)
    requires
        m.has(h.node),
        h.step == OutgoingStep::Validating(id),
        m.nodes[h.node.index as int].state == SessionState::Outgoing(InitState::HandshakeResponse),
        outgoing_stepped(h, m, OutgoingEvent::Validated(Ok(recovered)), after, m_after, action),
    ensures
        only_state(m, h.node, SessionState::Outgoing(InitState::ChallengeVerified), m_after),
        proves(recovered, h.node.id) ==> {
            &&& action matches OutgoingAction::Register { addr, id: session, recovered: found }
            &&& addr == h.addr
            &&& session == id
            &&& found.node_id == recovered.node_id
            &&& found.identities@ == recovered.identities@
            &&& found.session_key == recovered.session_key
        },
        !proves(recovered, h.node.id) ==> (action matches OutgoingAction::Fail { disconnect, .. }
            && disconnect),
{
    let ids = crate::model::ids_of(recovered.identities@);
    assert(ids.len() == recovered.identities@.len());
    assert forall|i: int| 0 <= i < ids.len() implies ids[i]
        == (#[trigger] recovered.identities@[i]).node_id by {}
    if ids.contains(h.node.id) {
        let i = choose|i: int| 0 <= i < ids.len() && ids[i] == h.node.id;
        assert(recovered.identities@[i].node_id == h.node.id);
    }
    if exists|i: int|
        0 <= i < recovered.identities@.len() && (#[trigger] recovered.identities@[i]).node_id
            == h.node.id {
        let i = choose|i: int|
            0 <= i < recovered.identities@.len() && (#[trigger] recovered.identities@[i]).node_id
                == h.node.id;
        assert(ids[i] == h.node.id);
    }
}

/// A handshake of this node in which every step goes well runs through to the end: both sides prove
/// their identity, the session is registered under the address and the id that the other party
/// gave, packets may be sent, and the session is ready. Nothing but the state of the session
/// changes on the way.
pub proof fn law_outgoing_handshake_succeeds(
    hs: Seq<OutgoingHandshake>,
    ms: Seq<NetworkModel>,
    events: Seq<OutgoingEvent>,
    actions: Seq<OutgoingAction>,
    bytes: Vec<u8>,
    reply: Vec<u8>,
    recovered: Recovered,
    session: SessionHandle,
)
    requires
        hs.len() == 9,
        ms.len() == 9,
        events.len() == 8,
        actions.len() == 8,
        outgoing_stepped(hs[0], ms[0], events[0], hs[1], ms[1], actions[0]),
        outgoing_stepped(hs[1], ms[1], events[1], hs[2], ms[2], actions[1]),
        outgoing_stepped(hs[2], ms[2], events[2], hs[3], ms[3], actions[2]),
        outgoing_stepped(hs[3], ms[3], events[3], hs[4], ms[4], actions[3]),
        outgoing_stepped(hs[4], ms[4], events[4], hs[5], ms[5], actions[4]),
        outgoing_stepped(hs[5], ms[5], events[5], hs[6], ms[6], actions[5]),
        outgoing_stepped(hs[6], ms[6], events[6], hs[7], ms[7], actions[6]),
        outgoing_stepped(hs[7], ms[7], events[7], hs[8], ms[8], actions[7]),
        ms[0].has(hs[0].node),
        hs[0].challenge,
        hs[0].step == OutgoingStep::Start,
        ms[0].nodes[hs[0].node.index as int].state == SessionState::Outgoing(
            InitState::ConnectIntent,
        ),
        events[0] == OutgoingEvent::Begin,
        events[1] == OutgoingEvent::Prepared(Ok(())),
        events[2] == OutgoingEvent::SessionReceived(Ok((bytes, true))),
        events[3] == OutgoingEvent::Solved(Ok(())),
        events[4] == OutgoingEvent::ReplyReceived(Ok(reply)),
        events[5] == OutgoingEvent::Validated(Ok(recovered)),
        events[6] == OutgoingEvent::Registered(Ok(session)),
        events[7] == OutgoingEvent::Resumed(Ok(())),
        bytes@.len() == 16,
        reply@ == bytes@,
        proves(recovered, hs[0].node.id),
    ensures
        actions[0] == (OutgoingAction::Prepare { challenge: true }),
        actions[1] == (OutgoingAction::SendSession { timeout: hs[0].session_request_timeout }),
        actions[2] == OutgoingAction::Solve,
        actions[3] matches OutgoingAction::SendSolution { id, timeout } && id.bytes() == bytes@
            && timeout == hs[0].challenge_request_timeout,
        actions[4] == (OutgoingAction::Validate { expected: hs[0].node.id }),
        actions[5] matches OutgoingAction::Register { addr, id, recovered: found } && addr
            == hs[0].addr && id.bytes() == bytes@ && found.node_id == recovered.node_id
            && found.identities@ == recovered.identities@ && found.session_key
            == recovered.session_key,
        actions[6] == OutgoingAction::SendResume(session),
        actions[7] == OutgoingAction::Finish(session),
        only_state(ms[0], hs[0].node, SessionState::Outgoing(InitState::Ready), ms[8]),
        hs[8].step == OutgoingStep::Done,
{
    assert(hs[5].step is Validating);
    law_session_is_registered_with_the_node_that_was_asked_for(
        hs[5],
        ms[5],
        hs[5].step->Validating_0,
        recovered,
        hs[6],
        ms[6],
        actions[5],
    );
}

/// A relay server need not prove an identity: where the node that was asked for is the one of all
/// zeros, the session is registered as soon as the server answers with the id of the session.
pub proof fn law_server_is_registered_without_proof(
    h: OutgoingHandshake,
    m: NetworkModel,
    id: SessionId,
    reply: Vec<u8>,
    after: OutgoingHandshake,
    m_after: NetworkModel,
    action: OutgoingAction,
)
    requires
        m.has(h.node),
        h.step == OutgoingStep::AwaitingReply(id),
        !h.challenge,
        h.node.id == (NodeId { high: 0, low: 0 }),
        m.nodes[h.node.index as int].state == SessionState::Outgoing(
            InitState::ChallengeHandshake,
        ),
        reply@ == id.bytes(),
        outgoing_stepped(h, m, OutgoingEvent::ReplyReceived(Ok(reply)), after, m_after, action),
    ensures
        action matches OutgoingAction::Register { addr, id: session, recovered } && addr == h.addr
            && session == id && recovered.node_id == (NodeId { high: 0, low: 0 })
            && recovered.identities@.len() == 0 && recovered.session_key is None,
        only_state(m, h.node, SessionState::Outgoing(InitState::ChallengeVerified), m_after),
{
}

/// What goes wrong in a handshake of this node ends it with the reason, and registers nothing. The
/// other party is told exactly where it answered wrongly: with another session, with a solution
/// that is not right, or as another node.
pub proof fn law_outgoing_failures_are_reported(
    h: OutgoingHandshake,
    m: NetworkModel,
    event: OutgoingEvent,
    after: OutgoingHandshake,
    m_after: NetworkModel,
    action: OutgoingAction,
)
    requires
        m.has(h.node),
        outgoing_stepped(h, m, event, after, m_after, action),
    ensures
        after.addr == h.addr,
        after.node == h.node,
        after.challenge == h.challenge,
        after.session_request_timeout == h.session_request_timeout,
        after.challenge_request_timeout == h.challenge_request_timeout,
        action is Fail ==> after.step == OutgoingStep::Done,
        action is Finish ==> after.step == OutgoingStep::Done,
        (h.step == OutgoingStep::Preparing) ==> (event matches OutgoingEvent::Prepared(Err(e))
            ==> action == (OutgoingAction::Fail { error: e, disconnect: false }) && m_after == m),
        (h.step == OutgoingStep::AwaitingSession) ==> (event
            matches OutgoingEvent::SessionReceived(Err(e)) ==> (action
            matches OutgoingAction::Fail { error: SessionError::Network(text), disconnect: false }
            && text@ == e.text() && m_after == m)),
        (h.step is Solving) ==> (event matches OutgoingEvent::Solved(Err(e)) ==> action == (
        OutgoingAction::Fail { error: SessionError::Internal(e), disconnect: false }) && m_after
            == m),
        (h.step is AwaitingReply) ==> (event matches OutgoingEvent::ReplyReceived(Err(e)) ==> (
        action matches OutgoingAction::Fail { error: SessionError::Network(text), disconnect: false }
            && text@ == e.text() && m_after == m)),
        (h.step is Validating) ==> (event matches OutgoingEvent::Validated(Err(e)) ==> action == (
        OutgoingAction::Fail {
            error: SessionError::Protocol(ProtocolError::InvalidChallenge(e)),
            disconnect: true,
        }) && m_after == m),
        (h.step is Registering) ==> (event matches OutgoingEvent::Registered(Err(_)) ==> (action
            matches OutgoingAction::Fail { error: SessionError::Internal(_), disconnect: false })
            && m_after == m),
        (h.step is Resuming) ==> (event matches OutgoingEvent::Resumed(Err(e)) ==> (action
            matches OutgoingAction::Fail { error: SessionError::Network(text), disconnect: false }
            && text@ == e.text() && m_after == m)),
        action matches OutgoingAction::Fail { disconnect: true, .. } ==> h.step is AwaitingReply
            || h.step is Validating,
        action is Register && h.challenge ==> (event matches OutgoingEvent::Validated(Ok(recovered))
            && proves(recovered, h.node.id) && h.step is Validating),
        action matches OutgoingAction::Finish(session) ==> h.step == OutgoingStep::Resuming(session)
            && (event matches OutgoingEvent::Resumed(Ok(_))),
        action matches OutgoingAction::SendResume(session) ==> h.step is Registering && event
            == OutgoingEvent::Registered(Ok(session)),
        action matches OutgoingAction::SendSolution { id, .. } ==> h.step == OutgoingStep::Solving(
            id,
        ),
        action is Solve ==> (event matches OutgoingEvent::SessionReceived(Ok(response))
            && response.0@.len() == 16 && response.1),
        action is Validate ==> h.challenge,
        forall|k: int|
            0 <= k < m.nodes.len() && k != h.node.index ==> #[trigger] m_after.nodes[k]
                == m.nodes[k],
        m_after.by_node_id == m.by_node_id,
        m_after.by_addr == m.by_addr,
{
    if let OutgoingEvent::Validated(Ok(recovered)) = event {
        let ids = crate::model::ids_of(recovered.identities@);
        assert(ids.len() == recovered.identities@.len());
        if ids.contains(h.node.id) {
            let i = choose|i: int| 0 <= i < ids.len() && ids[i] == h.node.id;
            assert(recovered.identities@[i].node_id == h.node.id);
        }
    }
}

/// An answer to the first request that names no session, or that comes without a challenge, and an
/// answer to the solution that names another session, end the handshake. Only the last is told to
/// the other party.
pub proof fn law_wrong_answers_end_the_handshake(
    h: OutgoingHandshake,
    m: NetworkModel,
    bytes: Vec<u8>,
    challenged: bool,
    after: OutgoingHandshake,
    m_after: NetworkModel,
    action: OutgoingAction,
)
    requires
        m.has(h.node),
    ensures
        h.step == OutgoingStep::AwaitingSession && m.nodes[h.node.index as int].state
            == SessionState::Outgoing(InitState::Initializing) && outgoing_stepped(
            h,
            m,
            OutgoingEvent::SessionReceived(Ok((bytes, challenged))),
            after,
            m_after,
            action,
        ) ==> {
            if bytes@.len() == 16 && challenged {
                &&& action is Solve
                &&& after.step matches OutgoingStep::Solving(id) && id.bytes() == bytes@
            } else {
                action matches OutgoingAction::Fail { disconnect: false, .. }
            }
        },
        h.step is AwaitingReply && m.nodes[h.node.index as int].state == SessionState::Outgoing(
            InitState::ChallengeHandshake,
        ) && outgoing_stepped(
            h,
            m,
            OutgoingEvent::ReplyReceived(Ok(bytes)),
            after,
            m_after,
            action,
        ) && h.step->AwaitingReply_0.bytes() != bytes@ ==> (action matches OutgoingAction::Fail {
            disconnect: true,
            ..
        }),
{
}

/// A handshake of another node in which every step goes well runs through to the end, be it on its
/// own or as the answer to a request for a reverse connection: the challenge goes out as the answer
/// to the first request, the session is registered with whoever the solution proves, the solution
/// of this node goes out as the answer to the second request, and the session is ready once the
/// other party resumes.
pub proof fn law_incoming_handshake_succeeds(
    hs: Seq<IncomingHandshake>,
    ms: Seq<NetworkModel>,
    events: Seq<IncomingEvent>,
    actions: Seq<IncomingAction>,
    request: u64,
    recovered: Recovered,
    session: SessionHandle,
    reverse: bool,
)
    requires
        hs.len() == 9,
        ms.len() == 9,
        events.len() == 8,
        actions.len() == 8,
        incoming_stepped(hs[0], ms[0], events[0], hs[1], ms[1], actions[0]),
        incoming_stepped(hs[1], ms[1], events[1], hs[2], ms[2], actions[1]),
        incoming_stepped(hs[2], ms[2], events[2], hs[3], ms[3], actions[2]),
        incoming_stepped(hs[3], ms[3], events[3], hs[4], ms[4], actions[3]),
        incoming_stepped(hs[4], ms[4], events[4], hs[5], ms[5], actions[4]),
        incoming_stepped(hs[5], ms[5], events[5], hs[6], ms[6], actions[5]),
        incoming_stepped(hs[6], ms[6], events[6], hs[7], ms[7], actions[6]),
        incoming_stepped(hs[7], ms[7], events[7], hs[8], ms[8], actions[7]),
        ms[0].has(hs[0].node),
        hs[0].step == IncomingStep::Start,
        ms[0].nodes[hs[0].node.index as int].state == if reverse {
            SessionState::ReverseConnection(ReverseState::InProgress(InitState::ConnectIntent))
        } else {
            SessionState::Incoming(InitState::ConnectIntent)
        },
        events[0] == IncomingEvent::Begin,
        events[1] == IncomingEvent::ChallengeSent(true),
        events[2] == IncomingEvent::Request(Some(request)),
        events[3] == IncomingEvent::Validated(Ok(recovered)),
        events[4] == IncomingEvent::Solved(Ok(())),
        events[5] == IncomingEvent::Registered(Ok(session)),
        events[6] == IncomingEvent::Responded(true),
        events[7] == IncomingEvent::Resumed,
    ensures
        actions[0] == IncomingAction::SendChallenge(hs[0].request_id),
        actions[1] == (IncomingAction::AwaitRequest { solve: hs[0].challenged }),
        actions[2] == IncomingAction::Validate,
        actions[3] == IncomingAction::AwaitSolution,
        actions[4] == (IncomingAction::Register {
            addr: hs[0].with,
            id: hs[0].session_id,
            recovered,
        }),
        actions[5] == (IncomingAction::Respond { session, request_id: request }),
        actions[6] == IncomingAction::AwaitResume(session),
        actions[7] == IncomingAction::Finish(session),
        only_state(
            ms[0],
            hs[0].node,
            if reverse {
                SessionState::ReverseConnection(ReverseState::InProgress(InitState::Ready))
            } else {
                SessionState::Incoming(InitState::Ready)
            },
            ms[8],
        ),
        hs[8].step == IncomingStep::Done,
{
}

/// What goes wrong in a handshake of another node ends it, and registers nothing. A session is
/// registered only with whoever a checked solution proved, and finished only with the session that
/// was registered.
pub proof fn law_incoming_failures_end_the_handshake(
    h: IncomingHandshake,
    m: NetworkModel,
    event: IncomingEvent,
    after: IncomingHandshake,
    m_after: NetworkModel,
    action: IncomingAction,
)
    requires
        m.has(h.node),
        incoming_stepped(h, m, event, after, m_after, action),
    ensures
        after.with == h.with,
        after.node == h.node,
        after.session_id == h.session_id,
        after.request_id == h.request_id,
        after.challenged == h.challenged,
        action is Fail || action is Finish ==> after.step == IncomingStep::Done,
        h.step == IncomingStep::SendingChallenge && event == IncomingEvent::ChallengeSent(false)
            ==> (action matches IncomingAction::Fail(SessionError::Network(_))) && m_after == m,
        h.step == IncomingStep::AwaitingSolution && event == IncomingEvent::Request(None) ==> (
        action matches IncomingAction::Fail(SessionError::Timeout(_))) && m_after == m,
        (h.step is Validating) ==> (event matches IncomingEvent::Validated(Err(e)) ==> action
            == IncomingAction::Fail(SessionError::Protocol(ProtocolError::InvalidChallenge(e)))
            && m_after == m),
        (h.step is Solving) ==> (event matches IncomingEvent::Solved(Err(e)) ==> action
            == IncomingAction::Fail(SessionError::Internal(e)) && m_after == m),
        (h.step is Registering) ==> (event matches IncomingEvent::Registered(Err(_)) ==> (action
            matches IncomingAction::Fail(SessionError::Internal(_))) && m_after == m),
        (h.step is Responding) ==> (event == IncomingEvent::Responded(false) ==> (action
            matches IncomingAction::Fail(SessionError::Network(_))) && m_after == m),
        action matches IncomingAction::Register { addr, id, recovered } ==> addr == h.with && id
            == h.session_id && h.recovered == Some(recovered) && (event matches IncomingEvent::Solved(
            Ok(_),
        )),
        action matches IncomingAction::Respond { session, request_id } ==> event
            == IncomingEvent::Registered(Ok(session)) && h.step == IncomingStep::Registering(
            request_id,
        ),
        action matches IncomingAction::Finish(session) ==> h.step == IncomingStep::AwaitingResume(
            session,
        ) && event == IncomingEvent::Resumed,
        forall|k: int|
            0 <= k < m.nodes.len() && k != h.node.index ==> #[trigger] m_after.nodes[k]
                == m.nodes[k],
        m_after.by_node_id == m.by_node_id,
        m_after.by_addr == m.by_addr,
{
}

} // verus!
