//! Promises about what is kept while sessions are initialized.
use vstd::prelude::*;

use crate::direct_session::RawSession;
use crate::error::{SessionError, SessionInitError};
use crate::model::{Identity, NodeId, SessionHandle, SessionId, SocketAddr};
use crate::session_guard::{ConnectError, GuardedSessions, NodeAwaiting};
use crate::session_initializer::{
    available, heavy_threads, init_p2p_session, init_server_session, list_crypto,
    prepare_session_request, ChallengeRequest, SessionInitializer, SessionRequest, TaskOutcome,
    MAX_INCOMING_HANDSHAKES,
};

verus! {

/// An address has one handshake at a time, and there is a limit to all of them. One that was given
/// up makes room again.
pub proof fn law_one_handshake_for_an_address(
    first: &mut SessionInitializer,
    from: SocketAddr,
    taken: bool,
    second: &mut SessionInitializer,
    again: bool,
    third: &mut SessionInitializer,
    fourth: &mut SessionInitializer,
    later: bool,
    other: SocketAddr,
)
    requires
        old(first)@.wf(),
        call_ensures(SessionInitializer::take_up, (first, from), taken),
        *old(second) == *final(first),
        call_ensures(SessionInitializer::take_up, (second, from), again),
        *old(third) == *final(second),
        call_ensures(SessionInitializer::release_admission, (third, &from), ()),
        *old(fourth) == *final(third),
        call_ensures(SessionInitializer::take_up, (fourth, from), later),
        other != from,
    ensures
        taken <==> !old(first)@.admitted.contains_key(from) && old(first)@.admitted.len()
            < MAX_INCOMING_HANDSHAKES,
        !again,
        taken ==> later,
        taken ==> final(first)@.admitted.contains_key(from),
        !final(third)@.admitted.contains_key(from),
        final(third)@.admitted.contains_key(other) <==> old(first)@.admitted.contains_key(other),
        final(third)@.incoming == old(first)@.incoming,
        final(third)@.tmp == old(first)@.tmp,
        final(third)@.handles == old(first)@.handles,
{
}

/// A temporary session is one and the same for all who use it at one time, and ends with the last
/// of them.
pub proof fn law_temporary_session_is_shared(
    first: &mut SessionInitializer,
    addr: SocketAddr,
    a: SessionId,
    one: RawSession,
    second: &mut SessionInitializer,
    b: SessionId,
    two: RawSession,
    third: &mut SessionInitializer,
    fourth: &mut SessionInitializer,
)
    requires
        !old(first)@.tmp.contains_key(addr),
        call_ensures(SessionInitializer::lease_temporary_session, (first, addr, a), one),
        *old(second) == *final(first),
        call_ensures(SessionInitializer::lease_temporary_session, (second, addr, b), two),
        *old(third) == *final(second),
        call_ensures(SessionInitializer::release_temporary_session, (third, &addr), ()),
        *old(fourth) == *final(third),
        call_ensures(SessionInitializer::release_temporary_session, (fourth, &addr), ()),
    ensures
        one == (RawSession { id: a, remote: addr }),
        two == one,
        final(third)@.tmp.contains_key(addr),
        final(third)@.tmp[addr].session == one,
        !final(fourth)@.tmp.contains_key(addr),
        final(fourth)@.tmp == old(first)@.tmp,
{
    assert(final(fourth)@.tmp =~= old(first)@.tmp);
}

/// A temporary session is found by its address, under the id it was first given.
pub proof fn law_temporary_session_is_found(
    initializer: &mut SessionInitializer,
    addr: SocketAddr,
    fresh: SessionId,
    r: RawSession,
    after: &SessionInitializer,
    found: Option<RawSession>,
    other: SocketAddr,
)
    requires
        call_ensures(SessionInitializer::temporary_session, (initializer, addr, fresh), r),
        after@ == final(initializer)@,
        call_ensures(SessionInitializer::get_temporary_session, (after, &addr), found),
        other != addr,
    ensures
        found == Some(r),
        old(initializer)@.tmp.contains_key(addr) ==> r == old(initializer)@.tmp[addr].session,
        !old(initializer)@.tmp.contains_key(addr) ==> r.id == fresh && r.remote == addr,
        final(initializer)@.tmp.contains_key(other) <==> old(initializer)@.tmp.contains_key(other),
        old(initializer)@.tmp.contains_key(other) ==> final(initializer)@.tmp[other] == old(initializer)@.tmp[other],
{
}

/// A request within a handshake is read once, as it came, and only the party that the handshake is
/// held with can send it.
pub proof fn law_requests_reach_their_handshake(
    first: &mut SessionInitializer,
    id: SessionId,
    remote: SocketAddr,
    handle: u64,
    second: &mut SessionInitializer,
    request_id: u64,
    from: SocketAddr,
    request: SessionRequest,
    r: Result<(), SessionError>,
    third: &mut SessionInitializer,
    read: Option<(u64, SessionRequest)>,
    fourth: &mut SessionInitializer,
    again: Option<(u64, SessionRequest)>,
)
    requires
        !old(first)@.incoming.contains_key(id),
        call_ensures(SessionInitializer::begin_incoming, (first, id, remote, handle), ()),
        *old(second) == *final(first),
        call_ensures(
            SessionInitializer::try_continue_session,
            (second, id, request_id, from, request),
            r,
        ),
        *old(third) == *final(second),
        call_ensures(SessionInitializer::next_request, (third, &id), read),
        *old(fourth) == *final(third),
        call_ensures(SessionInitializer::next_request, (fourth, &id), again),
    ensures
        r is Ok <==> from == remote,
        r is Ok ==> read == Some((request_id, request)),
        r is Err ==> read is None,
        again is None,
        final(first)@.handles[id] == handle,
        final(first)@.handles.contains_key(id),
{
}

/// A request is not taken while another one waits, and the one that waits stays.
pub proof fn law_waiting_request_stays(
    initializer: &mut SessionInitializer,
    id: SessionId,
    request_id: u64,
    from: SocketAddr,
    request: SessionRequest,
    r: Result<(), SessionError>,
)
    requires
        call_ensures(
            SessionInitializer::try_continue_session,
            (initializer, id, request_id, from, request),
            r,
        ),
    ensures
        ({
            let before = old(initializer)@.incoming;
            let after = final(initializer)@.incoming;
            &&& !before.contains_key(id) || before[id].queued is Some || before[id].remote != from
                ==> r is Err && after == before
            &&& before.contains_key(id) && before[id].queued is None && before[id].remote == from
                ==> r is Ok
        }),
{
}

/// A handshake that ended waits for nothing any more, and others still do.
pub proof fn law_ended_handshake_is_forgotten(
    initializer: &mut SessionInitializer,
    id: SessionId,
    other: SessionId,
)
    requires
        call_ensures(SessionInitializer::finish_incoming, (initializer, &id), ()),
        other != id,
    ensures
        ({
            let before = old(initializer)@;
            let after = final(initializer)@;
            &&& !after.incoming.contains_key(id)
            &&& !after.handles.contains_key(id)
            &&& after.incoming.contains_key(other) <==> before.incoming.contains_key(other)
            &&& before.incoming.contains_key(other) ==> after.incoming[other]
                == before.incoming[other]
            &&& after.handles.contains_key(other) <==> before.handles.contains_key(other)
            &&& before.handles.contains_key(other) ==> after.handles[other]
                == before.handles[other]
            &&& after.tmp == before.tmp
            &&& after.admitted == before.admitted
        }),
{
}

/// What a handshake came to is reported as it is. Only after a failure is the other party told, and
/// the handshake forgotten.
pub proof fn law_failed_handshake_is_cleaned_up(
    initializer: &mut SessionInitializer,
    with: SocketAddr,
    session_id: SessionId,
    outcome: TaskOutcome,
    fresh: SessionId,
    r: (Result<SessionHandle, SessionError>, Option<RawSession>),
    other: SessionId,
)
    requires
        call_ensures(
            SessionInitializer::new_session,
            (initializer, with, session_id, outcome, fresh),
            r,
        ),
        other != session_id,
    ensures
        ({
            let before = old(initializer)@;
            let after = final(initializer)@;
            &&& r.0 is Ok <==> (outcome matches TaskOutcome::Completed(Ok(_)))
            &&& outcome matches TaskOutcome::Completed(result) ==> r.0 == result
            &&& outcome is TimedOut ==> r.0->Err_0 is Timeout
            &&& r.1 is Some <==> r.0 is Err
            &&& r.1 matches Some(told) ==> before.tmp.contains_key(with) ==> told
                == before.tmp[with].session
            &&& r.1 matches Some(told) ==> !before.tmp.contains_key(with) ==> told.remote == with
            &&& r.0 is Ok ==> after == before
            &&& r.0 is Err ==> !after.incoming.contains_key(session_id)
                && !after.handles.contains_key(session_id)
            &&& before.incoming.contains_key(other) ==> after.incoming.contains_key(other)
                && after.incoming[other] == before.incoming[other]
            &&& after.admitted == before.admitted
        }),
{
}

/// On shutdown every task of a handshake is handed out once, and nothing is left.
pub proof fn law_shutdown_leaves_no_handshake(
    initializer: &mut SessionInitializer,
    r: Vec<(SessionId, u64)>,
    id: SessionId,
    addr: SocketAddr,
)
    requires
        call_ensures(SessionInitializer::shutdown, (initializer,), r),
    ensures
        !final(initializer)@.incoming.contains_key(id),
        !final(initializer)@.handles.contains_key(id),
        !final(initializer)@.tmp.contains_key(addr),
        !final(initializer)@.admitted.contains_key(addr),
        forall|i: int, j: int|
            0 <= i < j < r@.len() ==> (#[trigger] r@[i]).0 != (#[trigger] r@[j]).0,
{
}

/// Challenges are solved on all processors but two, and on one where there are not more.
pub proof fn law_processors_are_left_for_others(cpus: usize, r: usize)
    requires
        call_ensures(heavy_threads, (cpus,), r),
    ensures
        r >= 1,
        cpus >= 3 ==> r + 2 == cpus,
        cpus <= 3 ==> r == 1,
{
}

/// The default key comes first, and other keys follow in order as far as they could be had.
pub proof fn law_default_key_comes_first<T: Copy>(
    default: Result<T, String>,
    aliases: Result<Vec<Option<T>>, String>,
    r: Result<Vec<T>, String>,
)
    requires
        call_ensures(list_crypto::<T>, (default, aliases), r),
    ensures
        r is Ok <==> default is Ok && aliases is Ok,
        r is Ok ==> {
            let list = r->Ok_0@;
            let answers = aliases->Ok_0@;
            &&& list.len() > 0
            &&& list[0] == default->Ok_0
            &&& list.skip(1).len() <= answers.len()
            &&& forall|i: int|
                0 <= i < answers.len() && (#[trigger] answers[i]) is Some ==> list.skip(
                    1,
                ).contains(answers[i]->Some_0)
            &&& forall|k: int|
                1 <= k < list.len() ==> exists|i: int|
                    0 <= i < answers.len() && (#[trigger] answers[i]) == Some(#[trigger] list[k])
            &&& (forall|i: int| 0 <= i < answers.len() ==> (#[trigger] answers[i]) is Some)
                ==> list.len() == answers.len() + 1 && forall|i: int|
                0 <= i < answers.len() ==> (#[trigger] answers[i]) == Some(list[i + 1])
        },
{
    if let Ok(answers) = aliases {
        if let Ok(first) = default {
            let list = r->Ok_0@;
            lemma_available(answers@);
            assert(list.skip(1) =~= available(answers@));
            assert forall|k: int| 1 <= k < list.len() implies exists|i: int|
                0 <= i < answers@.len() && (#[trigger] answers@[i]) == Some(#[trigger] list[k]) by {
                assert(available(answers@)[k - 1] == list[k]);
                let i = choose|i: int|
                    0 <= i < answers@.len() && (#[trigger] answers@[i]) == Some(
                        available(answers@)[k - 1],
                    );
                assert(answers@[i] == Some(list[k]));
            }
        }
    }
}

proof fn lemma_available<T>(answers: Seq<Option<T>>)
    ensures
        available(answers).len() <= answers.len(),
        forall|i: int|
            0 <= i < answers.len() && (#[trigger] answers[i]) is Some ==> available(
                answers,
            ).contains(answers[i]->Some_0),
        forall|k: int|
            0 <= k < available(answers).len() ==> exists|i: int|
                0 <= i < answers.len() && (#[trigger] answers[i]) == Some(
                    #[trigger] available(answers)[k],
                ),
        (forall|i: int| 0 <= i < answers.len() ==> (#[trigger] answers[i]) is Some) ==> available(
            answers,
        ).len() == answers.len() && forall|i: int|
            0 <= i < answers.len() ==> (#[trigger] answers[i]) == Some(available(answers)[i]),
    decreases answers.len(),
{
    if answers.len() > 0 {
        let rest = answers.drop_last();
        lemma_available(rest);
        let before = available(rest);
        let all = available(answers);
        assert(answers[answers.len() - 1] == answers.last());
        assert forall|i: int| 0 <= i < rest.len() implies rest[i] == #[trigger] answers[i] by {}
        assert forall|i: int|
            0 <= i < answers.len() && (#[trigger] answers[i]) is Some implies all.contains(
            answers[i]->Some_0,
        ) by {
            if i < rest.len() {
                assert(rest[i] == answers[i]);
                let k = choose|k: int| 0 <= k < before.len() && before[k] == answers[i]->Some_0;
                assert(all[k] == answers[i]->Some_0);
            } else {
                assert(all[all.len() - 1] == answers[i]->Some_0);
            }
        }
        assert forall|k: int| 0 <= k < all.len() implies exists|i: int|
            0 <= i < answers.len() && (#[trigger] answers[i]) == Some(#[trigger] all[k]) by {
            if k < before.len() {
                assert(all[k] == before[k]);
                let i = choose|i: int|
                    0 <= i < rest.len() && (#[trigger] rest[i]) == Some(before[k]);
                assert(answers[i] == Some(all[k]));
            } else {
                assert(answers[answers.len() - 1] == Some(all[k]));
            }
        }
        if forall|i: int| 0 <= i < answers.len() ==> (#[trigger] answers[i]) is Some {
            assert forall|i: int| 0 <= i < rest.len() implies (#[trigger] rest[i]) is Some by {
                assert(answers[i] is Some);
            }
            assert forall|i: int| 0 <= i < answers.len() implies (#[trigger] answers[i]) == Some(
                all[i],
            ) by {
                if i < rest.len() {
                    assert(rest[i] == Some(before[i]));
                }
            }
        }
    }
}

/// The first request of a handshake names all identities in order, with a challenge exactly if one
/// is asked for. If one identity cannot be had, there is no request.
pub proof fn law_introduction_names_all_identities(
    keys: Result<Vec<Result<Identity, String>>, String>,
    challenge_req: ChallengeRequest,
    challenge: bool,
    r: Result<SessionRequest, SessionError>,
)
    requires
        call_ensures(prepare_session_request, (keys, challenge_req, challenge), r),
    ensures
        r is Ok <==> keys is Ok && forall|i: int|
            0 <= i < keys->Ok_0@.len() ==> (#[trigger] keys->Ok_0@[i]) is Ok,
        r matches Ok(request) ==> {
            &&& request.identities@.len() == keys->Ok_0@.len()
            &&& forall|i: int|
                0 <= i < request.identities@.len() ==> keys->Ok_0@[i] == Ok::<Identity, String>(
                    #[trigger] request.identities@[i],
                )
            &&& request.challenge_req is Some <==> challenge
            &&& challenge ==> request.challenge_req == Some(challenge_req)
            &&& request.challenge_resp is None
        },
{
}

/// A session is handed on, and a failure with whom it was.
pub proof fn law_initialization_tells_whom_it_was_with(
    node_id: NodeId,
    addr: SocketAddr,
    result: Result<SessionHandle, SessionError>,
    direct: Result<SessionHandle, SessionInitError>,
    relay: Result<SessionHandle, SessionInitError>,
)
    requires
        call_ensures(init_p2p_session, (node_id, result), direct),
        call_ensures(init_server_session, (addr, result), relay),
    ensures
        result matches Ok(session) ==> direct == Ok::<SessionHandle, SessionInitError>(session)
            && relay == Ok::<SessionHandle, SessionInitError>(session),
        result matches Err(e) ==> (direct matches Err(SessionInitError::P2P(with, why)) && with
            == node_id && why == e) && (relay matches Err(SessionInitError::Relay(with, why))
            && with == addr && why == e),
{
}

/// Whoever wants to connect to a node gets the lock of that node: by its id, or by any address that
/// it was announced with. The lock is given up with the node, and other nodes keep theirs.
pub proof fn law_one_lock_for_a_node(
    first: &mut GuardedSessions,
    node: NodeId,
    addrs: &Vec<SocketAddr>,
    lock: u64,
    r: u64,
    second: &mut GuardedSessions,
    alias: NodeId,
    others: &Vec<SocketAddr>,
    own: u64,
    again: u64,
    third: &mut GuardedSessions,
    freed: Option<u64>,
)
    requires
        old(first)@.wf(),
        !old(first)@.targets.contains_key(node),
        forall|i: int|
            0 <= i < addrs@.len() ==> !old(first)@.by_addr.contains_key(#[trigger] addrs@[i]),
        !old(first)@.targets.contains_key(alias),
        call_ensures(GuardedSessions::guard_initialization, (first, node, addrs, lock), r),
        *old(second) == *final(first),
        others@.len() == 1,
        addrs@.contains(others@[0]) || alias == node,
        call_ensures(GuardedSessions::guard_initialization, (second, alias, others, own), again),
        *old(third) == *final(second),
        call_ensures(GuardedSessions::stop_guarding, (third, node), freed),
    ensures
        r == lock,
        again == lock,
        final(second)@ == final(first)@,
        freed == Some(lock),
        !final(third)@.targets.contains_key(node),
        forall|i: int|
            0 <= i < addrs@.len() ==> !final(third)@.by_addr.contains_key(#[trigger] addrs@[i])
                && !final(third)@.tmp.contains_key(addrs@[i]),
        forall|id: NodeId|
            id != node && old(first)@.targets.contains_key(id) ==> final(third)@.targets.contains_key(id) && #[trigger] final(third)@.targets[id] == old(first)@.targets[id],
{
    lemma_unknown(old(first)@.by_addr, addrs@);
    reveal_with_fuel(crate::session_guard::first_known, 2);
    assert forall|i: int| 0 <= i < addrs@.len() implies !final(third)@.by_addr.contains_key(
        #[trigger] addrs@[i],
    ) && !final(third)@.tmp.contains_key(addrs@[i]) by {
        assert(addrs@.contains(addrs@[i]));
        assert(addrs@.to_set().contains(addrs@[i]));
    }
}

proof fn lemma_unknown(known: Map<SocketAddr, NodeId>, addrs: Seq<SocketAddr>)
    requires
        forall|i: int| 0 <= i < addrs.len() ==> !known.contains_key(#[trigger] addrs[i]),
    ensures
        crate::session_guard::first_known(known, addrs) is None,
    decreases addrs.len(),
{
    if addrs.len() > 0 {
        assert forall|i: int| 0 <= i < addrs.skip(1).len() implies !known.contains_key(
            #[trigger] addrs.skip(1)[i],
        ) by {
            assert(addrs.skip(1)[i] == addrs[i + 1]);
        }
        lemma_unknown(known, addrs.skip(1));
    }
}

/// A node that is waited for is let through once, and no other node is.
pub proof fn law_awaited_node_is_let_through_once(
    first: &mut GuardedSessions,
    node: NodeId,
    awaiting: Result<NodeAwaiting, String>,
    second: &mut GuardedSessions,
    passed: bool,
    third: &mut GuardedSessions,
    again: bool,
)
    requires
        old(first)@.wf(),
        call_ensures(GuardedSessions::register_waiting_for_node, (first, node), awaiting),
        *old(second) == *final(first),
        call_ensures(GuardedSessions::try_access_unguarded, (second, node), passed),
        *old(third) == *final(second),
        call_ensures(GuardedSessions::try_access_unguarded, (third, node), again),
    ensures
        awaiting is Ok <==> old(first)@.targets.contains_key(node),
        awaiting matches Ok(a) ==> a.lock == old(first)@.targets[node].lock,
        passed <==> awaiting is Ok,
        !again,
        forall|id: NodeId|
            id != node && old(first)@.targets.contains_key(id) ==> #[trigger] final(third)@.targets[id] == old(first)@.targets[id],
{
}

/// Whoever waits for a node gets what was announced, and an error if nothing ever is.
pub proof fn law_waiting_gets_what_was_announced(
    awaiting: &NodeAwaiting,
    received: Option<Result<RawSession, ConnectError>>,
    r: Result<RawSession, ConnectError>,
)
    requires
        call_ensures(NodeAwaiting::wait_for_connection, (awaiting, received), r),
    ensures
        received matches Some(result) ==> r == result,
        received is None ==> (r matches Err(ConnectError::Drop(_))),
{
}

} // verus!
