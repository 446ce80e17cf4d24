//! Promises about what runs beside the traffic: responses, repeated requests, and expiration.
use vstd::prelude::*;

use crate::dispatch::{
    dispatch, Awaited, Dispatched, Dispatcher, Origin, PacketKind, PacketRoute, ResponseRoute,
};
use crate::expire::{
    expired_items, expired_sessions, expired_slots, next_cleanup, oldest_live, oldest_seen,
    oldest_slot, time_until, timeout_relay_slots, timeout_sessions, KeepAliveAction, KeepAliveEvent,
    SessionTimeouts, SlotTimeouts,
};
use crate::model::{NodeId, SessionHandle, SocketAddr};
use crate::requests::{ReqFingerprint, RequestHistory, REQ_DEDUPLICATE_BUF_SIZE};
use crate::session_layer::SessionLayer;

verus! {

/// The list holds the first parts of exactly those entries that are marked, in order.
pub open spec fn picks<A, B>(seen: Seq<(A, B)>, mark: spec_fn(B) -> bool, list: Seq<A>) -> bool
    decreases seen.len(),
{
    if seen.len() == 0 {
        list.len() == 0
    } else if mark(seen.last().1) {
        list.len() > 0 && list.last() == seen.last().0 && picks(
            seen.drop_last(),
            mark,
            list.drop_last(),
        )
    } else {
        picks(seen.drop_last(), mark, list)
    }
}

proof fn lemma_silent<T>(seen: Seq<(T, i64)>, expiration: u64, now: i64)
    ensures
        picks(seen, |t: i64| t + expiration < now, expired_items(seen, expiration, now)),
        match oldest_live(seen, expiration, now) {
            Some(t) => {
                &&& exists|i: int|
                    0 <= i < seen.len() && (#[trigger] seen[i]).1 == t && t + expiration >= now
                &&& forall|i: int|
                    0 <= i < seen.len() && (#[trigger] seen[i]).1 + expiration >= now ==> t
                        <= seen[i].1
            },
            None => forall|i: int|
                0 <= i < seen.len() ==> (#[trigger] seen[i]).1 + expiration < now,
        },
        match oldest_seen(seen) {
            Some(t) => {
                &&& exists|i: int| 0 <= i < seen.len() && (#[trigger] seen[i]).1 == t
                &&& forall|i: int| 0 <= i < seen.len() ==> t <= (#[trigger] seen[i]).1
            },
            None => seen.len() == 0,
        },
    decreases seen.len(),
{
    if seen.len() > 0 {
        let rest = seen.drop_last();
        lemma_silent(rest, expiration, now);
        let items = expired_items(rest, expiration, now);
        assert(items.push(seen.last().0).drop_last() =~= items);
        assert forall|i: int| 0 <= i < rest.len() implies rest[i] == seen[i] by {}
        assert(seen[seen.len() - 1] == seen.last());
        if let Some(t) = oldest_live(rest, expiration, now) {
            let i = choose|i: int|
                0 <= i < rest.len() && (#[trigger] rest[i]).1 == t && t + expiration >= now;
            assert(seen[i].1 == t);
        }
        if let Some(t) = oldest_seen(rest) {
            let i = choose|i: int| 0 <= i < rest.len() && (#[trigger] rest[i]).1 == t;
            assert(seen[i].1 == t);
        }
        assert forall|i: int|
            0 <= i < seen.len() && oldest_live(seen, expiration, now) is None implies (
        #[trigger] seen[i]).1 + expiration < now by {
            if i < rest.len() {
                assert(rest[i] == seen[i]);
            }
        }
        assert forall|i: int|
            0 <= i < seen.len() && oldest_live(seen, expiration, now) is Some && (
            #[trigger] seen[i]).1 + expiration >= now implies oldest_live(
            seen,
            expiration,
            now,
        )->Some_0 <= seen[i].1 by {
            if i < rest.len() {
                assert(rest[i] == seen[i]);
            }
        }
        assert forall|i: int| 0 <= i < seen.len() implies oldest_seen(seen)->Some_0 <= (
        #[trigger] seen[i]).1 by {
            if i < rest.len() {
                assert(rest[i] == seen[i]);
            }
        }
    }
}

/// Exactly the sessions that were silent for longer than the expiration time are closed. The next
/// look comes when the oldest of the others can expire, or a whole expiration time later where
/// none is left.
pub proof fn law_silent_sessions_are_closed(
    seen: &Vec<(SessionHandle, i64)>,
    expiration: u64,
    now: i64,
    r: SessionTimeouts,
)
    requires
        call_ensures(timeout_sessions, (seen, expiration, now), r),
    ensures
        picks(seen@, |t: i64| t + expiration < now, r.expired@),
        (forall|i: int| 0 <= i < seen@.len() ==> (#[trigger] seen@[i]).1 + expiration < now)
            ==> r.next_expiration == now + expiration,
        forall|i: int|
            0 <= i < seen@.len() && (#[trigger] seen@[i]).1 + expiration >= now
                ==> r.next_expiration <= seen@[i].1 + expiration,
        (exists|i: int| 0 <= i < seen@.len() && (#[trigger] seen@[i]).1 + expiration >= now)
            ==> exists|i: int|
            0 <= i < seen@.len() && (#[trigger] seen@[i]).1 + expiration >= now
                && r.next_expiration == seen@[i].1 + expiration,
{
    lemma_silent(seen@, expiration, now);
}

/// The same rule for other items, where the next look comes when the oldest of all items, expired
/// ones included, would expire.
pub proof fn law_silent_items_expire<T: Copy>(
    seen: &Vec<(T, i64)>,
    expiration: u64,
    now: i64,
    r: (Vec<T>, i128),
)
    requires
        call_ensures(expired_sessions::<T>, (seen, expiration, now), r),
    ensures
        picks(seen@, |t: i64| t + expiration < now, r.0@),
        seen@.len() == 0 ==> r.1 == now + expiration,
        forall|i: int| 0 <= i < seen@.len() ==> r.1 <= (#[trigger] seen@[i]).1 + expiration,
        seen@.len() > 0 ==> exists|i: int|
            0 <= i < seen@.len() && r.1 == (#[trigger] seen@[i]).1 + expiration,
{
    lemma_silent(seen@, expiration, now);
}

/// A relayed node is left exactly if the relay server does not know it, or has not seen it for
/// longer than twice the expiration time. The next look comes when the oldest of the others can be
/// left.
pub proof fn law_lost_relayed_nodes_are_left(
    seen: &Vec<(NodeId, Option<u32>)>,
    expiration: u64,
    now: i64,
    r: SlotTimeouts,
)
    requires
        call_ensures(timeout_relay_slots, (seen, expiration, now), r),
    ensures
        picks(
            seen@,
            |t: Option<u32>|
                t is None || (t->Some_0 as int) * 1000 + expiration + expiration < now,
            r.expired@,
        ),
        forall|i: int|
            0 <= i < seen@.len() && ((#[trigger] seen@[i]).1 matches Some(t) && t * 1000
                + expiration + expiration >= now) ==> r.next_expiration <= seen@[i].1->Some_0
                * 1000 + expiration + expiration,
        (forall|i: int|
            0 <= i < seen@.len() ==> ((#[trigger] seen@[i]).1 matches Some(t) ==> t * 1000
                + expiration + expiration < now)) ==> r.next_expiration == now + expiration,
{
    lemma_slots(seen@, expiration, now);
}

proof fn lemma_slots(seen: Seq<(NodeId, Option<u32>)>, expiration: u64, now: i64)
    ensures
        picks(
            seen,
            |t: Option<u32>|
                t is None || (t->Some_0 as int) * 1000 + expiration + expiration < now,
            expired_slots(seen, expiration, now),
        ),
        match oldest_slot(seen, expiration, now) {
            Some(t) => {
                &&& exists|i: int|
                    0 <= i < seen.len() && ((#[trigger] seen[i]).1 matches Some(s) && s * 1000
                        + expiration == t && t + expiration >= now)
                &&& forall|i: int|
                    0 <= i < seen.len() && ((#[trigger] seen[i]).1 matches Some(s) && s * 1000
                        + expiration + expiration >= now) ==> t <= seen[i].1->Some_0 * 1000
                        + expiration
            },
            None => forall|i: int|
                0 <= i < seen.len() ==> ((#[trigger] seen[i]).1 matches Some(s) ==> s * 1000
                    + expiration + expiration < now),
        },
    decreases seen.len(),
{
    if seen.len() > 0 {
        let rest = seen.drop_last();
        lemma_slots(rest, expiration, now);
        let items = expired_slots(rest, expiration, now);
        assert(items.push(seen.last().0).drop_last() =~= items);
        assert(seen[seen.len() - 1] == seen.last());
        if let Some(t) = oldest_slot(rest, expiration, now) {
            let i = choose|i: int|
                0 <= i < rest.len() && ((#[trigger] rest[i]).1 matches Some(s) && s * 1000
                    + expiration == t && t + expiration >= now);
            assert(seen[i] == rest[i]);
        }
        assert forall|i: int|
            0 <= i < seen.len() && oldest_slot(seen, expiration, now) is None implies ((
        #[trigger] seen[i]).1 matches Some(s) ==> s * 1000 + expiration + expiration < now) by {
            if i < rest.len() {
                assert(rest[i] == seen[i]);
            }
        }
        assert forall|i: int|
            0 <= i < seen.len() && oldest_slot(seen, expiration, now) is Some && ((
            #[trigger] seen[i]).1 matches Some(s) && s * 1000 + expiration + expiration
                >= now) implies oldest_slot(seen, expiration, now)->Some_0 <= seen[i].1->Some_0
            * 1000 + expiration by {
            if i < rest.len() {
                assert(rest[i] == seen[i]);
            }
        }
    }
}

/// The pause until the next look ends at the earlier of two times, and never in the past.
pub proof fn law_pauses_end_in_time(
    a: u64,
    b: u64,
    r: u64,
    next: i128,
    now: i64,
    pause: u64,
)
    requires
        call_ensures(next_cleanup, (a, b), r),
        call_ensures(time_until, (next, now), pause),
    ensures
        r <= a,
        r <= b,
        r == a || r == b,
        next <= now ==> pause == 0,
        next > now && next - now <= u64::MAX ==> now + pause == next,
        next - now > u64::MAX ==> pause == u64::MAX,
{
}

/// The session with the relay server is kept: whenever it has ended, or is not found where it was
/// established, it is established again, and it is waited for only where there is something to
/// wait for.
pub proof fn law_server_session_is_kept(
    layer: &SessionLayer,
    event: KeepAliveEvent,
    r: KeepAliveAction,
)
    requires
        layer@.wf(),
        call_ensures(SessionLayer::keep_alive_server_session, (layer, event), r),
    ensures
        event is Begin || event is Ended ==> r is Establish,
        ({
            let known = layer@.registry.by_node_id;
            let server = NodeId { high: 0, low: 0 };
            &&& event is Established ==> (r is AwaitEnd <==> known.contains_key(server))
            &&& r matches KeepAliveAction::AwaitEnd(awaiting) ==> awaiting.registry.index
                == known[server]
        }),
{
}

/// A packet goes where its kind says. Payloads are taken over established sessions only, and
/// responses only from parties that a session or a handshake is known with.
pub proof fn law_packets_go_where_they_belong(kind: PacketKind, origin: Origin, r: PacketRoute)
    requires
        call_ensures(dispatch, (kind, origin), r),
    ensures
        kind is Control <==> r is OnControl,
        kind is Request <==> r is OnRequest,
        r matches PacketRoute::OnForward(session) ==> kind is Forward && origin
            == Origin::Session(session),
        kind is Forward ==> (origin matches Origin::Session(session) ==> r
            == PacketRoute::OnForward(session)),
        r is Response <==> ((kind matches PacketKind::Response { content: true }) && !(origin
            is Unknown)),
{
}

/// Whom a packet came from goes by its address: a session first, then a handshake under way.
pub proof fn law_origin_goes_by_the_address(layer: &SessionLayer, from: SocketAddr, r: Origin)
    requires
        call_ensures(SessionLayer::origin, (layer, from), r),
    ensures
        layer@.p2p_sessions.contains_key(from) ==> r == Origin::Session(layer@.p2p_sessions[from]),
        !layer@.p2p_sessions.contains_key(from) ==> match layer@.protocol {
            Some(p) => if p.tmp.contains_key(from) {
                r == Origin::Temporary(p.tmp[from].session)
            } else {
                r is Unknown
            },
            None => r is Unknown,
        },
{
}

/// Whoever waits for a response gets it, and gets it once: the first response goes to whoever asked
/// last, and a second one to nobody. A response to another request does not count.
pub proof fn law_response_goes_to_who_waits(
    first: &mut Dispatcher,
    request_id: u64,
    ticket: u64,
    second: &mut Dispatcher,
    code: i32,
    r: ResponseRoute,
    third: &mut Dispatcher,
    again: ResponseRoute,
    other: u64,
)
    requires
        call_ensures(Dispatcher::response, (first, request_id), ticket),
        old(second)@ == final(first)@,
        call_ensures(Dispatcher::dispatch_response, (second, request_id, code), r),
        old(third)@ == final(second)@,
        call_ensures(Dispatcher::dispatch_response, (third, request_id, code), again),
        old(first)@.wf(),
        old(first)@.next_ticket < u64::MAX,
        other != request_id,
    ensures
        r.to == Some(ticket),
        again.to is None,
        old(first)@.responses.contains_key(other) <==> final(third)@.responses.contains_key(other),
        old(first)@.responses.contains_key(other) ==> final(third)@.responses[other] == old(first)@.responses[other] && old(first)@.responses[other] != ticket,
        final(third)@.seen == old(first)@.seen,
        final(third)@.ping == old(first)@.ping,
{
    if old(first)@.responses.contains_key(other) {
        assert(old(first)@.responses[other] < old(first)@.next_ticket);
    }
}

/// Who gives up waiting gets no response. Whoever asked again meanwhile still does.
pub proof fn law_giving_up_is_personal(
    before: &mut Dispatcher,
    request_id: u64,
    ticket: u64,
    after: &mut Dispatcher,
    code: i32,
    r: ResponseRoute,
)
    requires
        call_ensures(Dispatcher::give_up, (before, request_id, ticket), ()),
        old(after)@ == final(before)@,
        call_ensures(Dispatcher::dispatch_response, (after, request_id, code), r),
    ensures
        ({
            let waiting = old(before)@.responses;
            &&& waiting.contains_key(request_id) && waiting[request_id] != ticket ==> r.to == Some(
                waiting[request_id],
            )
            &&& waiting.contains_key(request_id) && waiting[request_id] == ticket ==> r.to is None
            &&& !waiting.contains_key(request_id) ==> r.to is None
        }),
{
}

/// What was registered for a code runs on every response with that code, and on no other. An
/// exclusive one does not run again before it has ended.
pub proof fn law_error_handlers_run_for_their_code(
    dispatcher: &mut Dispatcher,
    request_id: u64,
    code: i32,
    r: ResponseRoute,
)
    requires
        call_ensures(Dispatcher::dispatch_response, (dispatcher, request_id, code), r),
    ensures
        ({
            let m = old(dispatcher)@;
            let after = final(dispatcher)@;
            &&& r.handle_error is Some <==> code != m.ok && m.error_handlers.contains_key(code) && !(
            m.error_handlers[code].exclusive && m.error_handlers[code].running)
            &&& r.handle_error matches Some(registration) ==> registration
                == m.error_handlers[code].registration && after.error_handlers[code].running
            &&& forall|other: i32|
                other != code ==> (#[trigger] after.error_handlers.contains_key(other)
                    <==> m.error_handlers.contains_key(other)) && (
                m.error_handlers.contains_key(other) ==> after.error_handlers[other]
                    == m.error_handlers[other])
            &&& after.error_handlers.contains_key(code) <==> m.error_handlers.contains_key(code)
            &&& m.error_handlers.contains_key(code) ==> after.error_handlers[code].registration
                == m.error_handlers[code].registration && after.error_handlers[code].exclusive
                == m.error_handlers[code].exclusive
        }),
{
}

/// A request succeeds exactly if a response came with the right code and the expected content, and
/// gives that content.
pub proof fn law_only_good_responses_count<T>(
    ok: i32,
    timeout: u64,
    awaited: Awaited<T>,
    r: Result<Dispatched<T>, String>,
)
    requires
        call_ensures(Dispatcher::response_outcome::<T>, (ok, timeout, awaited), r),
    ensures
        r is Ok <==> (awaited matches Awaited::Received(response) && response.code == ok
            && response.packet is Some),
        r matches Ok(response) ==> {
            let received = awaited->Received_0;
            response.packet == received.packet->Some_0 && response.code == received.code
                && response.session_id == received.session_id
        },
{
}

/// A request that was recorded counts as repeated when it comes again, from the same address and
/// within the same session, and is no reason to drop any other. As many requests are remembered as
/// fit in.
pub proof fn law_repeated_requests_are_known(
    history: &mut RequestHistory,
    request: ReqFingerprint,
    after: &RequestHistory,
    from: &SocketAddr,
    session_id: &Vec<u8>,
    request_id: u64,
    r: bool,
)
    requires
        old(history)@.len() <= REQ_DEDUPLICATE_BUF_SIZE,
        call_ensures(RequestHistory::record_duplicate, (history, request), ()),
        after@ == final(history)@,
        call_ensures(
            RequestHistory::is_request_duplicate,
            (after, from, session_id, request_id),
            r,
        ),
    ensures
        ({
            let same = request.from == *from && request.session_id@ == session_id@
                && request.request_id == request_id;
            let m = old(history)@;
            &&& same ==> r
            &&& r && !same ==> exists|i: int|
                0 <= i < m.len() && (#[trigger] m[i]).from == *from && m[i].session_id
                    == session_id@ && m[i].request_id == request_id
            &&& !same && m.len() < REQ_DEDUPLICATE_BUF_SIZE ==> forall|i: int|
                0 <= i < m.len() && (#[trigger] m[i]).from == *from && m[i].session_id
                    == session_id@ && m[i].request_id == request_id ==> r
            &&& !same ==> forall|i: int|
                1 <= i < m.len() && (#[trigger] m[i]).from == *from && m[i].session_id
                    == session_id@ && m[i].request_id == request_id ==> r
        }),
{
    let m = old(history)@;
    let new = final(history)@;
    assert(new.last() == request@);
    assert(new[new.len() - 1] == request@);
    if r {
        let wanted = crate::requests::FingerprintModel {
            from: *from,
            session_id: session_id@,
            request_id,
        };
        let i = choose|i: int| 0 <= i < new.len() && new[i] == wanted;
        if i < new.len() - 1 {
            if m.len() < REQ_DEDUPLICATE_BUF_SIZE {
                assert(m[i] == wanted);
            } else {
                assert(m[i + 1] == wanted);
            }
        }
    }
    assert forall|i: int|
        0 <= i < m.len() && (i > 0 || m.len() < REQ_DEDUPLICATE_BUF_SIZE) implies new.contains(
        #[trigger] m[i],
    ) by {
        if m.len() < REQ_DEDUPLICATE_BUF_SIZE {
            assert(new[i] == m[i]);
        } else {
            assert(new[i - 1] == m[i]);
        }
    }
}

} // verus!
