//! Closing sessions that went silent, and keeping the session with the relay server.
use vstd::prelude::*;

use chrono::{DateTime, Utc};

use crate::model::{NodeId, SessionHandle};
use crate::network_view::NodeAwaiting;
use crate::session_layer::SessionLayer;

verus! {

/// Sessions to close, and how long the others last, in milliseconds of one clock.
pub struct SessionTimeouts {
    pub expired: Vec<SessionHandle>,
    /// When the next session would expire.
    pub next_expiration: i128,
}

/// Whether something that was last seen at a time has expired.
pub open spec fn expired(last_seen: int, expiration: u64, now: i64) -> bool {
    last_seen + expiration < now
}

/// Items of a list that were last seen too long ago, in order.
pub open spec fn expired_items<T>(seen: Seq<(T, i64)>, expiration: u64, now: i64) -> Seq<T>
    decreases seen.len(),
{
    if seen.len() == 0 {
        Seq::empty()
    } else {
        let rest = expired_items(seen.drop_last(), expiration, now);
        if expired(seen.last().1 as int, expiration, now) {
            rest.push(seen.last().0)
        } else {
            rest
        }
    }
}

/// When the oldest of the items that have not expired was seen, if there are any.
pub open spec fn oldest_live<T>(seen: Seq<(T, i64)>, expiration: u64, now: i64) -> Option<int>
    decreases seen.len(),
{
    if seen.len() == 0 {
        None
    } else {
        let rest = oldest_live(seen.drop_last(), expiration, now);
        let t = seen.last().1 as int;
        if expired(t, expiration, now) {
            rest
        } else {
            match rest {
                Some(o) if o <= t => rest,
                _ => Some(t),
            }
        }
    }
}

/// When to look for expired items again.
pub open spec fn next_look(oldest: Option<int>, expiration: u64, now: i64) -> int {
    (match oldest {
        Some(t) => t,
        None => now as int,
    }) + expiration
}

/// Decides which sessions to close: those that were last seen, after they were pinged, longer ago
/// than the expiration time. `now` is when pinging started.
pub fn timeout_sessions(
    seen: &Vec<(SessionHandle, i64)>,
    expiration: u64,
    now: i64,
) -> (r: SessionTimeouts)
    ensures
        r.expired@ == expired_items(seen@, expiration, now),
        r.next_expiration == next_look(oldest_live(seen@, expiration, now), expiration, now),
{
    let mut gone: Vec<SessionHandle> = Vec::new();
    let mut oldest: Option<i64> = None;
    let mut i: usize = 0;
    assert(seen@.take(0) =~= Seq::empty());
    while i < seen.len()
        invariant
            0 <= i <= seen@.len(),
            gone@ == expired_items(seen@.take(i as int), expiration, now),
            match (oldest, oldest_live(seen@.take(i as int), expiration, now)) {
                (Some(a), Some(b)) => a == b,
                (None, None) => true,
                _ => false,
            },
        decreases seen@.len() - i,
    {
        let (session, last_seen) = seen[i];
        proof {
            let next = seen@.take(i + 1);
            assert(next.drop_last() =~= seen@.take(i as int));
            assert(next.last() == seen@[i as int]);
        }
        if (last_seen as i128) + (expiration as i128) < now as i128 {
            gone.push(session);
        } else {
            oldest = match oldest {
                Some(o) if o <= last_seen => Some(o),
                _ => Some(last_seen),
            };
        }
        i += 1;
    }
    assert(seen@.take(i as int) =~= seen@);
    let first: i64 = match oldest {
        Some(t) => t,
        None => now,
    };
    SessionTimeouts { expired: gone, next_expiration: first as i128 + expiration as i128 }
}

/// When the oldest of the items was seen, if there are any.
pub open spec fn oldest_seen<T>(seen: Seq<(T, i64)>) -> Option<int>
    decreases seen.len(),
{
    if seen.len() == 0 {
        None
    } else {
        let t = seen.last().1 as int;
        match oldest_seen(seen.drop_last()) {
            Some(o) if o <= t => Some(o),
            _ => Some(t),
        }
    }
}

/// Decides which items have expired, and when to look again: when the oldest of all items, expired
/// ones included, would expire.
pub fn expired_sessions<T: Copy>(seen: &Vec<(T, i64)>, expiration: u64, now: i64) -> (r: (
    Vec<T>,
    i128,
))
    ensures
        r.0@ == expired_items(seen@, expiration, now),
        r.1 == next_look(oldest_seen(seen@), expiration, now),
{
    let mut gone: Vec<T> = Vec::new();
    let mut oldest: Option<i64> = None;
    let mut i: usize = 0;
    assert(seen@.take(0) =~= Seq::empty());
    while i < seen.len()
        invariant
            0 <= i <= seen@.len(),
            gone@ == expired_items(seen@.take(i as int), expiration, now),
            match (oldest, oldest_seen(seen@.take(i as int))) {
                (Some(a), Some(b)) => a == b,
                (None, None) => true,
                _ => false,
            },
        decreases seen@.len() - i,
    {
        let (item, last_seen) = seen[i];
        proof {
            let next = seen@.take(i + 1);
            assert(next.drop_last() =~= seen@.take(i as int));
            assert(next.last() == seen@[i as int]);
        }
        if (last_seen as i128) + (expiration as i128) < now as i128 {
            gone.push(item);
        }
        oldest = match oldest {
            Some(o) if o <= last_seen => Some(o),
            _ => Some(last_seen),
        };
        i += 1;
    }
    assert(seen@.take(i as int) =~= seen@);
    let first: i64 = match oldest {
        Some(t) => t,
        None => now,
    };
    (gone, first as i128 + expiration as i128)
}

/// How long to sleep until a time, in milliseconds. Not at all where it is past.
pub fn time_until(next: i128, now: i64) -> (r: u64)
    ensures
        r == if next <= now {
            0
        } else if next - now > u64::MAX {
            u64::MAX as int
        } else {
            next - now
        },
{
    if next <= now as i128 {
        return 0;
    }
    if now < 0 && next > i128::MAX + now as i128 {
        return u64::MAX;
    }
    let left: i128 = next - now as i128;
    if left > u64::MAX as i128 {
        u64::MAX
    } else {
        left as u64
    }
}

/// How long to sleep until the next look at sessions or at relayed nodes, whichever is first.
pub fn next_cleanup(sessions: u64, slots: u64) -> (r: u64)
    ensures
        r == if sessions <= slots {
            sessions
        } else {
            slots
        },
{
    if sessions <= slots {
        sessions
    } else {
        slots
    }
}

/// Calls `DateTime::<Utc>::from_timestamp` with whole seconds, and gives the result in
/// milliseconds as `DateTime::timestamp_millis` does. Every number of seconds of this width is in
/// range, and comes back unchanged.
#[verifier::external_body]
fn utc_from_timestamp(seconds: u32) -> (r: Option<i64>)
    ensures
        r == Some((seconds * 1000) as i64),
{
    DateTime::<Utc>::from_timestamp(seconds as i64, 0).map(|dt| dt.timestamp_millis())
}

/// Relayed nodes to disconnect from, and when to look again, in milliseconds.
pub struct SlotTimeouts {
    pub expired: Vec<NodeId>,
    pub next_expiration: i128,
}

/// When a relayed node counts as seen. The relay server hears from nodes less often, so that it
/// gets the expiration time on top. Unset where the server does not know the node.
pub open spec fn slot_seen(seen: Option<u32>, expiration: u64) -> Option<int> {
    match seen {
        Some(seconds) => Some(seconds * 1000 + expiration),
        None => None,
    }
}

/// Whether to disconnect from a relayed node.
pub open spec fn slot_expired(seen: Option<u32>, expiration: u64, now: i64) -> bool {
    match slot_seen(seen, expiration) {
        Some(t) => expired(t, expiration, now),
        None => true,
    }
}

/// Relayed nodes of a list to disconnect from, in order.
pub open spec fn expired_slots(
    seen: Seq<(NodeId, Option<u32>)>,
    expiration: u64,
    now: i64,
) -> Seq<NodeId>
    decreases seen.len(),
{
    if seen.len() == 0 {
        Seq::empty()
    } else {
        let rest = expired_slots(seen.drop_last(), expiration, now);
        if slot_expired(seen.last().1, expiration, now) {
            rest.push(seen.last().0)
        } else {
            rest
        }
    }
}

/// When the oldest of the relayed nodes that have not expired counts as seen, if there are any.
pub open spec fn oldest_slot(
    seen: Seq<(NodeId, Option<u32>)>,
    expiration: u64,
    now: i64,
) -> Option<int>
    decreases seen.len(),
{
    if seen.len() == 0 {
        None
    } else {
        let rest = oldest_slot(seen.drop_last(), expiration, now);
        if slot_expired(seen.last().1, expiration, now) {
            rest
        } else {
            let t = slot_seen(seen.last().1, expiration)->Some_0;
            match rest {
                Some(o) if o <= t => rest,
                _ => Some(t),
            }
        }
    }
}

/// Decides which relayed nodes to disconnect from. For each node the list says when the relay
/// server saw it, in seconds, unless the server does not know it.
pub fn timeout_relay_slots(
    seen: &Vec<(NodeId, Option<u32>)>,
    expiration: u64,
    now: i64,
) -> (r: SlotTimeouts)
    ensures
        r.expired@ == expired_slots(seen@, expiration, now),
        r.next_expiration == next_look(oldest_slot(seen@, expiration, now), expiration, now),
{
    let elapsed: i128 = now as i128 - expiration as i128 - 42_000;
    let mut gone: Vec<NodeId> = Vec::new();
    let mut oldest: Option<i128> = None;
    let mut i: usize = 0;
    assert(seen@.take(0) =~= Seq::empty());
    while i < seen.len()
        invariant
            0 <= i <= seen@.len(),
            gone@ == expired_slots(seen@.take(i as int), expiration, now),
            match (oldest, oldest_slot(seen@.take(i as int), expiration, now)) {
                (Some(a), Some(b)) => a == b,
                (None, None) => true,
                _ => false,
            },
            oldest matches Some(a) ==> a <= u32::MAX * 1000 + u64::MAX,
        decreases seen@.len() - i,
    {
        let (node_id, info) = seen[i];
        proof {
            let next = seen@.take(i + 1);
            assert(next.drop_last() =~= seen@.take(i as int));
            assert(next.last() == seen@[i as int]);
        }
        let last_seen: Option<i128> = match info {
            Some(seconds) => match utc_from_timestamp(seconds) {
                Some(at) => Some(at as i128 + expiration as i128),
                None => Some(elapsed),
            },
            None => None,
        };
        match last_seen {
            Some(t) => {
                if t + (expiration as i128) < now as i128 {
                    gone.push(node_id);
                } else {
                    oldest = match oldest {
                        Some(o) if o <= t => Some(o),
                        _ => Some(t),
                    };
                }
            },
            None => {
                gone.push(node_id);
            },
        }
        i += 1;
    }
    assert(seen@.take(i as int) =~= seen@);
    let first: i128 = match oldest {
        Some(t) => t,
        None => now as i128,
    };
    SlotTimeouts { expired: gone, next_expiration: first + expiration as i128 }
}

/// Nothing that is left once the expired sessions were closed expires before the next look.
pub proof fn lemma_nothing_expires_earlier<T>(seen: Seq<(T, i64)>, expiration: u64, now: i64, i: int)
    requires
        0 <= i < seen.len(),
        !expired(seen[i].1 as int, expiration, now),
    ensures
        next_look(oldest_live(seen, expiration, now), expiration, now) <= seen[i].1 + expiration,
    decreases seen.len(),
{
    if i < seen.len() - 1 {
        lemma_nothing_expires_earlier(seen.drop_last(), expiration, now, i);
        lemma_live_means_some(seen.drop_last(), expiration, now, i);
    }
}

proof fn lemma_live_means_some<T>(seen: Seq<(T, i64)>, expiration: u64, now: i64, i: int)
    requires
        0 <= i < seen.len(),
        !expired(seen[i].1 as int, expiration, now),
    ensures
        oldest_live(seen, expiration, now) is Some,
    decreases seen.len(),
{
    if i < seen.len() - 1 {
        lemma_live_means_some(seen.drop_last(), expiration, now, i);
    }
}

/// A session is closed exactly if it was not seen for longer than the expiration time.
pub proof fn lemma_expired_are_the_silent<T>(
    seen: Seq<(T, i64)>,
    expiration: u64,
    now: i64,
    item: T,
)
    ensures
        expired_items(seen, expiration, now).contains(item) <==> exists|i: int|
            0 <= i < seen.len() && (#[trigger] seen[i]).0 == item && expired(
                seen[i].1 as int,
                expiration,
                now,
            ),
    decreases seen.len(),
{
    if seen.len() > 0 {
        let rest = seen.drop_last();
        lemma_expired_are_the_silent(rest, expiration, now, item);
        let items = expired_items(rest, expiration, now);
        let last = seen.last();
        crate::assoc::lemma_contains_push(items, last.0);
        if exists|i: int|
            0 <= i < rest.len() && (#[trigger] rest[i]).0 == item && expired(
                rest[i].1 as int,
                expiration,
                now,
            ) {
            let i = choose|i: int|
                0 <= i < rest.len() && (#[trigger] rest[i]).0 == item && expired(
                    rest[i].1 as int,
                    expiration,
                    now,
                );
            assert(seen[i].0 == item);
        }
        if exists|i: int|
            0 <= i < seen.len() && (#[trigger] seen[i]).0 == item && expired(
                seen[i].1 as int,
                expiration,
                now,
            ) {
            let i = choose|i: int|
                0 <= i < seen.len() && (#[trigger] seen[i]).0 == item && expired(
                    seen[i].1 as int,
                    expiration,
                    now,
                );
            if i < rest.len() {
                assert(rest[i].0 == item);
            }
        }
        if last.0 == item && expired(last.1 as int, expiration, now) {
            assert(seen[seen.len() - 1].0 == item);
        }
        assert(expired_items(seen, expiration, now) == if expired(last.1 as int, expiration, now) {
            items.push(last.0)
        } else {
            items
        });
        if items.push(last.0).contains(item) && expired(last.1 as int, expiration, now) {
            assert(items.contains(item) || item == last.0);
        }
    }
}

/// How far keeping the session with the relay server has got.
#[derive(Clone, Copy, Debug, PartialEq, Eq, Structural)]
pub enum KeepAliveEvent {
    Begin,
    /// The session was established.
    Established,
    /// The session that was waited for has ended.
    Ended,
}

/// What keeping the session with the relay server does next.
#[derive(Clone, Copy, Debug, PartialEq, Eq, Structural)]
pub enum KeepAliveAction {
    /// Establishes the session, trying again with growing pauses until it is there.
    Establish,
    /// Waits for the end of the session.
    AwaitEnd(NodeAwaiting),
}

impl SessionLayer {
    /// The means to hear of the end of the session with the relay server, if the server is known.
    pub fn server_awaiting_notifier(&self) -> (r: Option<NodeAwaiting>)
        requires
            self@.wf(),
        ensures
            r == if self@.registry.by_node_id.contains_key(NodeId::zero()) {
                Some(
                    NodeAwaiting {
                        registry: self@.registry.view_at(
                            self@.registry.by_node_id[NodeId::zero()],
                        ),
                    },
                )
            } else {
                None
            },
    {
        match self.registry.get_entry(NodeId::default()) {
            Some(entry) => Some(entry.awaiting_notifier()),
            None => None,
        }
    }

    /// Takes the next step in keeping the session with the relay server. What to listen to is
    /// looked up anew for every session. A session that was retired before it could be listened
    /// to is established again at once, and never waited for.
    pub fn keep_alive_server_session(&self, event: KeepAliveEvent) -> (r: KeepAliveAction)
        requires
            self@.wf(),
        ensures
            r == if event == KeepAliveEvent::Established
                && self@.registry.by_node_id.contains_key(NodeId::zero()) {
                KeepAliveAction::AwaitEnd(
                    NodeAwaiting {
                        registry: self@.registry.view_at(
                            self@.registry.by_node_id[NodeId::zero()],
                        ),
                    },
                )
            } else {
                KeepAliveAction::Establish
            },
    {
        match event {
            KeepAliveEvent::Established => match self.server_awaiting_notifier() {
                Some(awaiting) => KeepAliveAction::AwaitEnd(awaiting),
                None => KeepAliveAction::Establish,
            },
            _ => KeepAliveAction::Establish,
        }
    }
}

} // verus!
