//! What a client does beyond sessions and transport: neighbours, broadcasts and its start.
use vstd::prelude::*;
use vstd::string::*;

use rand::seq::SliceRandom;

#[allow(unused_imports)]
use crate::assoc::{as_map, lemma_contains_push, unique_keys};
use crate::config::ClientConfig;
use crate::error::{owned, prefixed, SessionError};
use crate::model::{copy_list, list_contains, NodeId, SessionHandle, SocketAddr};
use crate::session_layer::SessionLayer;
#[allow(unused_imports)]
use crate::session_layer::LayerModel;
use crate::virtual_layer::TcpLayer;

verus! {

/// Nodes that the relay server named as neighbours, and when, in milliseconds.
pub struct Neighbourhood {
    pub updated: i64,
    pub nodes: Vec<NodeId>,
}

/// State of a client.
pub struct Client {
    pub bind_addr: Option<SocketAddr>,
    pub neighbours: Option<Neighbourhood>,
    /// Background tasks to stop on shutdown.
    pub handles: Vec<u64>,
}

/// What a broadcast does next.
pub enum BroadcastAction {
    /// The data goes to these nodes.
    Send(Vec<NodeId>),
    /// The data goes to these nodes, which are too few. Neighbours are asked for.
    QueryNeighbours(Vec<NodeId>),
}

/// Whether neighbours that are known are enough, and known lately enough.
pub open spec fn fresh_neighbours(
    known: Option<Neighbourhood>,
    count: u32,
    ttl: u64,
    now: i64,
) -> bool {
    known matches Some(n) && n.nodes@.len() >= count && n.updated + ttl > now
}

/// Ids of a list that could be read.
pub open spec fn readable_ids(ids: Seq<Option<NodeId>>) -> Seq<NodeId>
    decreases ids.len(),
{
    if ids.len() == 0 {
        Seq::empty()
    } else {
        match ids.last() {
            Some(id) => readable_ids(ids.drop_last()).push(id),
            None => readable_ids(ids.drop_last()),
        }
    }
}

/// A list with each element once, at its first position.
pub open spec fn distinct(ids: Seq<NodeId>) -> Seq<NodeId>
    decreases ids.len(),
{
    if ids.len() == 0 {
        Seq::empty()
    } else {
        let rest = distinct(ids.drop_last());
        if rest.contains(ids.last()) {
            rest
        } else {
            rest.push(ids.last())
        }
    }
}

/// Elements of a list that are not in another, each once.
pub open spec fn lost(before: Seq<NodeId>, now: Seq<NodeId>) -> Seq<NodeId>
    decreases before.len(),
{
    if before.len() == 0 {
        Seq::empty()
    } else {
        let rest = lost(before.drop_last(), now);
        if now.contains(before.last()) || rest.contains(before.last()) {
            rest
        } else {
            rest.push(before.last())
        }
    }
}

/// Default ids of nodes that sessions belong to, without the relay server.
pub open spec fn owner_ids(m: LayerModel, sessions: Seq<SessionHandle>) -> Seq<NodeId>
    decreases sessions.len(),
{
    if sessions.len() == 0 {
        Seq::empty()
    } else {
        let rest = owner_ids(m, sessions.drop_last());
        let h = sessions.last();
        if m.sessions.contains_key(h) && m.sessions[h].owner.default_id != NodeId::zero() {
            rest.push(m.sessions[h].owner.default_id)
        } else {
            rest
        }
    }
}

/// Not more elements of a list than a number.
pub open spec fn at_most(ids: Seq<NodeId>, count: nat) -> Seq<NodeId> {
    if ids.len() <= count {
        ids
    } else {
        ids.take(count as int)
    }
}

/// Nodes to broadcast to, out of a list of sessions.
pub open spec fn picked(m: LayerModel, sessions: Seq<SessionHandle>, count: u32) -> Seq<NodeId> {
    distinct(at_most(owner_ids(m, sessions), count as nat))
}

/// Nodes to broadcast to, with neighbours added until there are enough.
pub open spec fn completed(targets: Seq<NodeId>, neighbours: Seq<NodeId>, count: u32) -> Seq<NodeId>
    decreases neighbours.len(),
{
    if neighbours.len() == 0 || targets.len() >= count {
        targets
    } else if targets.contains(neighbours[0]) {
        completed(targets, neighbours.skip(1), count)
    } else {
        completed(targets.push(neighbours[0]), neighbours.skip(1), count)
    }
}

/// All sessions that an address leads to, in any order.
pub open spec fn shuffled(
    sessions: Map<SocketAddr, SessionHandle>,
    order: Seq<SessionHandle>,
) -> bool {
    exists|entries: Seq<(SocketAddr, SessionHandle)>|
        {
            &&& #[trigger] unique_keys(entries)
            &&& as_map(entries) == sessions
            &&& order.to_multiset() == entries.map_values(
                |e: (SocketAddr, SessionHandle)| e.1,
            ).to_multiset()
        }
}

/// Calls `SliceRandom::shuffle` with the generator of the running thread, `rand::thread_rng`. The
/// order is random, and every element stays.
#[verifier::external_body]
fn shuffle(sessions: &mut Vec<SessionHandle>)
    ensures
        final(sessions)@.to_multiset() == old(sessions)@.to_multiset(),
{
    sessions.shuffle(&mut rand::thread_rng())
}

fn distinct_ids(ids: &Vec<NodeId>) -> (r: Vec<NodeId>)
    ensures
        r@ == distinct(ids@),
{
    let mut r: Vec<NodeId> = Vec::new();
    let mut i: usize = 0;
    assert(ids@.take(0) =~= Seq::empty());
    while i < ids.len()
        invariant
            0 <= i <= ids@.len(),
            r@ == distinct(ids@.take(i as int)),
        decreases ids@.len() - i,
    {
        proof {
            let next = ids@.take(i + 1);
            assert(next.drop_last() =~= ids@.take(i as int));
            assert(next.last() == ids@[i as int]);
        }
        if !list_contains(&r, &ids[i]) {
            r.push(ids[i]);
        }
        i += 1;
    }
    assert(ids@.take(i as int) =~= ids@);
    r
}

impl SessionLayer {
    /// Nodes to broadcast to out of sessions in the given order.
    pub fn pick_targets(&self, sessions: &Vec<SessionHandle>, count: u32) -> (r: Vec<NodeId>)
        ensures
            r@ == picked(self@, sessions@, count),
    {
        let mut owners: Vec<NodeId> = Vec::new();
        let mut i: usize = 0;
        let server = NodeId::default();
        assert(sessions@.take(0) =~= Seq::empty());
        while i < sessions.len()
            invariant
                0 <= i <= sessions@.len(),
                server == NodeId::zero(),
                owners@ == owner_ids(self@, sessions@.take(i as int)),
            decreases sessions@.len() - i,
        {
            proof {
                let next = sessions@.take(i + 1);
                assert(next.drop_last() =~= sessions@.take(i as int));
                assert(next.last() == sessions@[i as int]);
            }
            match self.sessions.get(&sessions[i]) {
                Some(session) => {
                    if session.owner.default_id != server {
                        owners.push(session.owner.default_id);
                    }
                },
                None => {},
            }
            i += 1;
        }
        assert(sessions@.take(i as int) =~= sessions@);
        if owners.len() as u64 > count as u64 {
            owners.truncate(count as usize);
        }
        assert(owners@ =~= at_most(owner_ids(self@, sessions@), count as nat));
        distinct_ids(&owners)
    }

    /// Nodes to broadcast to: random ones of those that there are sessions with.
    pub fn broadcast_targets(&self, count: u32) -> (r: Vec<NodeId>)
        ensures
            exists|order: Seq<SessionHandle>|
                r@ == #[trigger] picked(self@, order, count) && shuffled(
                    self@.p2p_sessions,
                    order,
                ),
    {
        let sessions = self.sessions();
        let mut handles: Vec<SessionHandle> = Vec::new();
        let mut i: usize = 0;
        while i < sessions.len()
            invariant
                0 <= i <= sessions@.len(),
                handles@.len() == i,
                forall|j: int| 0 <= j < i ==> #[trigger] handles@[j] == sessions@[j].1,
            decreases sessions@.len() - i,
        {
            handles.push(sessions[i].1);
            i += 1;
        }
        assert(handles@ =~= sessions@.map_values(|e: (SocketAddr, SessionHandle)| e.1));
        shuffle(&mut handles);
        assert(shuffled(self@.p2p_sessions, handles@)) by {
            assert(unique_keys(sessions@) && as_map(sessions@) == self@.p2p_sessions);
        }
        self.pick_targets(&handles, count)
    }

    /// Begins a broadcast to so many nodes. Those that there are sessions with come first.
    pub fn broadcast(&self, count: u32) -> (r: BroadcastAction)
        ensures
            exists|order: Seq<SessionHandle>|
                {
                    let targets = #[trigger] picked(self@, order, count);
                    &&& shuffled(self@.p2p_sessions, order)
                    &&& match r {
                        BroadcastAction::Send(ids) => ids@ == targets && targets.len() >= count,
                        BroadcastAction::QueryNeighbours(ids) => ids@ == targets && targets.len()
                            < count,
                    }
                },
    {
        let targets = self.broadcast_targets(count);
        if (targets.len() as u64) < count as u64 {
            BroadcastAction::QueryNeighbours(targets)
        } else {
            BroadcastAction::Send(targets)
        }
    }

    /// Ids under which nodes can be reached, each with the default id of its node, if the node is
    /// known.
    pub fn connected_nodes(&self) -> (r: Vec<(NodeId, Option<NodeId>)>)
        requires
            self@.wf(),
        ensures
            forall|i: int|
                0 <= i < r@.len() ==> self@.nodes.contains_key((#[trigger] r@[i]).0) && r@[i].1
                    == if self@.registry.by_node_id.contains_key(r@[i].0) {
                    Some(
                        self@.registry.nodes[self@.registry.by_node_id[r@[i].0] as int].id,
                    )
                } else {
                    None
                },
            forall|id: NodeId| #[trigger]
                self@.nodes.contains_key(id) ==> exists|i: int|
                    0 <= i < r@.len() && (#[trigger] r@[i]).0 == id,
            forall|i: int, j: int|
                0 <= i < j < r@.len() ==> (#[trigger] r@[i]).0 != (#[trigger] r@[j]).0,
    {
        let ids = self.list_connected();
        let mut r: Vec<(NodeId, Option<NodeId>)> = Vec::new();
        let mut i: usize = 0;
        while i < ids.len()
            invariant
                0 <= i <= ids@.len(),
                self@.wf(),
                ids@.to_set() == self@.nodes.dom(),
                r@.len() == i,
                forall|j: int| 0 <= j < i ==> (#[trigger] r@[j]).0 == ids@[j],
                forall|j: int|
                    0 <= j < i ==> self@.nodes.contains_key((#[trigger] r@[j]).0) && r@[j].1
                        == if self@.registry.by_node_id.contains_key(r@[j].0) {
                        Some(
                            self@.registry.nodes[self@.registry.by_node_id[r@[j].0] as int].id,
                        )
                    } else {
                        None
                    },
            decreases ids@.len() - i,
        {
            let id = ids[i];
            assert(ids@.contains(id));
            assert(self@.nodes.dom().contains(id));
            r.push((id, self.default_id(id)));
            i += 1;
        }
        proof {
            assert forall|id: NodeId| #[trigger] self@.nodes.contains_key(id) implies exists|i: int|
                0 <= i < r@.len() && (#[trigger] r@[i]).0 == id by {
                assert(ids@.to_set().contains(id));
                let j = choose|j: int| 0 <= j < ids@.len() && ids@[j] == id;
                assert(r@[j].0 == id);
            }
            assert forall|i: int, j: int| 0 <= i < j < r@.len() implies (#[trigger] r@[i]).0 != (
            #[trigger] r@[j]).0 by {
                assert(ids@[i] != ids@[j]);
            }
        }
        r
    }
}

/// Adds neighbours to the nodes to broadcast to, until there are enough.
pub fn complete_targets(targets: Vec<NodeId>, neighbours: &Vec<NodeId>, count: u32) -> (r: Vec<
    NodeId,
>)
    ensures
        r@ == completed(targets@, neighbours@, count),
{
    let mut r = targets;
    let mut i: usize = 0;
    assert(neighbours@.skip(0) =~= neighbours@);
    while i < neighbours.len() && (r.len() as u64) < count as u64
        invariant
            0 <= i <= neighbours@.len(),
            completed(targets@, neighbours@, count) == completed(
                r@,
                neighbours@.skip(i as int),
                count,
            ),
        decreases neighbours@.len() - i,
    {
        assert(neighbours@.skip(i as int)[0] == neighbours@[i as int]);
        assert(neighbours@.skip(i as int).skip(1) =~= neighbours@.skip(i + 1));
        if !list_contains(&r, &neighbours[i]) {
            r.push(neighbours[i]);
        }
        i += 1;
    }
    r
}

impl Client {
    /// Not started yet.
    pub fn new() -> (r: Client)
        ensures
            r.bind_addr is None,
            r.neighbours is None,
            r.handles@.len() == 0,
    {
        Client { bind_addr: None, neighbours: None, handles: Vec::new() }
    }

    /// Address that the client listens on. Where it was told to listen on any, this is the one
    /// that was chosen.
    pub fn bind_addr(&self) -> (r: Result<SocketAddr, String>)
        ensures
            match self.bind_addr {
                Some(addr) => r == Ok::<SocketAddr, String>(addr),
                None => r matches Err(m) && m@ == "client not started"@,
            },
    {
        match self.bind_addr {
            Some(addr) => Ok(addr),
            None => Err(owned("client not started")),
        }
    }

    /// Takes note that the client listens. `connected` is what connecting to the relay server
    /// came to, where that is wanted. Failing to connect stops the client only where it was told
    /// to fail fast.
    pub fn spawn(
        &mut self,
        config: &ClientConfig,
        bind_addr: SocketAddr,
        connected: Result<(), SessionError>,
        ping_task: u64,
    ) -> (r: Result<(), SessionError>)
        ensures
            final(self).bind_addr == Some(bind_addr),
            final(self).neighbours == old(self).neighbours,
            match connected {
                Err(e) if config.auto_connect && config.auto_connect_fail_fast => r == Err::<
                    (),
                    SessionError,
                >(e) && final(self).handles@ == old(self).handles@,
                _ => r is Ok && final(self).handles@ == old(self).handles@.push(ping_task),
            },
    {
        self.bind_addr = Some(bind_addr);
        if config.auto_connect && config.auto_connect_fail_fast {
            match connected {
                Err(e) => {
                    return Err(e);
                },
                Ok(_) => {},
            }
        }
        self.handles.push(ping_task);
        Ok(())
    }

    /// Neighbours that need not be asked for, as many as wanted.
    pub fn neighbours(&self, count: u32, ttl: u64, now: i64) -> (r: Option<Vec<NodeId>>)
        ensures
            match r {
                Some(nodes) => fresh_neighbours(self.neighbours, count, ttl, now) && nodes@
                    == at_most(self.neighbours->Some_0.nodes@, count as nat),
                None => !fresh_neighbours(self.neighbours, count, ttl, now),
            },
    {
        match &self.neighbours {
            Some(n) => {
                if n.nodes.len() as u64 >= count as u64 && n.updated as i128 + ttl as i128
                    > now as i128 {
                    Some(first_ids(&n.nodes, count))
                } else {
                    None
                }
            },
            None => None,
        }
    }

    /// Takes over the neighbours that the relay server named, as far as their ids could be read.
    /// Returns as many of them as wanted, and which of those known before are not among them all.
    pub fn neighbours_received(
        &mut self,
        ids: &Vec<Option<NodeId>>,
        count: u32,
        now: i64,
    ) -> (r: (Vec<NodeId>, Vec<NodeId>))
        ensures
            r.0@ == at_most(readable_ids(ids@), count as nat),
            r.1@ == match old(self).neighbours {
                Some(before) => lost(before.nodes@, readable_ids(ids@)),
                None => Seq::empty(),
            },
            final(self).neighbours matches Some(n) && n.updated == now && n.nodes@
                == readable_ids(ids@),
            final(self).bind_addr == old(self).bind_addr,
            final(self).handles == old(self).handles,
    {
        let nodes = read_ids(ids);
        let gone = match &self.neighbours {
            Some(before) => lost_ids(&before.nodes, &nodes),
            None => Vec::new(),
        };
        let wanted = first_ids(&nodes, count);
        self.neighbours = Some(Neighbourhood { updated: now, nodes });
        (wanted, gone)
    }

    /// Forgets the neighbours, so that they are asked for again.
    pub fn invalidate_neighbourhood_cache(&mut self)
        ensures
            *final(self) == (Client { neighbours: None, ..*old(self) }),
    {
        self.neighbours = None;
    }

    /// Takes out the tasks to abort on shutdown.
    pub fn shutdown(&mut self) -> (r: Vec<u64>)
        ensures
            r@ == old(self).handles@,
            final(self).handles@.len() == 0,
            final(self).bind_addr == old(self).bind_addr,
            final(self).neighbours == old(self).neighbours,
    {
        let mut handles: Vec<u64> = Vec::new();
        std::mem::swap(&mut handles, &mut self.handles);
        handles
    }
}

fn first_ids(ids: &Vec<NodeId>, count: u32) -> (r: Vec<NodeId>)
    ensures
        r@ == at_most(ids@, count as nat),
{
    let mut r = copy_list(ids);
    if r.len() as u64 > count as u64 {
        r.truncate(count as usize);
    }
    assert(r@ =~= at_most(ids@, count as nat));
    r
}

fn read_ids(ids: &Vec<Option<NodeId>>) -> (r: Vec<NodeId>)
    ensures
        r@ == readable_ids(ids@),
{
    let mut r: Vec<NodeId> = Vec::new();
    let mut i: usize = 0;
    assert(ids@.take(0) =~= Seq::empty());
    while i < ids.len()
        invariant
            0 <= i <= ids@.len(),
            r@ == readable_ids(ids@.take(i as int)),
        decreases ids@.len() - i,
    {
        proof {
            let next = ids@.take(i + 1);
            assert(next.drop_last() =~= ids@.take(i as int));
            assert(next.last() == ids@[i as int]);
        }
        match ids[i] {
            Some(id) => {
                r.push(id);
            },
            None => {},
        }
        i += 1;
    }
    assert(ids@.take(i as int) =~= ids@);
    r
}

fn lost_ids(before: &Vec<NodeId>, now: &Vec<NodeId>) -> (r: Vec<NodeId>)
    ensures
        r@ == lost(before@, now@),
{
    let mut r: Vec<NodeId> = Vec::new();
    let mut i: usize = 0;
    assert(before@.take(0) =~= Seq::empty());
    while i < before.len()
        invariant
            0 <= i <= before@.len(),
            r@ == lost(before@.take(i as int), now@),
        decreases before@.len() - i,
    {
        proof {
            let next = before@.take(i + 1);
            assert(next.drop_last() =~= before@.take(i as int));
            assert(next.last() == before@[i as int]);
        }
        if !list_contains(now, &before[i]) && !list_contains(&r, &before[i]) {
            r.push(before[i]);
        }
        i += 1;
    }
    assert(before@.take(i as int) =~= before@);
    r
}

/// Whether to disconnect from a node that is no neighbour any more. Nodes that there is a session
/// with are left alone, and so are nodes that the relay server still knows.
pub fn neighbour_is_gone(p2p: bool, found: bool) -> (r: bool)
    ensures
        r == (!p2p && !found),
{
    !p2p && !found
}

/// Why neighbours could not be asked for.
pub fn neighbours_unavailable(e: &SessionError) -> (r: String)
    ensures
        r@ == "Error establishing session with relay: "@ + e.text(),
{
    let text = e.to_text();
    prefixed("Error establishing session with relay: ", text.as_str())
}

/// Nodes that a broadcast goes to, with the neighbours that were asked for.
pub fn broadcast_to_neighbours(
    targets: Vec<NodeId>,
    neighbours: Result<Vec<NodeId>, String>,
    count: u32,
) -> (r: Result<Vec<NodeId>, String>)
    ensures
        match neighbours {
            Ok(ids) => r matches Ok(all) && all@ == completed(targets@, ids@, count),
            Err(e) => r matches Err(text) && text@ == "Unable to query neighbors: "@ + e@,
        },
{
    match neighbours {
        Ok(ids) => Ok(complete_targets(targets, &ids, count)),
        Err(e) => Err(broadcast_failed(&e)),
    }
}

/// Why a broadcast could not be made.
pub fn broadcast_failed(e: &String) -> (r: String)
    ensures
        r@ == "Unable to query neighbors: "@ + e@,
{
    prefixed("Unable to query neighbors: ", e.as_str())
}

/// Sockets whose remote address is that of a node.
pub open spec fn sockets_of(addrs: Seq<Option<u128>>, address: u128) -> Seq<usize>
    decreases addrs.len(),
{
    if addrs.len() == 0 {
        Seq::empty()
    } else {
        let rest = sockets_of(addrs.drop_last(), address);
        if addrs.last() == Some(address) {
            rest.push((addrs.len() - 1) as usize)
        } else {
            rest
        }
    }
}

/// Positions of the sockets that belong to a node of the virtual network, whose measurements make
/// up those of the session with the node. The list holds the remote address of each socket, as
/// far as it has one. There is nothing for a node that is not in the virtual network.
pub fn session_metrics(tcp: &TcpLayer, node_id: NodeId, addrs: &Vec<Option<u128>>) -> (r: Option<
    Vec<usize>,
>)
    requires
        tcp@.wf(),
    ensures
        match r {
            Some(list) => tcp@.registry.find(node_id) is Some && list@ == sockets_of(
                addrs@,
                crate::tcp_registry::virtual_address(node_id),
            ),
            None => tcp@.registry.find(node_id) is None,
        },
{
    match tcp.registry.resolve_node(node_id) {
        Ok(_) => {
            let address = tcp.registry.resolve_ip(node_id);
            let mut r: Vec<usize> = Vec::new();
            let mut i: usize = 0;
            assert(addrs@.take(0) =~= Seq::empty());
            while i < addrs.len()
                invariant
                    0 <= i <= addrs@.len(),
                    r@ == sockets_of(addrs@.take(i as int), address),
                decreases addrs@.len() - i,
            {
                proof {
                    let next = addrs@.take(i + 1);
                    assert(next.drop_last() =~= addrs@.take(i as int));
                    assert(next.last() == addrs@[i as int]);
                }
                match addrs[i] {
                    Some(a) => {
                        if a == address {
                            r.push(i);
                        }
                    },
                    None => {},
                }
                i += 1;
            }
            assert(addrs@.take(i as int) =~= addrs@);
            Some(r)
        },
        Err(_) => None,
    }
}

proof fn lemma_distinct(ids: Seq<NodeId>)
    ensures
        distinct(ids).no_duplicates(),
        distinct(ids).len() <= ids.len(),
        forall|id: NodeId| #[trigger] distinct(ids).contains(id) <==> ids.contains(id),
    decreases ids.len(),
{
    if ids.len() > 0 {
        let rest = ids.drop_last();
        lemma_distinct(rest);
        assert(ids =~= rest.push(ids.last()));
        lemma_contains_push(rest, ids.last());
        lemma_contains_push(distinct(rest), ids.last());
    }
}

/// A broadcast never goes to more nodes than asked for, and never twice to one node.
pub proof fn lemma_broadcast_is_bounded(
    m: LayerModel,
    order: Seq<SessionHandle>,
    neighbours: Seq<NodeId>,
    count: u32,
)
    ensures
        picked(m, order, count).len() <= count,
        picked(m, order, count).no_duplicates(),
        completed(picked(m, order, count), neighbours, count).len() <= count,
        completed(picked(m, order, count), neighbours, count).no_duplicates(),
{
    lemma_distinct(at_most(owner_ids(m, order), count as nat));
    lemma_completed(picked(m, order, count), neighbours, count);
}

proof fn lemma_completed(targets: Seq<NodeId>, neighbours: Seq<NodeId>, count: u32)
    requires
        targets.no_duplicates(),
        targets.len() <= count,
    ensures
        completed(targets, neighbours, count).len() <= count,
        completed(targets, neighbours, count).no_duplicates(),
    decreases neighbours.len(),
{
    if neighbours.len() > 0 && targets.len() < count {
        if targets.contains(neighbours[0]) {
            lemma_completed(targets, neighbours.skip(1), count);
        } else {
            lemma_completed(targets.push(neighbours[0]), neighbours.skip(1), count);
        }
    }
}

/// There are never more neighbours than wanted, whether they were known before or asked for.
pub proof fn lemma_neighbours_are_bounded(
    known: Option<Neighbourhood>,
    answer: Seq<Option<NodeId>>,
    count: u32,
    ttl: u64,
    now: i64,
)
    ensures
        at_most(readable_ids(answer), count as nat).len() <= count,
        fresh_neighbours(known, count, ttl, now) ==> at_most(
            known->Some_0.nodes@,
            count as nat,
        ).len() == count,
{
}

/// A broadcast over sessions never goes to the relay server.
pub proof fn lemma_broadcast_spares_the_server(
    m: LayerModel,
    order: Seq<SessionHandle>,
    count: u32,
)
    ensures
        !picked(m, order, count).contains(NodeId::zero()),
{
    lemma_owners_are_nodes(m, order);
    lemma_distinct(at_most(owner_ids(m, order), count as nat));
    let few = at_most(owner_ids(m, order), count as nat);
    if few.contains(NodeId::zero()) {
        let i = choose|i: int| 0 <= i < few.len() && few[i] == NodeId::zero();
        assert(owner_ids(m, order)[i] == NodeId::zero());
    }
}

proof fn lemma_owners_are_nodes(m: LayerModel, sessions: Seq<SessionHandle>)
    ensures
        forall|i: int|
            0 <= i < owner_ids(m, sessions).len() ==> #[trigger] owner_ids(m, sessions)[i]
                != NodeId::zero(),
    decreases sessions.len(),
{
    if sessions.len() > 0 {
        let rest = owner_ids(m, sessions.drop_last());
        lemma_owners_are_nodes(m, sessions.drop_last());
        assert forall|i: int| 0 <= i < owner_ids(m, sessions).len() implies #[trigger] owner_ids(
            m,
            sessions,
        )[i] != NodeId::zero() by {
            if i < rest.len() {
                assert(rest[i] != NodeId::zero());
            }
        }
    }
}

/// A neighbour is lost exactly if it was one before and is none now.
pub proof fn lemma_lost_neighbours(before: Seq<NodeId>, now: Seq<NodeId>, id: NodeId)
    ensures
        lost(before, now).contains(id) <==> before.contains(id) && !now.contains(id),
    decreases before.len(),
{
    if before.len() > 0 {
        let rest = before.drop_last();
        lemma_lost_neighbours(rest, now, id);
        lemma_lost_neighbours(rest, now, before.last());
        assert(before =~= rest.push(before.last()));
        lemma_contains_push(rest, before.last());
        lemma_contains_push(lost(rest, now), before.last());
        assert(rest.push(before.last()).contains(id) <==> rest.contains(id) || id == before.last());
        assert(lost(rest, now).push(before.last()).contains(id) <==> lost(rest, now).contains(id)
            || id == before.last());
    }
}

} // verus!
