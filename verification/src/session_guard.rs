//! Guards over sessions that are being initialized, so that a node is connected to only once.
use vstd::prelude::*;
use vstd::string::*;

use crate::assoc::AssocMap;
use crate::direct_session::RawSession;
use crate::error::owned;
use crate::model::{copy_list, NodeId, SessionId, SocketAddr};

verus! {

/// Why an attempt to connect failed, and whether another way may be tried.
#[derive(Debug)]
pub enum ConnectError {
    /// Communication with the node has to cease.
    Drop(String),
    /// Another way to the node can be tried.
    Retry(String),
}

impl ConnectError {
    /// Text of the error.
    pub open spec fn text(self) -> Seq<char> {
        match self {
            ConnectError::Drop(text) => text@,
            ConnectError::Retry(text) => text@,
        }
    }

    /// Text of the error.
    pub fn to_text(self) -> (r: String)
        ensures
            r@ == self.text(),
    {
        match self {
            ConnectError::Drop(text) => text,
            ConnectError::Retry(text) => text,
        }
    }
}

/// A node with which a session is being initialized.
pub struct SessionTarget {
    /// The lock that whoever initializes the session has to hold, by its number.
    pub lock: u64,
    pub addresses: Vec<SocketAddr>,
    /// Whether one attempt of the node to initialize a session is let through. It is when the
    /// node was asked to connect.
    pub wait_for_connection: bool,
}

/// Mathematical content of a [`SessionTarget`].
#[verifier::ext_equal]
pub struct TargetModel {
    pub lock: u64,
    pub addresses: Seq<SocketAddr>,
    pub wait_for_connection: bool,
}

impl View for SessionTarget {
    type V = TargetModel;

    open spec fn view(&self) -> TargetModel {
        TargetModel {
            lock: self.lock,
            addresses: self.addresses@,
            wait_for_connection: self.wait_for_connection,
        }
    }
}

/// Sessions that are being initialized.
pub struct GuardedSessions {
    by_node_id: AssocMap<NodeId, SessionTarget>,
    by_addr: AssocMap<SocketAddr, NodeId>,
    tmp_sessions: AssocMap<SocketAddr, RawSession>,
}

/// Mathematical content of [`GuardedSessions`].
#[verifier::ext_equal]
pub struct GuardModel {
    pub targets: Map<NodeId, TargetModel>,
    /// Which node is behind an address.
    pub by_addr: Map<SocketAddr, NodeId>,
    /// Sessions that exist only during initialization.
    pub tmp: Map<SocketAddr, RawSession>,
}

impl View for GuardedSessions {
    type V = GuardModel;

    closed spec fn view(&self) -> GuardModel {
        GuardModel {
            targets: self.by_node_id@.map_values(|t: SessionTarget| t@),
            by_addr: self.by_addr@,
            tmp: self.tmp_sessions@,
        }
    }
}

/// The first of the addresses that belongs to a node, as that node.
pub open spec fn first_known(known: Map<SocketAddr, NodeId>, addrs: Seq<SocketAddr>) -> Option<
    NodeId,
>
    decreases addrs.len(),
{
    if addrs.len() == 0 {
        None
    } else if known.contains_key(addrs[0]) {
        Some(known[addrs[0]])
    } else {
        first_known(known, addrs.skip(1))
    }
}

/// Text of the error when a node is waited for that nobody connects to.
pub open spec fn not_guarded(node_id: NodeId) -> Seq<char> {
    "Programming error. Waiting for node ["@ + node_id.text()
        + "] to connect, without calling `guard_initialization` earlier."@
}

impl GuardModel {
    /// Every address leads to a guarded node that has this address.
    pub open spec fn wf(self) -> bool {
        forall|addr: SocketAddr| #[trigger]
            self.by_addr.contains_key(addr) ==> self.targets.contains_key(self.by_addr[addr])
                && self.targets[self.by_addr[addr]].addresses.contains(addr)
    }

    /// The guarded node that has an id, or else one of the addresses.
    pub open spec fn found(self, node_id: NodeId, addrs: Seq<SocketAddr>) -> Option<NodeId> {
        if self.targets.contains_key(node_id) {
            Some(node_id)
        } else {
            first_known(self.by_addr, addrs)
        }
    }

    /// The same with one more guarded node.
    pub open spec fn guarding(self, node_id: NodeId, addrs: Seq<SocketAddr>, lock: u64) -> GuardModel {
        GuardModel {
            targets: self.targets.insert(
                node_id,
                TargetModel { lock, addresses: addrs, wait_for_connection: false },
            ),
            by_addr: crate::assoc::with_all(self.by_addr, addrs, node_id),
            tmp: self.tmp,
        }
    }

    /// The same without a guarded node, its addresses and its temporary sessions.
    pub open spec fn released(self, node_id: NodeId) -> GuardModel {
        if self.targets.contains_key(node_id) {
            let addrs = self.targets[node_id].addresses.to_set();
            GuardModel {
                targets: self.targets.remove(node_id),
                by_addr: self.by_addr.remove_keys(addrs),
                tmp: self.tmp.remove_keys(addrs),
            }
        } else {
            self
        }
    }

    /// The same with an incoming attempt of a node let through, or not any more.
    pub open spec fn waiting(self, node_id: NodeId, waits: bool) -> GuardModel {
        GuardModel {
            targets: self.targets.insert(
                node_id,
                TargetModel { wait_for_connection: waits, ..self.targets[node_id] },
            ),
            ..self
        }
    }
}

/// Whoever waits for a node hears of the messages about the lock with this number.
#[derive(Clone, Copy, Debug, PartialEq, Eq, Structural)]
pub struct NodeAwaiting {
    pub lock: u64,
}

impl NodeAwaiting {
    /// The outcome of a wait, given what came in before the notifications ended, if anything did.
    pub fn wait_for_connection(&self, received: Option<Result<RawSession, ConnectError>>) -> (r:
        Result<RawSession, ConnectError>)
        ensures
            match received {
                Some(result) => r == result,
                None => r matches Err(ConnectError::Drop(text)) && text@
                    == "Channel error while waiting for connection"@,
            },
    {
        match received {
            Some(result) => result,
            None => Err(
                ConnectError::Drop(owned("Channel error while waiting for connection")),
            ),
        }
    }
}

impl GuardedSessions {
    /// Without sessions.
    pub fn new() -> (r: GuardedSessions)
        ensures
            r@ == (GuardModel { targets: Map::empty(), by_addr: Map::empty(), tmp: Map::empty() }),
            r@.wf(),
    {
        let r = GuardedSessions {
            by_node_id: AssocMap::new(),
            by_addr: AssocMap::new(),
            tmp_sessions: AssocMap::new(),
        };
        assert(r@.targets =~= Map::empty());
        r
    }

    fn first_known(&self, addrs: &Vec<SocketAddr>) -> (r: Option<NodeId>)
        ensures
            r == first_known(self@.by_addr, addrs@),
    {
        let mut i: usize = 0;
        assert(addrs@.skip(0) =~= addrs@);
        while i < addrs.len()
            invariant
                0 <= i <= addrs@.len(),
                first_known(self@.by_addr, addrs@) == first_known(
                    self@.by_addr,
                    addrs@.skip(i as int),
                ),
            decreases addrs@.len() - i,
        {
            assert(addrs@.skip(i as int).skip(1) =~= addrs@.skip(i + 1));
            match self.by_addr.get(&addrs[i]) {
                Some(id) => {
                    return Some(*id);
                },
                None => {},
            }
            i += 1;
        }
        None
    }

    /// The lock that guards a node, found by its id or one of its addresses. Where the node is not
    /// guarded yet, it is from now on, by the new lock.
    pub fn guard_initialization(
        &mut self,
        node_id: NodeId,
        addrs: &Vec<SocketAddr>,
        lock: u64,
    ) -> (r: u64)
        requires
            old(self)@.wf(),
        ensures
            final(self)@.wf(),
            match old(self)@.found(node_id, addrs@) {
                Some(id) => r == old(self)@.targets[id].lock && final(self)@ == old(self)@,
                None => r == lock && final(self)@ == old(self)@.guarding(node_id, addrs@, lock),
            },
    {
        match self.by_node_id.get(&node_id) {
            Some(target) => {
                return target.lock;
            },
            None => {},
        }
        match self.first_known(addrs) {
            Some(id) => {
                proof {
                    lemma_first_known_is_known(self@.by_addr, addrs@);
                }
                match self.by_node_id.get(&id) {
                    Some(target) => {
                        return target.lock;
                    },
                    None => {},
                }
            },
            None => {},
        }
        proof {
            lemma_none_known(self@.by_addr, addrs@);
        }
        let target = SessionTarget {
            lock,
            addresses: copy_list(addrs),
            wait_for_connection: false,
        };
        self.by_addr.insert_all(addrs, node_id);
        self.by_node_id.insert(node_id, target);
        let ghost expected = old(self)@.guarding(node_id, addrs@, lock);
        assert(self@.targets =~= expected.targets);
        assert(self@ =~= expected);
        lock
    }

    /// Ends the guard over a node. Whoever waits for the lock that is returned has to be told how
    /// it ended.
    pub fn stop_guarding(&mut self, node_id: NodeId) -> (r: Option<u64>)
        requires
            old(self)@.wf(),
        ensures
            final(self)@.wf(),
            final(self)@ == old(self)@.released(node_id),
            r == if old(self)@.targets.contains_key(node_id) {
                Some(old(self)@.targets[node_id].lock)
            } else {
                None
            },
    {
        match self.by_node_id.remove(&node_id) {
            Some(target) => {
                self.by_addr.remove_all(&target.addresses);
                self.tmp_sessions.remove_all(&target.addresses);
                assert(self@.targets =~= old(self)@.released(node_id).targets);
                assert(self@ =~= old(self)@.released(node_id));
                Some(target.lock)
            },
            None => {
                assert(self@.targets =~= old(self)@.targets);
                None
            },
        }
    }

    /// Session that is used only during initialization. One is made for an address, under the
    /// fresh id, unless there is one already.
    pub fn temporary_session(&mut self, addr: SocketAddr, fresh: SessionId) -> (r: RawSession)
        requires
            old(self)@.wf(),
        ensures
            final(self)@.wf(),
            r == if old(self)@.tmp.contains_key(addr) {
                old(self)@.tmp[addr]
            } else {
                RawSession { id: fresh, remote: addr }
            },
            final(self)@ == (GuardModel { tmp: old(self)@.tmp.insert(addr, r), ..old(self)@ }),
    {
        match self.tmp_sessions.get(&addr) {
            Some(session) => {
                let session = *session;
                assert(self@.tmp =~= old(self)@.tmp.insert(addr, session));
                session
            },
            None => {
                let session = RawSession { id: fresh, remote: addr };
                self.tmp_sessions.insert(addr, session);
                session
            },
        }
    }

    /// Temporary session with an address, if there is one.
    pub fn get_temporary_session(&self, addr: &SocketAddr) -> (r: Option<RawSession>)
        ensures
            r == if self@.tmp.contains_key(*addr) {
                Some(self@.tmp[*addr])
            } else {
                None
            },
    {
        match self.tmp_sessions.get(addr) {
            Some(session) => Some(*session),
            None => None,
        }
    }

    fn set_waiting(&mut self, node_id: NodeId, waits: bool) -> (r: Option<(u64, bool)>)
        requires
            old(self)@.wf(),
        ensures
            final(self)@.wf(),
            match r {
                Some((lock, waited)) => old(self)@.targets.contains_key(node_id) && lock == old(
                    self,
                )@.targets[node_id].lock && waited == old(
                    self,
                )@.targets[node_id].wait_for_connection && final(self)@ == old(self)@.waiting(
                    node_id,
                    waits,
                ),
                None => !old(self)@.targets.contains_key(node_id) && final(self)@ == old(self)@,
            },
    {
        match self.by_node_id.remove(&node_id) {
            Some(target) => {
                let lock = target.lock;
                let waited = target.wait_for_connection;
                let target = SessionTarget {
                    lock,
                    addresses: target.addresses,
                    wait_for_connection: waits,
                };
                self.by_node_id.insert(node_id, target);
                assert(self@.targets =~= old(self)@.waiting(node_id, waits).targets);
                assert(self@ =~= old(self)@.waiting(node_id, waits));
                Some((lock, waited))
            },
            None => {
                assert(self@.targets =~= old(self)@.targets);
                None
            },
        }
    }

    /// Waits for a guarded node to connect: one of its attempts will be let through.
    pub fn register_waiting_for_node(&mut self, node_id: NodeId) -> (r: Result<
        NodeAwaiting,
        String,
    >)
        requires
            old(self)@.wf(),
        ensures
            final(self)@.wf(),
            match r {
                Ok(awaiting) => old(self)@.targets.contains_key(node_id) && awaiting.lock == old(
                    self,
                )@.targets[node_id].lock && final(self)@ == old(self)@.waiting(node_id, true),
                Err(text) => !old(self)@.targets.contains_key(node_id) && text@ == not_guarded(
                    node_id,
                ) && final(self)@ == old(self)@,
            },
    {
        match self.set_waiting(node_id, true) {
            Some((lock, _)) => Ok(NodeAwaiting { lock }),
            None => {
                let mut text = owned("Programming error. Waiting for node [");
                node_id.push_text(&mut text);
                text.append("] to connect, without calling `guard_initialization` earlier.");
                assert(text@ =~= not_guarded(node_id));
                Err(text)
            },
        }
    }

    /// Whether an attempt of a node to initialize a session is let through without the lock. The
    /// next one is not.
    pub fn try_access_unguarded(&mut self, node_id: NodeId) -> (r: bool)
        requires
            old(self)@.wf(),
        ensures
            final(self)@.wf(),
            r == (old(self)@.targets.contains_key(node_id) && old(
                self,
            )@.targets[node_id].wait_for_connection),
            final(self)@ == if old(self)@.targets.contains_key(node_id) {
                old(self)@.waiting(node_id, false)
            } else {
                old(self)@
            },
    {
        match self.set_waiting(node_id, false) {
            Some((_, waited)) => waited,
            None => false,
        }
    }

    /// Whoever waits for this lock has to be told that the first message of a node came.
    pub fn notify_first_message(&self, node_id: NodeId) -> (r: Option<u64>)
        ensures
            r == if self@.targets.contains_key(node_id) {
                Some(self@.targets[node_id].lock)
            } else {
                None
            },
    {
        match self.by_node_id.get(&node_id) {
            Some(target) => Some(target.lock),
            None => None,
        }
    }

    /// Takes out all temporary sessions.
    pub fn shutdown(&mut self)
        requires
            old(self)@.wf(),
        ensures
            final(self)@.wf(),
            final(self)@ == (GuardModel { tmp: Map::empty(), ..old(self)@ }),
    {
        self.tmp_sessions.clear();
    }
}

proof fn lemma_first_known_is_known(known: Map<SocketAddr, NodeId>, addrs: Seq<SocketAddr>)
    ensures
        first_known(known, addrs) matches Some(id) ==> exists|addr: SocketAddr| #[trigger]
            known.contains_key(addr) && known[addr] == id && addrs.contains(addr),
    decreases addrs.len(),
{
    if addrs.len() > 0 {
        if known.contains_key(addrs[0]) {
            assert(addrs.contains(addrs[0]));
        } else {
            let rest = addrs.skip(1);
            lemma_first_known_is_known(known, rest);
            if first_known(known, rest) is Some {
                let addr = choose|addr: SocketAddr| #[trigger]
                    known.contains_key(addr) && known[addr] == first_known(known, rest).unwrap()
                        && rest.contains(addr);
                let i = choose|i: int| 0 <= i < rest.len() && rest[i] == addr;
                assert(addrs[i + 1] == addr);
            }
        }
    }
}

proof fn lemma_none_known(known: Map<SocketAddr, NodeId>, addrs: Seq<SocketAddr>)
    ensures
        first_known(known, addrs) is None ==> forall|addr: SocketAddr| #[trigger]
            addrs.contains(addr) ==> !known.contains_key(addr),
    decreases addrs.len(),
{
    if addrs.len() > 0 && !known.contains_key(addrs[0]) {
        let rest = addrs.skip(1);
        lemma_none_known(known, rest);
        if first_known(known, rest) is None {
            assert forall|addr: SocketAddr| #[trigger] addrs.contains(addr) implies
                !known.contains_key(addr) by {
                let i = choose|i: int| 0 <= i < addrs.len() && addrs[i] == addr;
                if i > 0 {
                    assert(rest[i - 1] == addr);
                    assert(rest.contains(addr));
                }
            }
        }
    }
}

/// While a node is guarded, whoever asks for its guard gets the same lock, by its id and by each
/// of its addresses.
pub proof fn lemma_one_lock_per_node(
    m: GuardModel,
    node_id: NodeId,
    addrs: Seq<SocketAddr>,
    lock: u64,
    other: NodeId,
    addr: SocketAddr,
)
    requires
        m.wf(),
        m.found(node_id, addrs) is None,
        addrs.contains(addr),
        !m.targets.contains_key(other),
    ensures
        m.guarding(node_id, addrs, lock).found(node_id, Seq::empty()) == Some(node_id),
        m.guarding(node_id, addrs, lock).found(other, seq![addr]) == Some(node_id),
        m.guarding(node_id, addrs, lock).targets[node_id].lock == lock,
{
    let after = m.guarding(node_id, addrs, lock);
    assert(after.by_addr.contains_key(addr) && after.by_addr[addr] == node_id);
    assert(seq![addr][0] == addr);
}

/// Once a guard ended, neither the id nor an address of the node leads to it.
pub proof fn lemma_released_node_is_free(m: GuardModel, node_id: NodeId, addrs: Seq<SocketAddr>)
    requires
        m.wf(),
    ensures
        m.released(node_id).found(node_id, addrs) != Some(node_id),
{
    let after = m.released(node_id);
    lemma_first_known_is_known(after.by_addr, addrs);
    if after.found(node_id, addrs) == Some(node_id) {
        let addr = choose|addr: SocketAddr| #[trigger]
            after.by_addr.contains_key(addr) && after.by_addr[addr] == node_id && addrs.contains(
                addr,
            );
        assert(m.by_addr.contains_key(addr));
    }
}

/// After a wait for a node exactly one of its attempts is let through.
pub proof fn lemma_one_attempt_is_let_through(m: GuardModel, node_id: NodeId)
    requires
        m.targets.contains_key(node_id),
    ensures
        m.waiting(node_id, true).targets[node_id].wait_for_connection,
        !m.waiting(node_id, true).waiting(node_id, false).targets[node_id].wait_for_connection,
{
}

} // verus!
