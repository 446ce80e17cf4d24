//! Start of the session layer, and refreshing the encryption of connections that are in use.
use vstd::prelude::*;
use vstd::string::*;

use crate::direct_session::NodeEntry;
#[allow(unused_imports)]
use crate::direct_session::{entry_ids, EntryModel, SessionModel};
use crate::encryption::SessionEncryption;
use crate::error::{owned, prefixed, SessionError};
use crate::model::{copy_list, NodeId, NodeInfo, SessionHandle, SocketAddr};
#[allow(unused_imports)]
use crate::model::{ids_of, NodeInfoView};
use crate::network_view::NodeSnapshot;
#[allow(unused_imports)]
use crate::session_control::{p2p, with_registry, with_session};
use crate::session_control::lemma_links_kept;
use crate::session_initializer::SessionInitializer;
#[allow(unused_imports)]
use crate::session_initializer::heavy_threads_for;
use crate::session_layer::SessionLayer;
#[allow(unused_imports)]
use crate::session_layer::LayerModel;

verus! {

/// Tasks that run in the background while the layer is in use.
#[derive(Clone, Copy, Debug, PartialEq, Eq, Structural)]
pub enum BackgroundTask {
    /// Receives packets.
    Dispatch,
    /// Closes sessions that went silent.
    TrackExpiration,
    /// Keeps the session with the relay server.
    KeepAlive,
}

/// Tasks to start for a configuration.
pub open spec fn tasks_for(auto_connect: bool, fail_fast: bool) -> Seq<BackgroundTask> {
    let always = seq![BackgroundTask::Dispatch, BackgroundTask::TrackExpiration];
    if auto_connect && !fail_fast {
        always.push(BackgroundTask::KeepAlive)
    } else {
        always
    }
}

/// Whether a routing is still what a refresh was started for: no later attempt to connect owns the
/// node, the routing is the same, and its session is still the one with its address.
pub open spec fn unchanged(
    m: LayerModel,
    node_id: NodeId,
    owner: NodeSnapshot,
    original: u64,
) -> bool {
    let routing = m.nodes[node_id];
    let remote = m.sessions[routing.route].raw.remote;
    &&& m.registry.is_current(owner)
    &&& m.nodes.contains_key(node_id)
    &&& routing.number == original
    &&& m.sessions.contains_key(routing.route)
    &&& m.p2p_sessions.contains_key(remote)
    &&& m.p2p_sessions[remote] == routing.route
}

/// What a refresh of the encryption of a connection starts from: the attempt to connect that the
/// routing of a node came from, where that attempt still owns the node and the session of the
/// routing is in use, and the number of the routing.
pub open spec fn refresh_of(m: LayerModel, node_id: NodeId) -> Option<(NodeSnapshot, u64)> {
    let routing = m.nodes[node_id];
    let remote = m.sessions[routing.route].raw.remote;
    let default_id = routing.node.default_id.node_id;
    let owner = NodeSnapshot {
        id: default_id,
        index: m.registry.by_node_id[default_id],
        generation: routing.generation,
    };
    if m.nodes.contains_key(node_id) && m.sessions.contains_key(routing.route)
        && m.p2p_sessions.contains_key(remote) && m.p2p_sessions[remote] == routing.route
        && m.registry.is_current(owner) {
        Some((owner, routing.number))
    } else {
        None
    }
}

/// A connection with new information about its node. A relay forwards packets on the new slot.
pub open spec fn encryption_refreshed(
    m: LayerModel,
    node_id: NodeId,
    owner: NodeSnapshot,
    info: NodeInfoView,
    encryption: SessionEncryption,
    now: i64,
) -> LayerModel {
    let routing = m.nodes[node_id];
    let session = m.sessions[routing.route];
    let entry = EntryModel { default_id: info.identities[0], identities: info.identities };
    let known = with_registry(m, m.registry.updated(info, now));
    let forwarded = if p2p(m, routing) {
        known
    } else {
        with_session(
            known,
            routing.route,
            SessionModel {
                forwards: session.forwards.added(entry_ids(entry), info.slot),
                ..session
            },
        )
    };
    forwarded.with_routing(
        entry,
        routing.route,
        encryption,
        info.authenticated_identities,
        owner.generation,
    )
}

impl SessionLayer {
    /// Tasks to start with the layer. The session with the relay server is kept only where it is
    /// wanted from the start, and where failing to get it is no reason to stop.
    pub fn background_tasks(&self) -> (r: Vec<BackgroundTask>)
        ensures
            r@ == tasks_for(self@.config.auto_connect, self@.config.auto_connect_fail_fast),
    {
        let mut r: Vec<BackgroundTask> = Vec::new();
        r.push(BackgroundTask::Dispatch);
        r.push(BackgroundTask::TrackExpiration);
        if self.config.auto_connect && !self.config.auto_connect_fail_fast {
            r.push(BackgroundTask::KeepAlive);
        }
        assert(r@ =~= tasks_for(self@.config.auto_connect, self@.config.auto_connect_fail_fast));
        r
    }

    /// Makes the layer ready: packets can be sent from an address, and handshakes can be held.
    pub fn spawned(&mut self, bind_addr: SocketAddr, tasks: Vec<u64>)
        requires
            old(self)@.wf(),
        ensures
            final(self)@.wf(),
            final(self)@ == (LayerModel {
                listening: true,
                bind_addr: Some(bind_addr),
                handles: old(self)@.handles + tasks@,
                protocol: final(self)@.protocol,
                ..old(self)@
            }),
            final(self)@.protocol matches Some(p) && p.is_idle() && exists|cpus: nat|
                cpus >= 1 && p.challenges == #[trigger] heavy_threads_for(cpus),
    {
        let mut tasks = tasks;
        self.listening = true;
        self.bind_addr = Some(bind_addr);
        self.handles.append(&mut tasks);
        self.init_protocol = Some(SessionInitializer::new());
        proof {
            lemma_links_kept(old(self)@, self@);
        }
    }

    fn may_refresh(&self, node_id: NodeId, owner: &NodeSnapshot, original: u64) -> (r: Option<(
        SessionHandle,
        bool,
    )>)
        requires
            self@.wf(),
        ensures
            match r {
                Some((route, direct)) => unchanged(self@, node_id, *owner, original) && route
                    == self@.nodes[node_id].route && direct == p2p(self@, self@.nodes[node_id]),
                None => !unchanged(self@, node_id, *owner, original),
            },
    {
        if !self.registry.is_current(owner) {
            return None;
        }
        match self.nodes.get(&node_id) {
            Some(routing) => {
                assert(self@.nodes[node_id] == (**routing)@);
                if routing.number != original {
                    return None;
                }
                match self.sessions.get(&routing.route) {
                    Some(session) => {
                        assert(self@.sessions[routing.route] == session@);
                        match self.find_session(session.raw.remote) {
                            Some(h) => {
                                if h == routing.route {
                                    Some(
                                        (
                                            h,
                                            routing.node.default_id.node_id
                                                == session.owner.default_id,
                                        ),
                                    )
                                } else {
                                    None
                                }
                            },
                            None => None,
                        }
                    },
                    None => None,
                }
            },
            None => None,
        }
    }

    /// Starts to refresh the encryption of a connection: gives the attempt to connect that owns the
    /// node and the number of its routing, as they are before information about the node is asked
    /// for. There is nothing to refresh where no connection of that attempt is in use.
    pub fn refresh_node_encryption(&self, node_id: NodeId) -> (r: Option<(NodeSnapshot, u64)>)
        requires
            self@.wf(),
        ensures
            r == refresh_of(self@, node_id),
            r matches Some((owner, original)) ==> unchanged(self@, node_id, owner, original),
    {
        let (default_id, route, number, generation) = match self.nodes.get(&node_id) {
            Some(routing) => {
                assert(self@.nodes[node_id] == (**routing)@);
                (
                    routing.node.default_id.node_id,
                    routing.route,
                    routing.number,
                    routing.generation,
                )
            },
            None => {
                return None;
            },
        };
        let in_use = match self.sessions.get(&route) {
            Some(session) => {
                assert(self@.sessions[route] == session@);
                match self.find_session(session.raw.remote) {
                    Some(h) => h == route,
                    None => false,
                }
            },
            None => false,
        };
        if !in_use {
            return None;
        }
        match self.registry.get_entry(default_id) {
            Some(node) => {
                let owner = NodeSnapshot { id: default_id, index: node.index, generation };
                if self.registry.is_current(&owner) {
                    Some((owner, number))
                } else {
                    None
                }
            },
            None => None,
        }
    }

    /// Takes over new information about a node that is connected already, with the encryption that
    /// goes with it. Nothing is taken over if the connection was replaced since it was asked for.
    pub fn publish_encryption_refresh(
        &mut self,
        node_id: NodeId,
        owner: &NodeSnapshot,
        original: u64,
        info: &NodeInfo,
        encryption: SessionEncryption,
        now: i64,
    ) -> (r: Result<u64, SessionError>)
        requires
            old(self)@.wf(),
            old(self)@.registry.nodes.len() < usize::MAX,
            old(self)@.next_number < u64::MAX,
        ensures
            final(self)@.wf(),
            ({
                let m = old(self)@;
                if !unchanged(m, node_id, *owner, original) {
                    final(self)@ == m && (r matches Err(SessionError::Unexpected(text)) && text@
                        == "Connection changed while its encryption was refreshed."@)
                } else if info@.identities.len() == 0 {
                    final(self)@ == m && (r matches Err(SessionError::Internal(text)) && text@
                        == "Identities list is empty"@)
                } else if !m.registry.consistent(ids_of(info@.identities)) {
                    final(self)@ == m && (r matches Err(SessionError::Internal(text)) && text@
                        == "NetworkView update failed: "@
                        + "Inconsistent `NetworkView` state. A few entries are pointing to the same Node."@)
                } else {
                    r == Ok::<u64, SessionError>(m.next_number) && final(self)@
                        == encryption_refreshed(m, node_id, *owner, info@, encryption, now)
                }
            }),
    {
        let ghost before = self@;
        let (route, direct) = match self.may_refresh(node_id, owner, original) {
            Some(found) => found,
            None => {
                return Err(
                    SessionError::Unexpected(
                        owned("Connection changed while its encryption was refreshed."),
                    ),
                );
            },
        };
        if info.identities.len() == 0 {
            return Err(SessionError::Internal(owned("Identities list is empty")));
        }
        match self.registry.update_entry(info, now) {
            Ok(_) => {},
            Err(e) => {
                assert(self@ =~= before);
                return Err(
                    SessionError::Internal(prefixed("NetworkView update failed: ", e.as_str())),
                );
            },
        }
        proof {
            lemma_links_kept(before, self@);
            assert(self@ =~= with_registry(before, before.registry.updated(info@, now)));
        }
        let entry = NodeEntry {
            default_id: info.identities[0],
            identities: copy_list(&info.identities),
        };
        let ghost model = EntryModel {
            default_id: info@.identities[0],
            identities: info@.identities,
        };
        assert(entry@ =~= model);
        if !direct {
            let ids = entry.to_node_ids();
            proof {
                assert(ids@.identities[0] == ids@.default_id);
            }
            self.register_forward(route, ids, info.slot);
        }
        match self.register_routing(
            entry,
            route,
            encryption,
            copy_list(&info.authenticated_identities),
            owner.generation,
        ) {
            Ok(number) => Ok(number),
            Err(e) => Err(SessionError::Unexpected(e)),
        }
    }
}

/// A refresh that was started before a later attempt to connect changes nothing.
pub proof fn lemma_stale_refresh_is_refused(
    m: LayerModel,
    node_id: NodeId,
    owner: NodeSnapshot,
    original: u64,
)
    requires
        m.registry.by_node_id.contains_key(owner.id) ==> m.registry.by_node_id[owner.id]
            != owner.index || m.registry.nodes[owner.index as int].generation != owner.generation,
    ensures
        !unchanged(m, node_id, owner, original),
{
}

/// Of two refreshes of one connection only the first to arrive is taken over.
pub proof fn lemma_second_refresh_is_refused(
    m: LayerModel,
    node_id: NodeId,
    owner: NodeSnapshot,
    original: u64,
    info: NodeInfoView,
    encryption: SessionEncryption,
    now: i64,
)
    requires
        m.wf(),
        m.next_number < u64::MAX,
        unchanged(m, node_id, owner, original),
        ids_of(info.identities).contains(node_id),
    ensures
        !unchanged(
            encryption_refreshed(m, node_id, owner, info, encryption, now),
            node_id,
            owner,
            original,
        ),
{
    assert(m.nodes[node_id].number < m.next_number);
}

} // verus!
