//! How packets get to nodes.
use vstd::prelude::*;
use vstd::string::*;

use crate::direct_session::{DirectSession, Forward, NodeEntry};
#[allow(unused_imports)]
use crate::direct_session::EntryModel;
use crate::encryption::{Encryption, SessionEncryption};
use crate::error::{owned, SessionError};
use crate::model::{Identity, NodeId, SessionHandle, TransportType};

verus! {

/// How packets get to a node: over a session with the node itself, or over one with a relay.
///
/// A node is always addressed by its default id. All its ids have the same routing.
pub struct NodeRouting {
    /// Tells routings apart.
    pub number: u64,
    pub node: NodeEntry<Identity>,
    /// Session that packets go over. It may have been closed since.
    pub route: SessionHandle,
    pub encryption: SessionEncryption,
    /// Ids that the node has proved to be its own.
    pub authenticated_identities: Vec<NodeId>,
    /// Number of the attempt to connect that the routing came from.
    pub generation: u64,
}

/// Mathematical content of a [`NodeRouting`].
#[verifier::ext_equal]
pub struct RoutingModel {
    pub number: u64,
    pub node: EntryModel<Identity>,
    pub route: SessionHandle,
    pub encryption: SessionEncryption,
    pub authenticated_identities: Seq<NodeId>,
    pub generation: u64,
}

impl View for NodeRouting {
    type V = RoutingModel;

    open spec fn view(&self) -> RoutingModel {
        RoutingModel {
            number: self.number,
            node: self.node@,
            route: self.route,
            encryption: self.encryption,
            authenticated_identities: self.authenticated_identities@,
            generation: self.generation,
        }
    }
}

/// What comes of sending a packet over a session that may have been closed.
pub open spec fn routed(
    routing: RoutingModel,
    route: Option<&DirectSession>,
    packet: Seq<u8>,
    transport: TransportType,
    r: Result<Forward, SessionError>,
) -> bool {
    let target = routing.node.default_id.node_id;
    match route {
        None => r matches Err(SessionError::Unexpected(m)) && m@
            == "Routing session closed unexpectedly."@,
        Some(direct) => if !routing.encryption.seals(packet.len()) {
            r matches Err(SessionError::Internal(m)) && m@ == "aead::Error"@
        } else {
            match direct.slot_for(target) {
                Some(slot) => r matches Ok(f) && f.session_id == direct.raw.id && f.slot == slot
                    && f.reliable == !(transport is Unreliable) && f.encrypted
                    == routing.encryption.active() && routing.encryption.opens(f.payload@) == Some(
                    packet,
                ),
                None => r matches Err(SessionError::Network(m)) && m@
                    == "Sending packet to p2p routing session: Internal error: Session with ["@
                    + direct.owner.default_id.text() + "] doesn't allow to forward packets for ["@
                    + target.text() + "]"@,
            }
        },
    }
}

impl NodeRouting {
    /// A way to a node over a session.
    pub fn new(
        number: u64,
        node: NodeEntry<Identity>,
        session: SessionHandle,
        encryption: SessionEncryption,
        authenticated_identities: Vec<NodeId>,
        generation: u64,
    ) -> (r: NodeRouting)
        ensures
            r == (NodeRouting {
                number,
                node,
                route: session,
                encryption,
                authenticated_identities,
                generation,
            }),
    {
        NodeRouting {
            number,
            node,
            route: session,
            encryption,
            authenticated_identities,
            generation,
        }
    }

    /// Packet that carries a payload to the node. `route` is the session of the routing, if it is
    /// still open.
    pub fn send(
        &self,
        route: Option<&DirectSession>,
        packet: Vec<u8>,
        transport: TransportType,
    ) -> (r: Result<Forward, SessionError>)
        ensures
            routed(self@, route, packet@, transport, r),
    {
        let direct = match route {
            Some(direct) => direct,
            None => {
                return Err(
                    SessionError::Unexpected(owned("Routing session closed unexpectedly.")),
                );
            },
        };
        let encrypted = match self.encryption.encrypt(packet) {
            Ok(encrypted) => encrypted,
            Err(e) => {
                return Err(SessionError::Internal(e.to_text()));
            },
        };
        match direct.send(
            self.node.default_id.node_id,
            encrypted,
            transport,
            self.encryption.encryption_flag(),
        ) {
            Ok(forward) => Ok(forward),
            Err(e) => {
                let mut m = owned("Sending packet to p2p routing session: ");
                let reason = e.to_text();
                m.append(reason.as_str());
                proof {
                    reveal_strlit("Sending packet to p2p routing session: ");
                    reveal_strlit("Internal error: ");
                    reveal_strlit("Session with [");
                    reveal_strlit(
                        "Sending packet to p2p routing session: Internal error: Session with [",
                    );
                    let target = self.node.default_id.node_id;
                    assert("Sending packet to p2p routing session: "@ + "Internal error: "@
                        + "Session with ["@
                        =~= "Sending packet to p2p routing session: Internal error: Session with ["@);
                    assert(m@
                        =~= "Sending packet to p2p routing session: Internal error: Session with ["@
                        + direct.owner.default_id.text()
                        + "] doesn't allow to forward packets for ["@ + target.text() + "]"@);
                }
                Err(SessionError::Network(m))
            },
        }
    }
}

/// The stable way for other layers to send to a node, while sessions and routings come and go.
#[derive(Clone, Copy, Debug, PartialEq, Eq, Structural)]
pub struct RoutingSender {
    /// Either a secondary or the default id of the node.
    pub target: NodeId,
    /// Number of the routing to use. It may be gone since.
    pub routing: Option<u64>,
}

impl RoutingSender {
    /// Without a routing. One will be looked for on demand.
    pub fn empty(target: NodeId) -> (r: RoutingSender)
        ensures
            r == (RoutingSender { target, routing: None }),
    {
        RoutingSender { target, routing: None }
    }

    /// With a routing that is known.
    pub fn from_node_routing(node: NodeId, target: &NodeRouting) -> (r: RoutingSender)
        ensures
            r == (RoutingSender { target: node, routing: Some(target.number) }),
    {
        RoutingSender { target: node, routing: Some(target.number) }
    }

    /// Id of the node to send to.
    pub fn target(&self) -> (r: NodeId)
        ensures
            r == self.target,
    {
        self.target
    }
}

} // verus!
