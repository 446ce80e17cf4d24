//! Tcp over the packets of sessions.
//!
//! To the tcp stack every node has an address in a virtual network. This layer translates between
//! ids of nodes and virtual addresses, and decides where packets go.
use vstd::prelude::*;
use vstd::string::*;

use crate::assoc::AssocMap;
use crate::error::{prefixed, SessionError, TcpError};
use crate::model::{NodeId, TransportType};
use crate::routing_session::RoutingSender;
use crate::session_events::Forwarded;
use crate::tcp_registry::{
    channel_endpoint, ChannelDesc, ChannelDirection, ChannelType, ConnectionHandle, TcpLock,
    TcpPermit, TcpRegistry, TcpSender,
};
#[allow(unused_imports)]
use crate::tcp_registry::{
    channel_on, tcp_allowed, virtual_address, TcpAwaiting, TcpModel, TcpState,
};
#[allow(unused_imports)]
use crate::text::{hex_fixed, push_hex_fixed};

verus! {

/// End of a connection, as the tcp stack reports it.
#[derive(Clone, Copy, Debug, PartialEq, Eq, Structural)]
pub enum SocketEndpoint {
    Ip { addr: u128, port: u16 },
    /// Anything that is no address with a port.
    Other,
}

/// What the tcp stack reports.
pub enum IngressEvent {
    InboundConnection,
    Disconnected,
    Packet { tcp: bool, remote: SocketEndpoint, local: SocketEndpoint, payload: Vec<u8> },
}

/// Name of a network: the first four bytes of the id of this node.
pub open spec fn network_name_of(id: NodeId) -> Seq<char> {
    hex_fixed((id.high / 0x1_0000_0000_0000_0000_0000_0000) as nat, 8)
}

/// Name of the virtual network of a node.
pub fn network_name(id: &NodeId) -> (r: String)
    ensures
        r@ == network_name_of(*id),
{
    let mut r = String::new();
    push_hex_fixed(&mut r, id.high / 0x1_0000_0000_0000_0000_0000_0000, 8);
    assert(r@ =~= network_name_of(*id));
    r
}

/// Tcp over the packets of sessions.
pub struct TcpLayer {
    pub registry: TcpRegistry,
    /// Nodes that need not be looked up any more.
    pub virtual_tcp_fast_lane: AssocMap<NodeId, ()>,
}

/// Mathematical content of a [`TcpLayer`].
#[verifier::ext_equal]
pub struct TcpLayerModel {
    pub registry: TcpModel,
    pub fast_lane: Map<NodeId, ()>,
}

impl View for TcpLayer {
    type V = TcpLayerModel;

    open spec fn view(&self) -> TcpLayerModel {
        TcpLayerModel { registry: self.registry@, fast_lane: self.virtual_tcp_fast_lane@ }
    }
}

impl TcpLayerModel {
    /// Nodes that need not be looked up are known.
    pub open spec fn wf(self) -> bool {
        &&& self.registry.wf()
        &&& forall|id: NodeId| #[trigger]
            self.fast_lane.contains_key(id) ==> self.registry.find(id) is Some
    }
}

/// Nodes that need not be looked up stay known, as long as no node is forgotten.
proof fn lemma_known_nodes_kept(before: TcpLayerModel, after: TcpLayerModel)
    requires
        before.wf(),
        after.fast_lane == before.fast_lane,
        forall|id: NodeId| #[trigger] before.registry.find(id) is Some ==> after.registry.find(id)
            is Some,
    ensures
        forall|id: NodeId| #[trigger]
            after.fast_lane.contains_key(id) ==> after.registry.find(id) is Some,
{
    assert forall|id: NodeId| #[trigger] after.fast_lane.contains_key(id) implies
        after.registry.find(id) is Some by {
        assert(before.fast_lane.contains_key(id));
        assert(before.registry.find(id) is Some);
    }
}

/// What a report of the tcp stack leads to: data of a known node is handed on.
pub open spec fn ingress_routed(
    m: TcpModel,
    event: IngressEvent,
    r: Option<Forwarded>,
) -> bool {
    match event {
        IngressEvent::Packet {
            tcp: true,
            remote: SocketEndpoint::Ip { addr, .. },
            local: SocketEndpoint::Ip { port, .. },
            payload,
        } => if m.nodes.contains_key(addr) {
            r matches Some(packet) && packet.node_id == m.virt[m.nodes[addr] as int].id
                && packet.payload@ == payload@ && packet.transport == match channel_on(port) {
                ChannelType::Messages => TransportType::Reliable,
                ChannelType::Transfer => TransportType::Transfer,
            }
        } else {
            r is None
        },
        _ => r is None,
    }
}

impl TcpLayer {
    /// Without nodes.
    pub fn new() -> (r: TcpLayer)
        ensures
            r@ == (TcpLayerModel {
                registry: TcpModel { virt: Seq::empty(), nodes: Map::empty(), ips: Map::empty() },
                fast_lane: Map::empty(),
            }),
            r@.wf(),
    {
        TcpLayer { registry: TcpRegistry::new(), virtual_tcp_fast_lane: AssocMap::new() }
    }

    /// Virtual endpoints that a node listens on: one for messages and one for transfers.
    pub fn listening_endpoints(our_id: &NodeId) -> (r: ((u128, u16), (u128, u16)))
        ensures
            r.0 == (virtual_address(*our_id), 1u16),
            r.1 == (virtual_address(*our_id), 2u16),
    {
        (
            channel_endpoint(our_id, ChannelType::Messages),
            channel_endpoint(our_id, ChannelType::Transfer),
        )
    }

    /// Closes what this node opened to another. Returns the virtual address to which all
    /// connections have to be closed before.
    pub fn remove_node(&mut self, node_id: NodeId) -> (r: u128)
        requires
            old(self)@.wf(),
        ensures
            final(self)@.wf(),
            r == virtual_address(node_id),
            final(self)@.fast_lane == old(self)@.fast_lane,
            final(self)@.registry.nodes == old(self)@.registry.nodes,
            final(self)@.registry.ips == old(self)@.registry.ips,
            final(self)@.registry == match old(self)@.registry.find(node_id) {
                Some(index) => crate::tcp_registry::channel_closed(
                    crate::tcp_registry::channel_closed(
                        old(self)@.registry,
                        index,
                        ChannelDesc(ChannelType::Messages, ChannelDirection::Out),
                    ),
                    index,
                    ChannelDesc(ChannelType::Transfer, ChannelDirection::Out),
                ),
                None => old(self)@.registry,
            },
    {
        let ip = self.registry.resolve_ip(node_id);
        self.registry.remove_node(node_id);
        proof {
            lemma_known_nodes_kept(old(self)@, self@);
        }
        ip
    }

    /// Asks for the right to open a channel to a node, or for the means to wait for it.
    pub fn connect(&mut self, node_id: NodeId, channel: ChannelType) -> (r: TcpLock)
        requires
            old(self)@.wf(),
            old(self)@.registry.virt.len() < usize::MAX,
        ensures
            final(self)@.wf(),
            final(self)@.fast_lane == old(self)@.fast_lane,
            ({
                let desc = ChannelDesc(channel, ChannelDirection::Out);
                let (entered, index) = old(self)@.registry.entered(node_id);
                if tcp_allowed(entered.virt[index as int].state(desc), TcpState::Connecting) {
                    final(self)@.registry == entered.with_state(index, desc, TcpState::Connecting)
                        && r == TcpLock::Permit(
                        TcpPermit { node: index, channel: desc, result: None },
                    )
                } else {
                    final(self)@.registry == entered && r == TcpLock::Wait(
                        TcpAwaiting { node: index, channel: desc },
                    )
                }
            }),
    {
        let r = self.registry.connect_attempt(
            node_id,
            ChannelDesc(channel, ChannelDirection::Out),
        );
        proof {
            lemma_known_nodes_kept(old(self)@, self@);
        }
        r
    }

    /// Outcome of opening a channel. A session with the node comes first, so that one that can't
    /// be reached is found out early.
    pub fn connect_internal(
        session: Result<(), SessionError>,
        connection: Result<ConnectionHandle, String>,
    ) -> (r: Result<ConnectionHandle, TcpError>)
        ensures
            match (session, connection) {
                (Err(e), _) => r matches Err(TcpError::Generic(text)) && text@ == e.text(),
                (Ok(_), Err(e)) => r matches Err(TcpError::Generic(text)) && text@
                    == "Establishing Tcp connection: "@ + e@,
                (Ok(_), Ok(conn)) => r == Ok::<ConnectionHandle, TcpError>(conn),
            },
    {
        match session {
            Err(e) => Err(TcpError::Generic(e.to_text())),
            Ok(_) => match connection {
                Err(e) => Err(
                    TcpError::Generic(prefixed("Establishing Tcp connection: ", e.as_str())),
                ),
                Ok(conn) => Ok(conn),
            },
        }
    }

    /// The means to send over a connection that was opened.
    pub fn sender(
        target: NodeId,
        channel: ChannelType,
        connection: Result<ConnectionHandle, TcpError>,
    ) -> (r: Result<TcpSender, TcpError>)
        ensures
            match connection {
                Ok(conn) => r == Ok::<TcpSender, TcpError>(
                    TcpSender {
                        target,
                        channel: ChannelDesc(channel, ChannelDirection::Out),
                        connection: conn,
                    },
                ),
                Err(e) => r == Err::<TcpSender, TcpError>(e),
            },
    {
        match connection {
            Ok(connection) => Ok(
                TcpSender {
                    target,
                    channel: ChannelDesc(channel, ChannelDirection::Out),
                    connection,
                },
            ),
            Err(e) => Err(e),
        }
    }

    /// Takes a packet of a node for the tcp stack, which gets what is returned. A node that is new
    /// is added first, and need not be looked up again.
    pub fn dispatch(&mut self, packet: Forwarded) -> (r: Vec<u8>)
        requires
            old(self)@.wf(),
            old(self)@.registry.virt.len() < usize::MAX,
        ensures
            final(self)@.wf(),
            r@ == packet.payload@,
            final(self)@ == if old(self)@.fast_lane.contains_key(packet.node_id) {
                old(self)@
            } else {
                TcpLayerModel {
                    registry: old(self)@.registry.entered(packet.node_id).0,
                    fast_lane: old(self)@.fast_lane.insert(packet.node_id, ()),
                }
            },
    {
        let node_id = packet.node_id;
        if self.virtual_tcp_fast_lane.contains_key(&node_id) {
            return packet.payload;
        }
        let r = self.receive(node_id, packet.payload);
        let ghost received = self@;
        self.virtual_tcp_fast_lane.insert(node_id, ());
        assert forall|id: NodeId| #[trigger]
            self@.fast_lane.contains_key(id) implies self@.registry.find(id) is Some by {
            if id != node_id {
                assert(received.fast_lane.contains_key(id));
            }
        }
        r
    }

    /// Takes a packet of a node for the tcp stack. A node that is new is added first.
    pub fn receive(&mut self, node: NodeId, payload: Vec<u8>) -> (r: Vec<u8>)
        requires
            old(self)@.wf(),
            old(self)@.registry.virt.len() < usize::MAX,
        ensures
            final(self)@.wf(),
            r == payload,
            final(self)@ == (TcpLayerModel {
                registry: old(self)@.registry.entered(node).0,
                ..old(self)@
            }),
            final(self)@.registry.find(node) is Some,
    {
        match self.registry.resolve_node(node) {
            Ok(_) => {},
            Err(_) => {
                self.registry.add_virt_node(node);
                proof {
                    lemma_known_nodes_kept(old(self)@, self@);
                }
            },
        }
        payload
    }

    /// Decides what becomes of a report of the tcp stack. Data is handed on under the id of the
    /// node whose virtual address it came from.
    pub fn ingress_router(&self, event: IngressEvent) -> (r: Option<Forwarded>)
        requires
            self@.wf(),
        ensures
            ingress_routed(self@.registry, event, r),
    {
        let (tcp, remote, local, payload) = match event {
            IngressEvent::InboundConnection => {
                return None;
            },
            IngressEvent::Disconnected => {
                return None;
            },
            IngressEvent::Packet { tcp, remote, local, payload } => (tcp, remote, local, payload),
        };
        if !tcp {
            return None;
        }
        let (remote_address, local_port) = match (remote, local) {
            (SocketEndpoint::Ip { addr, port: _ }, SocketEndpoint::Ip { addr: _, port }) => {
                (addr, port)
            },
            _ => {
                return None;
            },
        };
        match self.registry.get_by_address(remote_address) {
            Some(node_id) => {
                let transport = match ChannelType::from(local_port) {
                    ChannelType::Messages => TransportType::Reliable,
                    ChannelType::Transfer => TransportType::Transfer,
                };
                Some(Forwarded { transport, node_id, payload })
            },
            None => None,
        }
    }

    /// Whom a packet of the tcp stack for a virtual address goes to, by whatever session there is
    /// when it is sent. Tcp connections survive the loss of a session this way.
    pub fn egress_router(&self, remote: u128) -> (r: Option<RoutingSender>)
        requires
            self@.wf(),
        ensures
            r == if self@.registry.nodes.contains_key(remote) {
                Some(
                    RoutingSender {
                        target: self@.registry.virt[self@.registry.nodes[remote] as int].id,
                        routing: None,
                    },
                )
            } else {
                None
            },
    {
        match self.registry.get_by_address(remote) {
            Some(node_id) => Some(RoutingSender::empty(node_id)),
            None => None,
        }
    }
}

/// Once a packet of a node came in, packets of the tcp stack for its virtual address go to it, and
/// data from that address is handed on under its id. A node with the same address that came later
/// would take its place.
pub proof fn lemma_receiving_opens_the_way_back(m: TcpModel, id: NodeId)
    requires
        m.wf(),
        m.virt.len() < usize::MAX,
        !m.ips.contains_key(id),
    ensures
        ({
            let after = m.entered(id).0;
            &&& after.nodes.contains_key(virtual_address(id))
            &&& after.virt[after.nodes[virtual_address(id)] as int].id == id
        }),
{
}

/// A packet that comes from a virtual address goes to the same node as packets to that address.
pub proof fn lemma_both_directions_agree(m: TcpModel, addr: u128, event: IngressEvent, r: Forwarded)
    requires
        m.wf(),
        event matches IngressEvent::Packet { remote: SocketEndpoint::Ip { addr: a, .. }, .. } && a
            == addr,
        ingress_routed(m, event, Some(r)),
    ensures
        m.nodes.contains_key(addr),
        r.node_id == m.virt[m.nodes[addr] as int].id,
{
}

} // verus!
