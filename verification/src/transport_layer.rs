//! Channels over which data for nodes is sent.
use vstd::prelude::*;
use vstd::string::*;

use crate::assoc::AssocMap;
use crate::error::owned;
use crate::model::{NodeId, NodeInfo, TransportType};
#[allow(unused_imports)]
use crate::model::default_of;
use crate::tcp_registry::{ChannelType, TcpSender};
use crate::routing_session::RoutingSender;

verus! {

/// A channel into which data for a node is put, by its number.
#[derive(Clone, Copy, Debug, PartialEq, Eq, Structural)]
pub struct ForwardSender {
    pub number: u64,
}

/// Channels over which data for nodes is sent. Every default and secondary id has its own entry.
pub struct TransportLayer {
    forward_unreliable: AssocMap<NodeId, ForwardSender>,
    forward_transfer: AssocMap<NodeId, ForwardSender>,
    forward_reliable: AssocMap<NodeId, ForwardSender>,
}

/// Mathematical content of a [`TransportLayer`].
#[verifier::ext_equal]
pub struct TransportModel {
    pub unreliable: Map<NodeId, ForwardSender>,
    pub transfer: Map<NodeId, ForwardSender>,
    pub reliable: Map<NodeId, ForwardSender>,
}

impl View for TransportLayer {
    type V = TransportModel;

    closed spec fn view(&self) -> TransportModel {
        TransportModel {
            unreliable: self.forward_unreliable@,
            transfer: self.forward_transfer@,
            reliable: self.forward_reliable@,
        }
    }
}

impl TransportModel {
    /// Channels for one kind of transport.
    pub open spec fn channels(self, transport: TransportType) -> Map<NodeId, ForwardSender> {
        match transport {
            TransportType::Unreliable => self.unreliable,
            TransportType::Transfer => self.transfer,
            TransportType::Reliable => self.reliable,
        }
    }

    /// Channel to a node.
    pub open spec fn channel(self, node_id: NodeId, transport: TransportType) -> Option<
        ForwardSender,
    > {
        if self.channels(transport).contains_key(node_id) {
            Some(self.channels(transport)[node_id])
        } else {
            None
        }
    }

    /// The same with one more channel.
    pub open spec fn with_channel(
        self,
        node_id: NodeId,
        transport: TransportType,
        tx: ForwardSender,
    ) -> TransportModel {
        match transport {
            TransportType::Unreliable => TransportModel {
                unreliable: self.unreliable.insert(node_id, tx),
                ..self
            },
            TransportType::Transfer => TransportModel {
                transfer: self.transfer.insert(node_id, tx),
                ..self
            },
            TransportType::Reliable => TransportModel {
                reliable: self.reliable.insert(node_id, tx),
                ..self
            },
        }
    }
}

/// Who gets a packet that came in.
#[derive(Clone, Copy, Debug, PartialEq, Eq, Structural)]
pub enum TransportRoute {
    /// Whoever uses the client.
    Ingress,
    /// The tcp stack, which alone can tell messages from transfers.
    Tcp,
}

/// Decides who gets a packet that came in.
pub fn dispatch(transport: TransportType) -> (r: TransportRoute)
    ensures
        r == match transport {
            TransportType::Unreliable => TransportRoute::Ingress,
            _ => TransportRoute::Tcp,
        },
{
    match transport {
        TransportType::Unreliable => TransportRoute::Ingress,
        TransportType::Reliable => TransportRoute::Tcp,
        TransportType::Transfer => TransportRoute::Tcp,
    }
}

/// What a request for a channel to a node hears of.
pub enum ForwardEvent {
    Begin,
    /// Information about the node, or why there is none.
    Info(Result<NodeInfo, String>),
    /// A connection was opened, or could not be. A new channel is ready to be put in place.
    Connected { connection: Result<TcpSender, String>, tx: ForwardSender },
    /// There is a way to the node, or there is none. A new channel is ready to be put in place.
    Routed { route: Result<RoutingSender, String>, tx: ForwardSender },
}

/// What a request for a channel to a node does next.
pub enum ForwardAction {
    /// The channel can be used.
    Finish(Result<ForwardSender, String>),
    /// The default id of the node has to be found out.
    QueryInfo,
    /// A connection has to be opened.
    Connect { node_id: NodeId, channel: ChannelType },
    /// A way to the node has to be found.
    Route,
    /// The new channel can be used, and what is put into it goes over the connection.
    SpawnReliable { tx: ForwardSender, connection: TcpSender },
    /// The new channel can be used, and what is put into it goes to the node.
    SpawnUnreliable { tx: ForwardSender, route: RoutingSender },
    /// The event does not belong to the request.
    Ignore,
}

/// What information about a node leads to in a request for a reliable channel.
pub open spec fn info_forwarded(
    m: TransportModel,
    node_id: NodeId,
    transport: TransportType,
    info: Result<NodeInfo, String>,
    after: TransportModel,
    r: ForwardAction,
) -> bool {
    match info {
        Err(e) => after == m && r == ForwardAction::Finish(Err::<ForwardSender, String>(e)),
        Ok(info) => {
            let default_id = default_of(info@.identities);
            match m.channel(default_id, transport) {
                Some(tx) => after == m.with_channel(node_id, transport, tx) && r
                    == ForwardAction::Finish(Ok::<ForwardSender, String>(tx)),
                None => after == m && match transport {
                    TransportType::Reliable => r == (ForwardAction::Connect {
                        node_id: default_id,
                        channel: ChannelType::Messages,
                    }),
                    TransportType::Transfer => r == (ForwardAction::Connect {
                        node_id: default_id,
                        channel: ChannelType::Transfer,
                    }),
                    TransportType::Unreliable => r matches ForwardAction::Finish(Err(text))
                        && text@
                        == "Programming error: `forward_generic` shouldn't been used for unreliable connection."@,
                },
            }
        },
    }
}

impl TransportLayer {
    /// Without channels.
    pub fn new() -> (r: TransportLayer)
        ensures
            r@ == (TransportModel {
                unreliable: Map::empty(),
                transfer: Map::empty(),
                reliable: Map::empty(),
            }),
    {
        TransportLayer {
            forward_unreliable: AssocMap::new(),
            forward_transfer: AssocMap::new(),
            forward_reliable: AssocMap::new(),
        }
    }

    /// Channel to a node, if there is one.
    pub fn forward_channel(&self, node_id: NodeId, transport: TransportType) -> (r: Option<
        ForwardSender,
    >)
        ensures
            r == self@.channel(node_id, transport),
    {
        let found = match transport {
            TransportType::Reliable => self.forward_reliable.get(&node_id),
            TransportType::Transfer => self.forward_transfer.get(&node_id),
            TransportType::Unreliable => self.forward_unreliable.get(&node_id),
        };
        match found {
            Some(tx) => Some(*tx),
            None => None,
        }
    }

    /// Puts a channel to a node in place.
    pub fn set_forward_channel(
        &mut self,
        node_id: NodeId,
        transport: TransportType,
        tx: ForwardSender,
    )
        ensures
            final(self)@ == old(self)@.with_channel(node_id, transport, tx),
    {
        match transport {
            TransportType::Reliable => {
                self.forward_reliable.insert(node_id, tx);
            },
            TransportType::Transfer => {
                self.forward_transfer.insert(node_id, tx);
            },
            TransportType::Unreliable => {
                self.forward_unreliable.insert(node_id, tx);
            },
        }
    }

    /// Takes the next step of a request for a reliable channel to a node, under its default id or
    /// any other. All ids of a node share a channel to its default id.
    pub fn forward_generic(
        &mut self,
        node_id: NodeId,
        transport: TransportType,
        event: ForwardEvent,
    ) -> (r: ForwardAction)
        ensures
            match event {
                ForwardEvent::Begin => final(self)@ == old(self)@ && match old(self)@.channel(
                    node_id,
                    transport,
                ) {
                    Some(tx) => r == ForwardAction::Finish(Ok::<ForwardSender, String>(tx)),
                    None => r is QueryInfo,
                },
                ForwardEvent::Info(info) => info_forwarded(
                    old(self)@,
                    node_id,
                    transport,
                    info,
                    final(self)@,
                    r,
                ),
                ForwardEvent::Connected { connection, tx } => match connection {
                    Ok(connection) => final(self)@ == old(self)@.with_channel(
                        node_id,
                        transport,
                        tx,
                    ) && r == (ForwardAction::SpawnReliable { tx, connection }),
                    Err(e) => final(self)@ == old(self)@ && r == ForwardAction::Finish(
                        Err::<ForwardSender, String>(e),
                    ),
                },
                ForwardEvent::Routed { .. } => final(self)@ == old(self)@ && r is Ignore,
            },
    {
        match event {
            ForwardEvent::Begin => match self.forward_channel(node_id, transport) {
                Some(tx) => ForwardAction::Finish(Ok(tx)),
                None => ForwardAction::QueryInfo,
            },
            ForwardEvent::Info(info) => {
                let info = match info {
                    Ok(info) => info,
                    Err(e) => {
                        return ForwardAction::Finish(Err(e));
                    },
                };
                let default_id = info.default_node_id();
                match self.forward_channel(default_id, transport) {
                    Some(tx) => {
                        self.set_forward_channel(node_id, transport, tx);
                        return ForwardAction::Finish(Ok(tx));
                    },
                    None => {},
                }
                let channel = match transport {
                    TransportType::Reliable => ChannelType::Messages,
                    TransportType::Transfer => ChannelType::Transfer,
                    TransportType::Unreliable => {
                        return ForwardAction::Finish(
                            Err(
                                owned(
                                    "Programming error: `forward_generic` shouldn't been used for unreliable connection.",
                                ),
                            ),
                        );
                    },
                };
                ForwardAction::Connect { node_id: default_id, channel }
            },
            ForwardEvent::Connected { connection, tx } => match connection {
                Ok(connection) => {
                    self.set_forward_channel(node_id, transport, tx);
                    ForwardAction::SpawnReliable { tx, connection }
                },
                Err(e) => ForwardAction::Finish(Err(e)),
            },
            ForwardEvent::Routed { .. } => ForwardAction::Ignore,
        }
    }

    /// Takes the next step of a request for an unreliable channel to a node. A channel that was
    /// put in place while the way to the node was looked for is used.
    pub fn forward_unreliable(&mut self, node_id: NodeId, event: ForwardEvent) -> (r: ForwardAction)
        ensures
            match event {
                ForwardEvent::Begin => final(self)@ == old(self)@ && match old(self)@.channel(
                    node_id,
                    TransportType::Unreliable,
                ) {
                    Some(tx) => r == ForwardAction::Finish(Ok::<ForwardSender, String>(tx)),
                    None => r is Route,
                },
                ForwardEvent::Routed { route, tx } => match route {
                    Err(e) => final(self)@ == old(self)@ && r == ForwardAction::Finish(
                        Err::<ForwardSender, String>(e),
                    ),
                    Ok(route) => match old(self)@.channel(node_id, TransportType::Unreliable) {
                        Some(existing) => final(self)@ == old(self)@ && r
                            == ForwardAction::Finish(Ok::<ForwardSender, String>(existing)),
                        None => final(self)@ == old(self)@.with_channel(
                            node_id,
                            TransportType::Unreliable,
                            tx,
                        ) && r == (ForwardAction::SpawnUnreliable { tx, route }),
                    },
                },
                _ => final(self)@ == old(self)@ && r is Ignore,
            },
    {
        match event {
            ForwardEvent::Begin => match self.forward_channel(
                node_id,
                TransportType::Unreliable,
            ) {
                Some(tx) => ForwardAction::Finish(Ok(tx)),
                None => ForwardAction::Route,
            },
            ForwardEvent::Routed { route, tx } => match route {
                Err(e) => ForwardAction::Finish(Err(e)),
                Ok(route) => match self.forward_channel(node_id, TransportType::Unreliable) {
                    Some(existing) => ForwardAction::Finish(Ok(existing)),
                    None => {
                        self.set_forward_channel(node_id, TransportType::Unreliable, tx);
                        ForwardAction::SpawnUnreliable { tx, route }
                    },
                },
            },
            _ => ForwardAction::Ignore,
        }
    }

    /// Takes out the unreliable channel to a node, which has to be closed.
    pub fn remove_node(&mut self, node_id: NodeId) -> (r: Option<ForwardSender>)
        ensures
            r == old(self)@.channel(node_id, TransportType::Unreliable),
            final(self)@ == (TransportModel {
                unreliable: old(self)@.unreliable.remove(node_id),
                ..old(self)@
            }),
    {
        self.forward_unreliable.remove(&node_id)
    }

    /// Takes out all channels, which have to be closed.
    pub fn shutdown(&mut self) -> (r: (
        Vec<(NodeId, ForwardSender)>,
        Vec<(NodeId, ForwardSender)>,
        Vec<(NodeId, ForwardSender)>,
    ))
        ensures
            crate::assoc::as_map(r.0@) == old(self)@.unreliable,
            crate::assoc::as_map(r.1@) == old(self)@.transfer,
            crate::assoc::as_map(r.2@) == old(self)@.reliable,
            crate::assoc::unique_keys(r.0@),
            crate::assoc::unique_keys(r.1@),
            crate::assoc::unique_keys(r.2@),
            final(self)@ == (TransportModel {
                unreliable: Map::empty(),
                transfer: Map::empty(),
                reliable: Map::empty(),
            }),
    {
        let unreliable = self.forward_unreliable.items();
        let transfer = self.forward_transfer.items();
        let reliable = self.forward_reliable.items();
        self.forward_unreliable.clear();
        self.forward_transfer.clear();
        self.forward_reliable.clear();
        (unreliable, transfer, reliable)
    }
}

/// Channels for different kinds of transport are kept apart, and a channel to one node changes no
/// other.
pub proof fn lemma_channels_are_kept_apart(
    m: TransportModel,
    node_id: NodeId,
    transport: TransportType,
    tx: ForwardSender,
    other: NodeId,
    kind: TransportType,
)
    ensures
        m.with_channel(node_id, transport, tx).channel(node_id, transport) == Some(tx),
        other != node_id || kind != transport ==> m.with_channel(node_id, transport, tx).channel(
            other,
            kind,
        ) == m.channel(other, kind),
{
}

/// Once there is a channel to the default id of a node, another id of the node gets the same one.
pub proof fn lemma_aliases_share_a_channel(
    m: TransportModel,
    alias: NodeId,
    transport: TransportType,
    info: NodeInfo,
    after: TransportModel,
    r: ForwardAction,
)
    requires
        m.channel(default_of(info@.identities), transport) is Some,
        info_forwarded(m, alias, transport, Ok(info), after, r),
    ensures
        after.channel(alias, transport) == m.channel(default_of(info@.identities), transport),
        after.channel(default_of(info@.identities), transport) == m.channel(
            default_of(info@.identities),
            transport,
        ),
{
}

} // verus!
