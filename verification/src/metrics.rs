//! Names and descriptions of the metrics, and what is counted for a packet.
use vstd::prelude::*;

use crate::model::{NodeId, TransportType};
use crate::session_layer::{Closed, ConnectionMethod};

verus! {

pub const SOURCE_ID: &'static str = "SourceId";

pub const TARGET_ID: &'static str = "TargetId";

pub const RELAY_ID: &'static str = "RelayId";

/// What a metric can do.
#[derive(Clone, Copy, Debug, PartialEq, Eq, Structural)]
pub enum MetricKind {
    /// Only grows.
    Counter,
    /// Holds the last value.
    Gauge,
}

/// What a metric counts.
#[derive(Clone, Copy, Debug, PartialEq, Eq, Structural)]
pub enum MetricUnit {
    Bytes,
    Count,
    Unitless,
}

/// A metric that is announced once, at the start.
#[derive(Clone, Copy, Debug)]
pub struct MetricName {
    pub kind: MetricKind,
    pub name: &'static str,
}

/// A description that is attached to a metric.
#[derive(Clone, Copy, Debug)]
pub struct MetricDescription {
    pub kind: MetricKind,
    pub name: &'static str,
    pub unit: MetricUnit,
    pub text: &'static str,
}

/// Metrics to announce, and their descriptions.
pub struct MetricCatalog {
    pub names: Vec<MetricName>,
    pub descriptions: Vec<MetricDescription>,
}

pub open spec fn metric_names() -> Seq<(MetricKind, Seq<char>)> {
    seq![
        (MetricKind::Counter, "ya-relay.packet.tcp.outgoing.size"@),
        (MetricKind::Counter, "ya-relay.packet.tcp.outgoing.num"@),
        (MetricKind::Counter, "ya-relay.packet.tcp.incoming.size"@),
        (MetricKind::Counter, "ya-relay.packet.tcp.incoming.num"@),
        (MetricKind::Counter, "ya-relay.packet.udp.outgoing.size"@),
        (MetricKind::Counter, "ya-relay.packet.udp.outgoing.num"@),
        (MetricKind::Counter, "ya-relay.packet.udp.incoming.size"@),
        (MetricKind::Counter, "ya-relay.packet.udp.incoming.num"@),
        (MetricKind::Gauge, "ya-relay.client.session.type"@),
        (MetricKind::Counter, "ya-relay.client.session.established"@),
        (MetricKind::Counter, "ya-relay.client.session.closed"@),
        (MetricKind::Gauge, "ya-relay.client.public-address"@),
    ]
}

pub open spec fn metric_descriptions() -> Seq<(MetricKind, Seq<char>, MetricUnit, Seq<char>)> {
    seq![
        (
            MetricKind::Counter,
            "ya-relay.packet.tcp.outgoing.size"@,
            MetricUnit::Bytes,
            "Size of outgoing tcp packets (including tcp headers and Forward packet size)"@,
        ),
        (
            MetricKind::Counter,
            "ya-relay.packet.tcp.outgoing.size"@,
            MetricUnit::Count,
            "Number of outgoing tcp packets"@,
        ),
        (
            MetricKind::Gauge,
            "ya-relay.client.session.type"@,
            MetricUnit::Unitless,
            "Type of established session with Node. Check `ConnectionMethod` for numbers meaning."@,
        ),
        (
            MetricKind::Counter,
            "ya-relay.client.session.closed"@,
            MetricUnit::Count,
            "Incremented when session (either p2p or relayed) is closed.Metric can be used to track stability of connection."@,
        ),
        (
            MetricKind::Counter,
            "ya-relay.client.session.established"@,
            MetricUnit::Count,
            "Incremented when session (either p2p or relayed) is established.Metric can be used to track stability of connection."@,
        ),
    ]
}

impl MetricName {
    pub open spec fn content(self) -> (MetricKind, Seq<char>) {
        (self.kind, self.name@)
    }
}

impl MetricDescription {
    pub open spec fn content(self) -> (MetricKind, Seq<char>, MetricUnit, Seq<char>) {
        (self.kind, self.name@, self.unit, self.text@)
    }
}

/// All metrics of the client, in the order in which they are announced.
pub fn register_metrics() -> (r: MetricCatalog)
    ensures
        r.names@.map_values(|n: MetricName| n.content()) == metric_names(),
        r.descriptions@.map_values(|d: MetricDescription| d.content()) == metric_descriptions(),
{
    let mut names: Vec<MetricName> = Vec::new();
    names.push(
        MetricName { kind: MetricKind::Counter, name: "ya-relay.packet.tcp.outgoing.size" },
    );
    names.push(
        MetricName { kind: MetricKind::Counter, name: "ya-relay.packet.tcp.outgoing.num" },
    );
    names.push(
        MetricName { kind: MetricKind::Counter, name: "ya-relay.packet.tcp.incoming.size" },
    );
    names.push(
        MetricName { kind: MetricKind::Counter, name: "ya-relay.packet.tcp.incoming.num" },
    );
    names.push(
        MetricName { kind: MetricKind::Counter, name: "ya-relay.packet.udp.outgoing.size" },
    );
    names.push(
        MetricName { kind: MetricKind::Counter, name: "ya-relay.packet.udp.outgoing.num" },
    );
    names.push(
        MetricName { kind: MetricKind::Counter, name: "ya-relay.packet.udp.incoming.size" },
    );
    names.push(
        MetricName { kind: MetricKind::Counter, name: "ya-relay.packet.udp.incoming.num" },
    );
    names.push(MetricName { kind: MetricKind::Gauge, name: "ya-relay.client.session.type" });
    names.push(
        MetricName { kind: MetricKind::Counter, name: "ya-relay.client.session.established" },
    );
    names.push(MetricName { kind: MetricKind::Counter, name: "ya-relay.client.session.closed" });
    names.push(MetricName { kind: MetricKind::Gauge, name: "ya-relay.client.public-address" });
    let mut descriptions: Vec<MetricDescription> = Vec::new();
    descriptions.push(
        MetricDescription {
            kind: MetricKind::Counter,
            name: "ya-relay.packet.tcp.outgoing.size",
            unit: MetricUnit::Bytes,
            text: "Size of outgoing tcp packets (including tcp headers and Forward packet size)",
        },
    );
    descriptions.push(
        MetricDescription {
            kind: MetricKind::Counter,
            name: "ya-relay.packet.tcp.outgoing.size",
            unit: MetricUnit::Count,
            text: "Number of outgoing tcp packets",
        },
    );
    descriptions.push(
        MetricDescription {
            kind: MetricKind::Gauge,
            name: "ya-relay.client.session.type",
            unit: MetricUnit::Unitless,
            text:
                "Type of established session with Node. Check `ConnectionMethod` for numbers meaning.",
        },
    );
    descriptions.push(
        MetricDescription {
            kind: MetricKind::Counter,
            name: "ya-relay.client.session.closed",
            unit: MetricUnit::Count,
            text:
                "Incremented when session (either p2p or relayed) is closed.Metric can be used to track stability of connection.",
        },
    );
    descriptions.push(
        MetricDescription {
            kind: MetricKind::Counter,
            name: "ya-relay.client.session.established",
            unit: MetricUnit::Count,
            text:
                "Incremented when session (either p2p or relayed) is established.Metric can be used to track stability of connection.",
        },
    );
    assert(names@.map_values(|n: MetricName| n.content()) =~= metric_names());
    assert(descriptions@.map_values(|d: MetricDescription| d.content())
        =~= metric_descriptions());
    MetricCatalog { names, descriptions }
}

/// A change of a counter, labelled with the node at the far end and with the relay.
#[derive(Clone, Copy, Debug)]
pub struct CounterUpdate {
    pub name: &'static str,
    pub value: u64,
    pub node_label: &'static str,
    pub node: NodeId,
    pub relay_label: &'static str,
    pub relay: NodeId,
}

impl CounterUpdate {
    pub open spec fn is(
        self,
        name: Seq<char>,
        value: u64,
        node_label: Seq<char>,
        node: NodeId,
        relay: NodeId,
    ) -> bool {
        &&& self.name@ == name
        &&& self.value == value
        &&& self.node_label@ == node_label
        &&& self.node == node
        &&& self.relay_label@ == "RelayId"@
        &&& self.relay == relay
    }
}

/// Counter of the size of packets that go out.
pub open spec fn outgoing_size_name(transport: TransportType) -> Seq<char> {
    match transport {
        TransportType::Unreliable => "ya-relay.packet.udp.outgoing.size"@,
        _ => "ya-relay.packet.tcp.outgoing.size"@,
    }
}

/// Counter of the number of packets that go out.
pub open spec fn outgoing_num_name(transport: TransportType) -> Seq<char> {
    match transport {
        TransportType::Unreliable => "ya-relay.packet.udp.outgoing.num"@,
        _ => "ya-relay.packet.tcp.outgoing.num"@,
    }
}

/// Counter of the size of packets that come in.
pub open spec fn incoming_size_name(transport: TransportType) -> Seq<char> {
    match transport {
        TransportType::Unreliable => "ya-relay.packet.udp.incoming.size"@,
        _ => "ya-relay.packet.tcp.incoming.size"@,
    }
}

/// Counter of the number of packets that come in.
pub open spec fn incoming_num_name(transport: TransportType) -> Seq<char> {
    match transport {
        TransportType::Unreliable => "ya-relay.packet.udp.incoming.num"@,
        _ => "ya-relay.packet.tcp.incoming.num"@,
    }
}

/// Counters that a packet of the given size towards a node changes.
pub fn count_outgoing(relay: NodeId, target: NodeId, transport: TransportType, size: u64) -> (r: (
    CounterUpdate,
    CounterUpdate,
))
    ensures
        r.0.is(outgoing_size_name(transport), size, "TargetId"@, target, relay),
        r.1.is(outgoing_num_name(transport), 1, "TargetId"@, target, relay),
{
    let (size_name, num_name) = match transport {
        TransportType::Unreliable => (
            "ya-relay.packet.udp.outgoing.size",
            "ya-relay.packet.udp.outgoing.num",
        ),
        _ => ("ya-relay.packet.tcp.outgoing.size", "ya-relay.packet.tcp.outgoing.num"),
    };
    (
        CounterUpdate {
            name: size_name,
            value: size,
            node_label: "TargetId",
            node: target,
            relay_label: "RelayId",
            relay,
        },
        CounterUpdate {
            name: num_name,
            value: 1,
            node_label: "TargetId",
            node: target,
            relay_label: "RelayId",
            relay,
        },
    )
}

/// Counters that a packet of the given size from a node changes.
pub fn count_incoming(relay: NodeId, source: NodeId, transport: TransportType, size: u64) -> (r: (
    CounterUpdate,
    CounterUpdate,
))
    ensures
        r.0.is(incoming_size_name(transport), size, "SourceId"@, source, relay),
        r.1.is(incoming_num_name(transport), 1, "SourceId"@, source, relay),
{
    let (size_name, num_name) = match transport {
        TransportType::Unreliable => (
            "ya-relay.packet.udp.incoming.size",
            "ya-relay.packet.udp.incoming.num",
        ),
        _ => ("ya-relay.packet.tcp.incoming.size", "ya-relay.packet.tcp.incoming.num"),
    };
    (
        CounterUpdate {
            name: size_name,
            value: size,
            node_label: "SourceId",
            node: source,
            relay_label: "RelayId",
            relay,
        },
        CounterUpdate {
            name: num_name,
            value: 1,
            node_label: "SourceId",
            node: source,
            relay_label: "RelayId",
            relay,
        },
    )
}

/// A new value of a gauge, labelled with a node.
#[derive(Clone, Copy, Debug)]
pub struct GaugeUpdate {
    pub name: &'static str,
    pub value: u16,
    pub label: &'static str,
    pub node: NodeId,
}

/// One more of what a counter counts, labelled with a node.
#[derive(Clone, Copy, Debug)]
pub struct CounterIncrement {
    pub name: &'static str,
    pub label: &'static str,
    pub node: NodeId,
}

/// What a new session changes: the way in which it was established shows, and it is counted.
pub fn metric_session_established(node_id: NodeId, method: ConnectionMethod) -> (r: (
    GaugeUpdate,
    CounterIncrement,
))
    ensures
        r.0.name@ == "ya-relay.client.session.type"@,
        r.0.value == method.number(),
        r.0.label@ == "TargetId"@,
        r.0.node == node_id,
        r.1.name@ == "ya-relay.client.session.established"@,
        r.1.label@ == "TargetId"@,
        r.1.node == node_id,
{
    (
        GaugeUpdate {
            name: "ya-relay.client.session.type",
            value: method.metric(),
            label: "TargetId",
            node: node_id,
        },
        CounterIncrement {
            name: "ya-relay.client.session.established",
            label: "TargetId",
            node: node_id,
        },
    )
}

/// What the end of a session changes: it is counted, and where there was a session the lack of one
/// shows.
pub fn metric_session_closed(closed: &Closed) -> (r: (Option<GaugeUpdate>, CounterIncrement))
    ensures
        match r.0 {
            Some(g) => closed.disconnect is Some && g.name@ == "ya-relay.client.session.type"@
                && g.value == 0 && g.label@ == "TargetId"@ && g.node == closed.target,
            None => closed.disconnect is None,
        },
        r.1.name@ == "ya-relay.client.session.closed"@,
        r.1.label@ == "TargetId"@,
        r.1.node == closed.target,
{
    let gauge = match closed.disconnect {
        Some(_) => Some(
            GaugeUpdate {
                name: "ya-relay.client.session.type",
                value: ConnectionMethod::no_connection(),
                label: "TargetId",
                node: closed.target,
            },
        ),
        None => None,
    };
    (
        gauge,
        CounterIncrement {
            name: "ya-relay.client.session.closed",
            label: "TargetId",
            node: closed.target,
        },
    )
}

} // verus!
