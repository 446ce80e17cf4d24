//! Virtual tcp channels with other nodes.
use vstd::prelude::*;
use vstd::std_specs::convert::FromSpecImpl;
use vstd::string::*;

use crate::assoc::AssocMap;
use crate::error::{owned, prefixed, TcpError, TcpTransitionError};
use crate::model::{read_be, NodeId};
#[allow(unused_imports)]
use crate::model::{
    be_bytes, be_value, byte_range, lemma_be_bytes_of_value, lemma_be_len, lemma_be_value_first,
};
use crate::network_view::Waiting;
#[allow(unused_imports)]
use crate::text::{decimal, push_decimal};

verus! {

/// Which connection a channel carries.
#[derive(Clone, Copy, Debug, PartialEq, Eq, Hash, Structural)]
pub enum ChannelType {
    Messages,
    Transfer,
}

/// Which party opened a channel.
#[derive(Clone, Copy, Debug, PartialEq, Eq, Hash, Structural)]
pub enum ChannelDirection {
    Out,
    In,
}

/// One of the four channels with a node: messages and transfers each have a connection in
/// either direction.
#[derive(Clone, Copy, Debug, PartialEq, Eq, Hash, Structural)]
pub struct ChannelDesc(pub ChannelType, pub ChannelDirection);

/// A virtual tcp connection, by the number that the stack gave it.
#[derive(Clone, Copy, Debug, PartialEq, Eq, Hash, Structural)]
pub struct ConnectionHandle {
    pub number: u64,
}

/// State of a channel.
#[derive(Debug, PartialEq)]
pub enum TcpState {
    Connecting,
    Connected(ConnectionHandle),
    Failed(TcpError),
    Closing,
    Closed,
}

impl Clone for TcpState {
    fn clone(&self) -> (r: Self)
        ensures
            r == *self,
    {
        match self {
            TcpState::Connecting => TcpState::Connecting,
            TcpState::Connected(c) => TcpState::Connected(*c),
            TcpState::Failed(e) => TcpState::Failed(e.clone()),
            TcpState::Closing => TcpState::Closing,
            TcpState::Closed => TcpState::Closed,
        }
    }
}

pub open spec fn tcp_state_text(s: TcpState) -> Seq<char> {
    match s {
        TcpState::Connecting => "Connecting"@,
        TcpState::Connected(_) => "Connected"@,
        TcpState::Failed(e) => e.text(),
        TcpState::Closing => "Closing"@,
        TcpState::Closed => "Closed"@,
    }
}

impl TcpState {
    /// Name of the state, or the text of the error of a failed one.
    pub fn to_text(&self) -> (r: String)
        ensures
            r@ == tcp_state_text(*self),
    {
        match self {
            TcpState::Connecting => owned("Connecting"),
            TcpState::Connected(_) => owned("Connected"),
            TcpState::Failed(e) => e.to_text(),
            TcpState::Closing => owned("Closing"),
            TcpState::Closed => owned("Closed"),
        }
    }
}

impl ChannelType {
    pub open spec fn number(self) -> u16 {
        match self {
            ChannelType::Messages => 1,
            ChannelType::Transfer => 2,
        }
    }

    /// Port that the channel uses in the virtual network.
    pub fn port(&self) -> (r: u16)
        ensures
            r == self.number(),
    {
        match self {
            ChannelType::Messages => 1,
            ChannelType::Transfer => 2,
        }
    }
}

/// Channel that uses a port. Unknown ports count as those of messages.
pub open spec fn channel_on(port: u16) -> ChannelType {
    if port == 2 {
        ChannelType::Transfer
    } else {
        ChannelType::Messages
    }
}

impl From<u16> for ChannelType {
    fn from(port: u16) -> (r: Self) {
        if port == 2 {
            ChannelType::Transfer
        } else {
            ChannelType::Messages
        }
    }
}

impl FromSpecImpl<u16> for ChannelType {
    open spec fn obeys_from_spec() -> bool {
        true
    }

    open spec fn from_spec(port: u16) -> ChannelType {
        channel_on(port)
    }
}

impl From<(ChannelType, ChannelDirection)> for ChannelDesc {
    fn from(value: (ChannelType, ChannelDirection)) -> (r: Self) {
        ChannelDesc(value.0, value.1)
    }
}

impl FromSpecImpl<(ChannelType, ChannelDirection)> for ChannelDesc {
    open spec fn obeys_from_spec() -> bool {
        true
    }

    open spec fn from_spec(value: (ChannelType, ChannelDirection)) -> ChannelDesc {
        ChannelDesc(value.0, value.1)
    }
}

/// Position of a channel among the channels of a node.
pub open spec fn channel_index(channel: ChannelDesc) -> int {
    match channel {
        ChannelDesc(ChannelType::Transfer, ChannelDirection::In) => 0,
        ChannelDesc(ChannelType::Transfer, ChannelDirection::Out) => 1,
        ChannelDesc(ChannelType::Messages, ChannelDirection::In) => 2,
        ChannelDesc(ChannelType::Messages, ChannelDirection::Out) => 3,
    }
}

impl ChannelDesc {
    /// Position among the channels of a node.
    pub fn index(&self) -> (r: usize)
        ensures
            r == channel_index(*self),
            r < 4,
    {
        match self {
            ChannelDesc(ChannelType::Transfer, ChannelDirection::In) => 0,
            ChannelDesc(ChannelType::Transfer, ChannelDirection::Out) => 1,
            ChannelDesc(ChannelType::Messages, ChannelDirection::In) => 2,
            ChannelDesc(ChannelType::Messages, ChannelDirection::Out) => 3,
        }
    }

    /// Port that the channel uses in the virtual network.
    pub fn port(&self) -> (r: u16)
        ensures
            r == self.0.number(),
    {
        self.0.port()
    }
}

/// Different channels have different positions.
pub proof fn lemma_channels_have_own_positions(a: ChannelDesc, b: ChannelDesc)
    ensures
        0 <= channel_index(a) < 4,
        channel_index(a) == channel_index(b) <==> a == b,
{
}

/// A port leads back to its channel.
pub proof fn lemma_port_round_trip(channel: ChannelType)
    ensures
        channel_on(channel.number()) == channel,
{
}

/// Whether the state of a channel may change to another.
pub open spec fn tcp_allowed(prev: TcpState, next: TcpState) -> bool {
    match (prev, next) {
        (TcpState::Closed, TcpState::Connecting) => true,
        (TcpState::Failed(_), TcpState::Connecting) => true,
        (TcpState::Connecting, TcpState::Failed(_)) => true,
        (TcpState::Connecting, TcpState::Connected(_)) => true,
        (TcpState::Connected(_), TcpState::Closing) => true,
        (TcpState::Connected(_), TcpState::Closed) => true,
        _ => false,
    }
}

/// What an attempt to change the state of a channel leaves behind and returns.
pub open spec fn tcp_changed(
    before: TcpState,
    target: TcpState,
    after: TcpState,
    r: Result<(), TcpTransitionError>,
) -> bool {
    if tcp_allowed(before, target) {
        r is Ok && after == target
    } else {
        after == before && r == Err::<(), TcpTransitionError>(
            TcpTransitionError::InvalidTransition(before, target),
        )
    }
}

impl TcpState {
    /// Changes the state, where that is allowed.
    pub fn transition(&mut self, new_state: TcpState) -> (r: Result<(), TcpTransitionError>)
        ensures
            tcp_changed(*old(self), new_state, *final(self), r),
    {
        let allowed = match (&*self, &new_state) {
            (TcpState::Closed, TcpState::Connecting) => true,
            (TcpState::Failed(_), TcpState::Connecting) => true,
            (TcpState::Connecting, TcpState::Failed(_)) => true,
            (TcpState::Connecting, TcpState::Connected(_)) => true,
            (TcpState::Connected(_), TcpState::Closing) => true,
            (TcpState::Connected(_), TcpState::Closed) => true,
            _ => false,
        };
        if !allowed {
            return Err(TcpTransitionError::InvalidTransition(self.clone(), new_state));
        }
        *self = new_state;
        Ok(())
    }
}

/// The smallest multicast address.
pub const MULTICAST: u128 = 0xff00_0000_0000_0000_0000_0000_0000_0000;

/// Length of an address in the virtual network.
pub const IPV6_ADDRESS_LEN: usize = 16;

/// The first sixteen bytes of a list, with zeros in place of those that it does not have.
pub open spec fn padded(bytes: Seq<u8>) -> Seq<u8> {
    Seq::new(
        IPV6_ADDRESS_LEN as nat,
        |i: int|
            if i < bytes.len() {
                bytes[i]
            } else {
                0
            },
    )
}

/// Whether an address is the unspecified or the local one.
pub open spec fn unspecified_or_local(octets: Seq<u8>) -> bool {
    (forall|i: int| 0 <= i < 15 ==> #[trigger] octets[i] == 0) && octets[15] < 2
}

/// The octets of an address, moved away from multicast addresses, and from the unspecified and the
/// local one.
pub open spec fn unicast(octets: Seq<u8>) -> Seq<u8> {
    let first = if octets[0] == 0xff {
        octets.update(0, 0)
    } else {
        octets
    };
    if unspecified_or_local(first) {
        first.update(15, 2)
    } else {
        first
    }
}

/// The number that octets of an address in the virtual network stand for.
pub open spec fn address_of(bytes: Seq<u8>) -> u128 {
    be_value(unicast(padded(bytes))) as u128
}

/// Address of a node in the virtual network, as a number.
pub open spec fn virtual_address(id: NodeId) -> u128 {
    address_of(id.bytes())
}

proof fn lemma_unicast_range(octets: Seq<u8>)
    requires
        octets.len() == 16,
    ensures
        unicast(octets).len() == 16,
        2 <= be_value(unicast(octets)) < MULTICAST,
{
    let u = unicast(octets);
    lemma_be_value_first(u);
    reveal_with_fuel(byte_range, 17);
    assert(byte_range(15) == 0x1_0000_0000_0000_0000_0000_0000_0000_00);
    let c = byte_range(15);
    let a = u[0] + 1;
    assert(a <= 255);
    assert(a * c <= 255 * c) by (nonlinear_arith)
        requires
            a <= 255,
            0 <= c,
    ;
    if !unspecified_or_local(u) && u[15] < 2 {
        let i = choose|i: int| 0 <= i < 15 && #[trigger] u[i] != 0;
        let rest = u.drop_last();
        assert(rest[i] != 0);
        lemma_be_value_first(rest);
    }
}

/// Address that bytes of any length stand for in the virtual network, as a number: their first
/// sixteen, which are changed only where they would not make the address of a single other node.
pub fn to_ipv6(bytes: &[u8]) -> (r: u128)
    ensures
        r == address_of(bytes@),
        be_bytes(r as nat, 16) == unicast(padded(bytes@)),
        2 <= r < MULTICAST,
{
    let mut octets: Vec<u8> = Vec::new();
    let mut i: usize = 0;
    while i < IPV6_ADDRESS_LEN
        invariant
            i <= IPV6_ADDRESS_LEN,
            octets@.len() == i,
            forall|j: int| 0 <= j < i ==> #[trigger] octets@[j] == padded(bytes@)[j],
        decreases IPV6_ADDRESS_LEN - i,
    {
        if i < bytes.len() {
            octets.push(bytes[i]);
        } else {
            octets.push(0);
        }
        i += 1;
    }
    assert(octets@ =~= padded(bytes@));
    if octets[0] == 0xff {
        octets.set(0, 0);
    }
    let mut zeros: usize = 0;
    while zeros < 15 && octets[zeros] == 0
        invariant
            zeros <= 15,
            octets@.len() == 16,
            forall|j: int| 0 <= j < zeros ==> #[trigger] octets@[j] == 0,
        decreases 15 - zeros,
    {
        zeros += 1;
    }
    if zeros == 15 && octets[15] < 2 {
        octets.set(15, 2);
    }
    proof {
        assert(octets@ =~= unicast(padded(bytes@)));
        lemma_unicast_range(padded(bytes@));
        lemma_be_bytes_of_value(octets@);
        assert(octets@.subrange(0, 16) =~= octets@);
    }
    read_be(&octets, 0, IPV6_ADDRESS_LEN)
}

/// Address of a node in the virtual network.
fn node_address(id: &NodeId) -> (r: u128)
    ensures
        r == virtual_address(*id),
{
    let bytes = id.to_bytes();
    to_ipv6(bytes.as_slice())
}

/// Endpoint of a channel of a node in the virtual network.
pub fn channel_endpoint(id: &NodeId, channel: ChannelType) -> (r: (u128, u16))
    ensures
        r == (virtual_address(*id), channel.number()),
{
    (node_address(id), channel.port())
}

/// No bytes make a multicast address, the unspecified or the local one.
pub proof fn lemma_virtual_address_is_usable(bytes: Seq<u8>)
    ensures
        2 <= address_of(bytes) < MULTICAST,
        be_bytes(address_of(bytes) as nat, 16)[0] != 0xff,
{
    lemma_unicast_range(padded(bytes));
    lemma_be_bytes_of_value(unicast(padded(bytes)));
}

/// An address that can be used already is kept. Bytes after the sixteenth do not matter.
pub proof fn lemma_usable_address_is_kept(bytes: Seq<u8>)
    requires
        padded(bytes)[0] != 0xff,
        !unspecified_or_local(padded(bytes)),
    ensures
        be_bytes(address_of(bytes) as nat, 16) == padded(bytes),
{
    lemma_unicast_range(padded(bytes));
    lemma_be_bytes_of_value(unicast(padded(bytes)));
}

/// The address of a node is made of the first sixteen bytes of its id.
pub proof fn lemma_node_address(id: NodeId)
    ensures
        padded(id.bytes()) == be_bytes(id.high as nat, 16),
{
    lemma_be_len(id.high as nat, 16);
    lemma_be_len(id.low as nat, 4);
    assert(padded(id.bytes()) =~= be_bytes(id.high as nat, 16));
}

/// One of the channels with a node.
pub struct VirtChannel {
    pub channel: ChannelDesc,
    pub state: TcpState,
}

impl VirtChannel {
    /// A channel that is closed.
    pub fn new(desc: ChannelDesc) -> (r: VirtChannel)
        ensures
            r == (VirtChannel { channel: desc, state: TcpState::Closed }),
    {
        VirtChannel { channel: desc, state: TcpState::Closed }
    }
}

/// A node in the virtual network.
pub struct VirtNode {
    pub id: NodeId,
    pub address: u128,
    pub channels: Vec<VirtChannel>,
}

/// Mathematical content of a [`VirtNode`].
#[verifier::ext_equal]
pub struct VirtModel {
    pub id: NodeId,
    pub address: u128,
    pub channels: Seq<VirtChannel>,
}

impl View for VirtNode {
    type V = VirtModel;

    open spec fn view(&self) -> VirtModel {
        VirtModel { id: self.id, address: self.address, channels: self.channels@ }
    }
}

impl VirtModel {
    /// Each channel is at its own position.
    pub open spec fn wf(self) -> bool {
        &&& self.channels.len() == 4
        &&& forall|i: int|
            0 <= i < 4 ==> channel_index((#[trigger] self.channels[i]).channel) == i
    }

    pub open spec fn state(self, channel: ChannelDesc) -> TcpState {
        self.channels[channel_index(channel)].state
    }

    pub open spec fn with_state(self, channel: ChannelDesc, state: TcpState) -> VirtModel {
        VirtModel {
            channels: self.channels.update(channel_index(channel), VirtChannel { channel, state }),
            ..self
        }
    }

    /// A node whose channels are all closed.
    pub open spec fn fresh(id: NodeId) -> VirtModel {
        VirtModel {
            id,
            address: virtual_address(id),
            channels: seq![
                VirtChannel {
                    channel: ChannelDesc(ChannelType::Transfer, ChannelDirection::In),
                    state: TcpState::Closed,
                },
                VirtChannel {
                    channel: ChannelDesc(ChannelType::Transfer, ChannelDirection::Out),
                    state: TcpState::Closed,
                },
                VirtChannel {
                    channel: ChannelDesc(ChannelType::Messages, ChannelDirection::In),
                    state: TcpState::Closed,
                },
                VirtChannel {
                    channel: ChannelDesc(ChannelType::Messages, ChannelDirection::Out),
                    state: TcpState::Closed,
                },
            ],
        }
    }
}

impl VirtNode {
    /// A node whose channels are all closed.
    pub fn new(id: NodeId) -> (r: VirtNode)
        ensures
            r@ == VirtModel::fresh(id),
            r@.wf(),
    {
        let mut channels: Vec<VirtChannel> = Vec::new();
        channels.push(VirtChannel::new(ChannelDesc(ChannelType::Transfer, ChannelDirection::In)));
        channels.push(VirtChannel::new(ChannelDesc(ChannelType::Transfer, ChannelDirection::Out)));
        channels.push(VirtChannel::new(ChannelDesc(ChannelType::Messages, ChannelDirection::In)));
        channels.push(VirtChannel::new(ChannelDesc(ChannelType::Messages, ChannelDirection::Out)));
        let r = VirtNode { id, address: node_address(&id), channels };
        assert(r@ =~= VirtModel::fresh(id));
        r
    }

    /// Id of the node.
    pub fn id(&self) -> (r: NodeId)
        ensures
            r == self@.id,
    {
        self.id
    }

    /// State of a channel.
    pub fn state(&self, channel: ChannelDesc) -> (r: TcpState)
        requires
            self@.wf(),
        ensures
            r == self@.state(channel),
    {
        self.channels[channel.index()].state.clone()
    }

    /// Changes the state of a channel, where that is allowed.
    pub fn transition(&mut self, channel: ChannelDesc, new_state: TcpState) -> (r: Result<
        (),
        TcpTransitionError,
    >)
        requires
            old(self)@.wf(),
        ensures
            final(self)@.wf(),
            final(self)@ == old(self)@.with_state(channel, final(self)@.state(channel)),
            tcp_changed(old(self)@.state(channel), new_state, final(self)@.state(channel), r),
    {
        let ghost before = self@;
        let i = channel.index();
        let r = self.channels[i].state.transition(new_state);
        proof {
            lemma_channels_have_own_positions(channel, before.channels[i as int].channel);
            assert(self@ =~= before.with_state(channel, self@.state(channel)));
        }
        r
    }
}

/// Nodes in the virtual network.
pub struct TcpRegistry {
    virt: Vec<VirtNode>,
    nodes: AssocMap<u128, usize>,
    ips: AssocMap<NodeId, u128>,
}

/// Mathematical content of a [`TcpRegistry`].
#[verifier::ext_equal]
pub struct TcpModel {
    /// All nodes that were ever added. Nodes that were replaced stay, but nothing leads to them.
    pub virt: Seq<VirtModel>,
    pub nodes: Map<u128, usize>,
    pub ips: Map<NodeId, u128>,
}

impl View for TcpRegistry {
    type V = TcpModel;

    closed spec fn view(&self) -> TcpModel {
        TcpModel {
            virt: self.virt@.map_values(|n: VirtNode| n@),
            nodes: self.nodes@,
            ips: self.ips@,
        }
    }
}

impl TcpModel {
    /// Ids lead to their virtual addresses, and those to nodes with them.
    pub open spec fn wf(self) -> bool {
        &&& forall|i: int| 0 <= i < self.virt.len() ==> (#[trigger] self.virt[i]).wf()
        &&& forall|a: u128|
            self.nodes.contains_key(a) ==> (#[trigger] self.nodes[a]) < self.virt.len()
                && self.virt[self.nodes[a] as int].address == a
        &&& forall|id: NodeId|
            self.ips.contains_key(id) ==> (#[trigger] self.ips[id]) == virtual_address(id)
                && self.nodes.contains_key(self.ips[id])
    }

    /// Node that an id leads to.
    pub open spec fn find(self, id: NodeId) -> Option<usize> {
        if self.ips.contains_key(id) && self.nodes.contains_key(self.ips[id]) {
            Some(self.nodes[self.ips[id]])
        } else {
            None
        }
    }

    /// A new node is added, in place of one with the same address.
    pub open spec fn with_new(self, id: NodeId) -> TcpModel {
        TcpModel {
            virt: self.virt.push(VirtModel::fresh(id)),
            nodes: self.nodes.insert(virtual_address(id), self.virt.len() as usize),
            ips: self.ips.insert(id, virtual_address(id)),
        }
    }

    /// The registry with an entry for a node, and where it is.
    pub open spec fn entered(self, id: NodeId) -> (TcpModel, usize) {
        match self.find(id) {
            Some(index) => (self, index),
            None => (self.with_new(id), self.virt.len() as usize),
        }
    }

    pub open spec fn with_state(
        self,
        index: usize,
        channel: ChannelDesc,
        state: TcpState,
    ) -> TcpModel {
        TcpModel {
            virt: self.virt.update(index as int, self.virt[index as int].with_state(channel, state)),
            ..self
        }
    }
}

/// The exclusive right to open a channel.
pub struct TcpPermit {
    pub node: usize,
    pub channel: ChannelDesc,
    pub result: Option<Result<ConnectionHandle, TcpError>>,
}

/// The means to wait for a channel that someone else opens.
#[derive(Clone, Copy, Debug, PartialEq, Eq, Structural)]
pub struct TcpAwaiting {
    pub node: usize,
    pub channel: ChannelDesc,
}

/// Either the exclusive right to open a channel, or the means to wait for it.
pub enum TcpLock {
    Permit(TcpPermit),
    Wait(TcpAwaiting),
}

impl TcpPermit {
    /// Remembers the outcome, and hands it on.
    pub fn finish(&mut self, result: Result<ConnectionHandle, TcpError>) -> (r: Result<
        ConnectionHandle,
        TcpError,
    >)
        ensures
            r == result,
            *final(self) == (TcpPermit { result: Some(result), ..*old(self) }),
    {
        let copy = match &result {
            Ok(conn) => Ok(*conn),
            Err(e) => Err(e.clone()),
        };
        self.result = Some(copy);
        result
    }
}

/// What giving a permit back leaves behind, and what those who wait are told.
pub open spec fn permit_dropped(
    m: TcpModel,
    permit: TcpPermit,
    after: TcpModel,
    r: Result<ConnectionHandle, TcpError>,
) -> bool {
    let state = m.virt[permit.node as int].state(permit.channel);
    match permit.result {
        Some(Ok(conn)) => if tcp_allowed(state, TcpState::Connected(conn)) {
            after == m.with_state(permit.node, permit.channel, TcpState::Connected(conn)) && r
                == Ok::<ConnectionHandle, TcpError>(conn)
        } else {
            after == m && (r matches Err(TcpError::Generic(text)) && text@
                == TcpTransitionError::InvalidTransition(state, TcpState::Connected(conn)).text())
        },
        Some(Err(e)) => {
            &&& r == Err::<ConnectionHandle, TcpError>(e)
            &&& after == if tcp_allowed(state, TcpState::Failed(e)) {
                m.with_state(permit.node, permit.channel, TcpState::Failed(e))
            } else {
                m
            }
        },
        None => after == m && (r matches Err(TcpError::Generic(text)) && text@
            == "Dropping `TcpPermit` without result."@),
    }
}

/// The channel of a node is closed, where that is allowed.
pub open spec fn channel_closed(m: TcpModel, index: usize, channel: ChannelDesc) -> TcpModel {
    if tcp_allowed(m.virt[index as int].state(channel), TcpState::Closed) {
        m.with_state(index, channel, TcpState::Closed)
    } else {
        m
    }
}

impl TcpRegistry {
    /// Without nodes.
    pub fn new() -> (r: TcpRegistry)
        ensures
            r@ == (TcpModel { virt: Seq::empty(), nodes: Map::empty(), ips: Map::empty() }),
            r@.wf(),
    {
        let r = TcpRegistry { virt: Vec::new(), nodes: AssocMap::new(), ips: AssocMap::new() };
        assert(r@.virt =~= Seq::empty());
        r
    }

    fn find(&self, node: NodeId) -> (r: Option<usize>)
        requires
            self@.wf(),
        ensures
            r == self@.find(node),
            r matches Some(i) ==> i < self@.virt.len(),
    {
        match self.ips.get(&node) {
            Some(ip) => match self.nodes.get(ip) {
                Some(i) => {
                    assert(self@.nodes[self@.ips[node]] < self@.virt.len());
                    Some(*i)
                },
                None => None,
            },
            None => None,
        }
    }

    /// Where the node of an id is in the virtual network.
    pub fn resolve_node(&self, node: NodeId) -> (r: Result<usize, String>)
        requires
            self@.wf(),
        ensures
            match r {
                Ok(index) => self@.find(node) == Some(index),
                Err(m) => self@.find(node) is None && m@ == "Virtual node for id ["@ + node.text()
                    + "] not found."@,
            },
    {
        match self.find(node) {
            Some(index) => Ok(index),
            None => {
                let mut m = owned("Virtual node for id [");
                node.push_text(&mut m);
                m.append("] not found.");
                Err(m)
            },
        }
    }

    /// Virtual address of a node, whether it was added or not.
    pub fn resolve_ip(&self, node: NodeId) -> (r: u128)
        ensures
            r == virtual_address(node),
    {
        node_address(&node)
    }

    /// Id of the node with a virtual address.
    pub fn get_by_address(&self, addr: u128) -> (r: Option<NodeId>)
        requires
            self@.wf(),
        ensures
            r == if self@.nodes.contains_key(addr) {
                Some(self@.virt[self@.nodes[addr] as int].id)
            } else {
                None
            },
    {
        match self.nodes.get(&addr) {
            Some(i) => {
                assert(self@.nodes[addr] < self@.virt.len());
                Some(self.virt[*i].id)
            },
            None => None,
        }
    }

    /// Adds a node, in place of one with the same virtual address.
    pub fn add_virt_node(&mut self, node_id: NodeId) -> (r: usize)
        requires
            old(self)@.wf(),
            old(self)@.virt.len() < usize::MAX,
        ensures
            final(self)@.wf(),
            final(self)@ == old(self)@.with_new(node_id),
            r == old(self)@.virt.len(),
    {
        let ghost before = self@;
        let index = self.virt.len();
        let node = VirtNode::new(node_id);
        let ip = node.address;
        self.virt.push(node);
        self.nodes.insert(ip, index);
        self.ips.insert(node_id, ip);
        assert(self@.virt =~= before.virt.push(VirtModel::fresh(node_id)));
        proof {
            let after = self@;
            assert forall|i: int| 0 <= i < after.virt.len() implies (
            #[trigger] after.virt[i]).wf() by {
                if i < before.virt.len() {
                    assert(before.virt[i].wf());
                }
            }
            assert forall|a: u128| after.nodes.contains_key(a) implies (#[trigger] after.nodes[a])
                < after.virt.len() && after.virt[after.nodes[a] as int].address == a by {
                if a != ip {
                    assert(before.nodes[a] < before.virt.len());
                }
            }
            assert forall|id: NodeId| after.ips.contains_key(id) implies (#[trigger] after.ips[id])
                == virtual_address(id) && after.nodes.contains_key(after.ips[id]) by {
                if id != node_id {
                    assert(before.ips[id] == virtual_address(id));
                }
            }
        }
        index
    }

    fn transition(&mut self, index: usize, channel: ChannelDesc, new_state: TcpState) -> (r: Result<
        (),
        TcpTransitionError,
    >)
        requires
            old(self)@.wf(),
            index < old(self)@.virt.len(),
        ensures
            final(self)@.wf(),
            final(self)@ == old(self)@.with_state(
                index,
                channel,
                final(self)@.virt[index as int].state(channel),
            ),
            tcp_changed(
                old(self)@.virt[index as int].state(channel),
                new_state,
                final(self)@.virt[index as int].state(channel),
                r,
            ),
    {
        let ghost before = self@;
        assert(before.virt[index as int].wf());
        let r = self.virt[index].transition(channel, new_state);
        proof {
            let after = self@;
            assert(after.virt =~= before.virt.update(
                index as int,
                before.virt[index as int].with_state(
                    channel,
                    after.virt[index as int].state(channel),
                ),
            ));
            assert forall|i: int| 0 <= i < after.virt.len() implies (
            #[trigger] after.virt[i]).wf() by {
                if i != index {
                    assert(before.virt[i].wf());
                }
            }
            assert forall|a: u128| after.nodes.contains_key(a) implies (#[trigger] after.nodes[a])
                < after.virt.len() && after.virt[after.nodes[a] as int].address == a by {
                assert(before.nodes[a] < before.virt.len());
            }
            assert forall|id: NodeId| after.ips.contains_key(id) implies (#[trigger] after.ips[id])
                == virtual_address(id) && after.nodes.contains_key(after.ips[id]) by {
                assert(before.ips[id] == virtual_address(id));
            }
        }
        r
    }

    /// Asks for the right to open a channel to a node, which is added if it is not known.
    pub fn connect_attempt(&mut self, node: NodeId, channel: ChannelDesc) -> (r: TcpLock)
        requires
            old(self)@.wf(),
            old(self)@.virt.len() < usize::MAX,
        ensures
            final(self)@.wf(),
            ({
                let (entered, index) = old(self)@.entered(node);
                if tcp_allowed(
                    entered.virt[index as int].state(channel),
                    TcpState::Connecting,
                ) {
                    final(self)@ == entered.with_state(index, channel, TcpState::Connecting) && r
                        == TcpLock::Permit(TcpPermit { node: index, channel, result: None })
                } else {
                    final(self)@ == entered && r == TcpLock::Wait(
                        TcpAwaiting { node: index, channel },
                    )
                }
            }),
    {
        let index = match self.find(node) {
            Some(index) => index,
            None => self.add_virt_node(node),
        };
        let ghost entered = self@;
        match self.transition(index, channel, TcpState::Connecting) {
            Ok(_) => TcpLock::Permit(TcpPermit { node: index, channel, result: None }),
            Err(_) => {
                proof {
                    lemma_same_state(entered, index, channel);
                }
                TcpLock::Wait(TcpAwaiting { node: index, channel })
            },
        }
    }

    /// Gives a permit back. Returns what those who wait for the channel are told.
    pub fn async_drop(&mut self, permit: TcpPermit) -> (r: Result<ConnectionHandle, TcpError>)
        requires
            old(self)@.wf(),
            permit.node < old(self)@.virt.len(),
        ensures
            final(self)@.wf(),
            permit_dropped(old(self)@, permit, final(self)@, r),
    {
        let ghost before = self@;
        proof {
            lemma_same_state(before, permit.node, permit.channel);
        }
        match permit.result {
            Some(Ok(conn)) => match self.transition(
                permit.node,
                permit.channel,
                TcpState::Connected(conn),
            ) {
                Ok(_) => Ok(conn),
                Err(e) => Err(TcpError::Generic(e.to_text())),
            },
            Some(Err(e)) => {
                let _ = self.transition(permit.node, permit.channel, TcpState::Failed(e.clone()));
                Err(e)
            },
            None => Err(TcpError::Generic(owned("Dropping `TcpPermit` without result."))),
        }
    }

    /// Closes the channels that this node opened to another.
    pub fn remove_node(&mut self, node_id: NodeId)
        requires
            old(self)@.wf(),
        ensures
            final(self)@.wf(),
            final(self)@ == match old(self)@.find(node_id) {
                Some(index) => channel_closed(
                    channel_closed(
                        old(self)@,
                        index,
                        ChannelDesc(ChannelType::Messages, ChannelDirection::Out),
                    ),
                    index,
                    ChannelDesc(ChannelType::Transfer, ChannelDirection::Out),
                ),
                None => old(self)@,
            },
    {
        match self.find(node_id) {
            Some(index) => {
                self.close_channel(
                    index,
                    ChannelDesc(ChannelType::Messages, ChannelDirection::Out),
                );
                self.close_channel(
                    index,
                    ChannelDesc(ChannelType::Transfer, ChannelDirection::Out),
                );
            },
            None => {},
        }
    }

    fn close_channel(&mut self, index: usize, channel: ChannelDesc)
        requires
            old(self)@.wf(),
            index < old(self)@.virt.len(),
        ensures
            final(self)@.wf(),
            final(self)@ == channel_closed(old(self)@, index, channel),
            final(self)@.virt.len() == old(self)@.virt.len(),
    {
        let ghost before = self@;
        proof {
            lemma_same_state(before, index, channel);
        }
        let _ = self.transition(index, channel, TcpState::Closed);
    }

    /// State of a channel.
    pub fn state(&self, index: usize, channel: ChannelDesc) -> (r: TcpState)
        requires
            self@.wf(),
            index < self@.virt.len(),
        ensures
            r == self@.virt[index as int].state(channel),
    {
        assert(self@.virt[index as int].wf());
        self.virt[index].state(channel)
    }
}

proof fn lemma_same_state(m: TcpModel, index: usize, channel: ChannelDesc)
    requires
        m.wf(),
        index < m.virt.len(),
    ensures
        m.with_state(index, channel, m.virt[index as int].state(channel)) == m,
{
    let node = m.virt[index as int];
    assert(node.wf());
    lemma_channels_have_own_positions(channel, node.channels[channel_index(channel)].channel);
    assert(node.with_state(channel, node.state(channel)) =~= node);
    assert(m.with_state(index, channel, node.state(channel)) =~= m);
}

/// What someone who waits for a channel hears of.
pub enum TcpNotice {
    Result(Result<ConnectionHandle, TcpError>),
    /// Nobody will announce the outcome any more.
    Dropped,
    /// Outcomes came faster than they were read.
    Lagged(u64),
}

impl TcpAwaiting {
    /// Whether the state of the channel ends the wait for it already.
    pub fn await_for_finish(state: TcpState) -> (r: Waiting<Result<ConnectionHandle, TcpError>>)
        ensures
            match state {
                TcpState::Connected(conn) => r == Waiting::Over(
                    Ok::<ConnectionHandle, TcpError>(conn),
                ),
                TcpState::Closed => r == Waiting::Over(
                    Err::<ConnectionHandle, TcpError>(TcpError::Closed),
                ),
                TcpState::Failed(e) => r matches Waiting::Over(Err(TcpError::Generic(text)))
                    && text@ == e.text(),
                _ => r is Pending,
            },
    {
        match state {
            TcpState::Connected(conn) => Waiting::Over(Ok(conn)),
            TcpState::Closed => Waiting::Over(Err(TcpError::Closed)),
            TcpState::Failed(e) => Waiting::Over(Err(TcpError::Generic(e.to_text()))),
            _ => Waiting::Pending,
        }
    }

    /// What a notice means to someone who waits for the channel.
    pub fn notified(notice: TcpNotice) -> (r: Result<ConnectionHandle, TcpError>)
        ensures
            match notice {
                TcpNotice::Result(result) => r == result,
                TcpNotice::Dropped => r matches Err(TcpError::Generic(text)) && text@
                    == "Waiting for tcp connection initialization: notifier dropped."@,
                TcpNotice::Lagged(lost) => r matches Err(TcpError::Generic(text)) && text@
                    == "Waiting for tcp connection initialization: notifier lagged. Lost "@
                    + decimal(lost as nat) + " state change(s)."@,
            },
    {
        match notice {
            TcpNotice::Result(result) => result,
            TcpNotice::Dropped => Err(
                TcpError::Generic(
                    owned("Waiting for tcp connection initialization: notifier dropped."),
                ),
            ),
            TcpNotice::Lagged(lost) => {
                let mut m = owned(
                    "Waiting for tcp connection initialization: notifier lagged. Lost ",
                );
                push_decimal(&mut m, lost as u128);
                m.append(" state change(s).");
                Err(TcpError::Generic(m))
            },
        }
    }
}

/// The stable way to send to a node reliably. A connection that was closed is opened again.
#[derive(Clone, Copy, Debug, PartialEq, Eq, Structural)]
pub struct TcpSender {
    pub target: NodeId,
    pub channel: ChannelDesc,
    pub connection: ConnectionHandle,
}

/// Whether the connection of a sender is still open. Only the state of its channel keeps it.
pub open spec fn alive(m: TcpModel, sender: TcpSender) -> bool {
    m.find(sender.target) matches Some(index) && m.virt[index as int].state(sender.channel)
        == TcpState::Connected(sender.connection)
}

impl TcpSender {
    /// Connection to send over, if it is still open. Otherwise it has to be opened again.
    pub fn send(&self, registry: &TcpRegistry) -> (r: Option<ConnectionHandle>)
        requires
            registry@.wf(),
        ensures
            r == if alive(registry@, *self) {
                Some(self.connection)
            } else {
                None
            },
    {
        match registry.find(self.target) {
            Some(index) => match registry.state(index, self.channel) {
                TcpState::Connected(conn) => {
                    if conn == self.connection {
                        Some(conn)
                    } else {
                        None
                    }
                },
                _ => None,
            },
            None => None,
        }
    }

    /// Takes over a connection that was opened again, and gives it for sending.
    pub fn reconnected(&mut self, registry: &TcpRegistry, result: Result<TcpSender, String>) -> (r:
        Result<ConnectionHandle, TcpError>)
        requires
            registry@.wf(),
        ensures
            match result {
                Err(e) => *final(self) == *old(self) && (r matches Err(TcpError::Generic(text))
                    && text@ == "Establishing connection failed: "@ + e@),
                Ok(sender) => if alive(registry@, sender) {
                    r == Ok::<ConnectionHandle, TcpError>(sender.connection) && *final(self) == (
                    TcpSender { connection: sender.connection, ..*old(self) })
                } else {
                    *final(self) == *old(self) && (r matches Err(TcpError::Generic(text)) && text@
                        == "Tcp connection closed unexpectedly."@)
                },
            },
    {
        match result {
            Err(e) => Err(
                TcpError::Generic(prefixed("Establishing connection failed: ", e.as_str())),
            ),
            Ok(sender) => match sender.send(registry) {
                Some(conn) => {
                    self.connection = conn;
                    Ok(conn)
                },
                None => Err(TcpError::Generic(owned("Tcp connection closed unexpectedly."))),
            },
        }
    }
}

/// While one party opens a channel, nobody else gets the right to do so.
pub proof fn lemma_one_permit_per_channel(m: TcpModel, index: usize, channel: ChannelDesc)
    requires
        m.wf(),
        index < m.virt.len(),
    ensures
        !tcp_allowed(
            m.with_state(index, channel, TcpState::Connecting).virt[index as int].state(channel),
            TcpState::Connecting,
        ),
{
}

/// Opening one channel leaves the others alone.
pub proof fn lemma_channels_are_independent(
    m: TcpModel,
    index: usize,
    channel: ChannelDesc,
    other: ChannelDesc,
    state: TcpState,
)
    requires
        m.wf(),
        index < m.virt.len(),
        other != channel,
    ensures
        m.with_state(index, channel, state).virt[index as int].state(other)
            == m.virt[index as int].state(other),
{
    assert(m.virt[index as int].wf());
    lemma_channels_have_own_positions(channel, other);
}

/// After a permit with an outcome was given back the channel is connected or can be opened again.
pub proof fn lemma_permit_leaves_usable_channel(
    m: TcpModel,
    permit: TcpPermit,
    after: TcpModel,
    r: Result<ConnectionHandle, TcpError>,
)
    requires
        m.wf(),
        permit.node < m.virt.len(),
        m.virt[permit.node as int].state(permit.channel) == TcpState::Connecting,
        permit.result is Some,
        permit_dropped(m, permit, after, r),
    ensures
        permit.result->Some_0 matches Ok(conn) ==> after.virt[permit.node as int].state(
            permit.channel,
        ) == TcpState::Connected(conn),
        permit.result->Some_0 is Err ==> tcp_allowed(
            after.virt[permit.node as int].state(permit.channel),
            TcpState::Connecting,
        ),
{
    assert(m.virt[permit.node as int].wf());
}

} // verus!
