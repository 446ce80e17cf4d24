//! Identifiers and descriptions of nodes, sessions and addresses.
use vstd::prelude::*;
use vstd::string::*;

use crate::assoc::Key;
#[allow(unused_imports)]
use crate::text::{decimal, digits, hex_fixed, push_decimal, push_hex, push_hex_fixed};

verus! {

/// Number under which a relay knows a node.
pub type SlotId = u32;

/// Number that pairs a response with its request.
pub type RequestId = u64;

/// Slot of packets that are meant for the session owner itself.
pub const FORWARD_SLOT_ID: SlotId = 0;

/// Why bytes are no session id.
pub const INVALID_SESSION_ID: &'static str = "Invalid SessionId length";

/// Why bytes are no node id.
pub const INVALID_NODE_ID: &'static str = "Invalid NodeId length";

/// Length in bytes of a node id.
pub const NODE_ID_LEN: usize = 20;

/// Length in bytes of a session id.
pub const SESSION_ID_LEN: usize = 16;

/// Number that a sequence of bytes stands for, most significant byte first.
pub open spec fn be_value(bytes: Seq<u8>) -> nat
    decreases bytes.len(),
{
    if bytes.len() == 0 {
        0
    } else {
        be_value(bytes.drop_last()) * 256 + bytes.last() as nat
    }
}

/// The `width` low bytes of a number, most significant byte first.
pub open spec fn be_bytes(n: nat, width: nat) -> Seq<u8>
    decreases width,
{
    if width == 0 {
        Seq::empty()
    } else {
        be_bytes(n / 256, (width - 1) as nat).push((n % 256) as u8)
    }
}

/// Largest number of `width` bytes, plus one.
pub open spec fn byte_range(width: nat) -> nat
    decreases width,
{
    if width == 0 {
        1
    } else {
        256 * byte_range((width - 1) as nat)
    }
}

/// A number is smaller than the range of its bytes.
pub proof fn lemma_be_value_bound(bytes: Seq<u8>)
    ensures
        be_value(bytes) < byte_range(bytes.len()),
    decreases bytes.len(),
{
    if bytes.len() > 0 {
        lemma_be_value_bound(bytes.drop_last());
    }
}

/// The first byte bounds a number, and so does any byte that is not zero.
pub proof fn lemma_be_value_first(bytes: Seq<u8>)
    requires
        bytes.len() > 0,
    ensures
        be_value(bytes) < (bytes[0] + 1) * byte_range((bytes.len() - 1) as nat),
        be_value(bytes) >= bytes.last(),
        (exists|i: int| 0 <= i < bytes.len() && bytes[i] != 0) ==> be_value(bytes) >= 1,
    decreases bytes.len(),
{
    let rest = bytes.drop_last();
    if rest.len() > 0 {
        lemma_be_value_first(rest);
        let a = bytes[0] + 1;
        let b = byte_range((rest.len() - 1) as nat);
        assert(byte_range(rest.len()) == 256 * b);
        assert(a * (256 * b) == 256 * (a * b)) by (nonlinear_arith);
        assert(a * byte_range(rest.len()) == 256 * (a * b));
        assert(bytes[0] == rest[0]);
        if exists|i: int| 0 <= i < bytes.len() && bytes[i] != 0 {
            let i = choose|i: int| 0 <= i < bytes.len() && bytes[i] != 0;
            if i < rest.len() {
                assert(rest[i] != 0);
            }
        }
    } else {
        assert(be_value(rest) == 0);
        assert(byte_range(0) == 1);
        let a = bytes[0] + 1;
        let one = byte_range(0);
        assert(a * one == a) by (nonlinear_arith)
            requires
                one == 1,
        ;
        assert(bytes[0] == bytes.last());
    }
}

/// A number is written as as many bytes as asked for.
pub proof fn lemma_be_len(n: nat, width: nat)
    ensures
        be_bytes(n, width).len() == width,
    decreases width,
{
    if width > 0 {
        lemma_be_len(n / 256, (width - 1) as nat);
    }
}

/// Reading back the bytes of a number gives the number.
pub proof fn lemma_be_round_trip(n: nat, width: nat)
    requires
        n < byte_range(width),
    ensures
        be_bytes(n, width).len() == width,
        be_value(be_bytes(n, width)) == n,
    decreases width,
{
    if width > 0 {
        lemma_be_round_trip(n / 256, (width - 1) as nat);
        let b = be_bytes(n, width);
        assert(b.drop_last() =~= be_bytes(n / 256, (width - 1) as nat));
        assert(b.last() == (n % 256) as u8);
    }
}

/// Writing the number that bytes stand for gives the bytes.
pub proof fn lemma_be_bytes_of_value(bytes: Seq<u8>)
    ensures
        be_bytes(be_value(bytes), bytes.len()) == bytes,
    decreases bytes.len(),
{
    if bytes.len() > 0 {
        lemma_be_bytes_of_value(bytes.drop_last());
        let n = be_value(bytes);
        assert(n / 256 == be_value(bytes.drop_last()));
        assert(n % 256 == bytes.last() as nat);
        assert(be_bytes(n, bytes.len()) =~= bytes.drop_last().push(bytes.last()));
        assert(bytes.drop_last().push(bytes.last()) =~= bytes);
    } else {
        assert(be_bytes(be_value(bytes), 0) =~= bytes);
    }
}

/// The number that some bytes of a list stand for.
pub fn read_be(bytes: &Vec<u8>, from: usize, to: usize) -> (r: u128)
    requires
        from <= to <= bytes@.len(),
        to - from <= 16,
    ensures
        r == be_value(bytes@.subrange(from as int, to as int)),
{
    let mut r: u128 = 0;
    let mut i: usize = from;
    proof {
        reveal_with_fuel(byte_range, 17);
        assert(byte_range(16) == 0x1_0000_0000_0000_0000_0000_0000_0000_0000);
    }
    while i < to
        invariant
            from <= i <= to <= bytes@.len(),
            to - from <= 16,
            r == be_value(bytes@.subrange(from as int, i as int)),
            byte_range(16) == 0x1_0000_0000_0000_0000_0000_0000_0000_0000,
        decreases to - i,
    {
        proof {
            let next = bytes@.subrange(from as int, i + 1);
            assert(next.drop_last() =~= bytes@.subrange(from as int, i as int));
            assert(next.last() == bytes@[i as int]);
            lemma_be_value_bound(next);
            lemma_byte_range_monotonic(next.len(), 16);
        }
        r = r * 256 + bytes[i] as u128;
        i += 1;
    }
    r
}

proof fn lemma_byte_range_monotonic(a: nat, b: nat)
    requires
        a <= b,
    ensures
        byte_range(a) <= byte_range(b),
    decreases b - a,
{
    if a < b {
        lemma_byte_range_monotonic(a, (b - 1) as nat);
    }
}

fn push_be(out: &mut Vec<u8>, n: u128, width: u8)
    ensures
        final(out)@ == old(out)@ + be_bytes(n as nat, width as nat),
    decreases width,
{
    let ghost before = out@;
    if width > 0 {
        push_be(out, n / 256, width - 1);
        let low = n % 256;
        out.push(low as u8);
        assert(out@ =~= before + be_bytes(n as nat, width as nat));
    } else {
        assert(out@ =~= before + be_bytes(n as nat, 0));
    }
}

/// Identifier of a node: twenty bytes, held as the first sixteen and the last four.
#[derive(Clone, Copy, Debug, PartialEq, Eq, Hash, PartialOrd, Ord, Structural)]
pub struct NodeId {
    pub high: u128,
    pub low: u32,
}

impl Key for NodeId {
    fn same(&self, other: &Self) -> (r: bool) {
        *self == *other
    }
}

impl Default for NodeId {
    /// The zero id, under which the relay server goes.
    fn default() -> (r: Self)
        ensures
            r == NodeId::zero(),
    {
        NodeId { high: 0, low: 0 }
    }
}

impl NodeId {
    pub open spec fn zero() -> NodeId {
        NodeId { high: 0, low: 0 }
    }

    /// The id as bytes.
    pub open spec fn bytes(self) -> Seq<u8> {
        be_bytes(self.high as nat, 16) + be_bytes(self.low as nat, 4)
    }

    /// The id as text: forty hexadecimal digits behind `0x`.
    pub open spec fn text(self) -> Seq<char> {
        "0x"@ + hex_fixed(self.high as nat, 32) + hex_fixed(self.low as nat, 8)
    }

    /// Reads an id out of exactly twenty bytes.
    pub fn try_from_bytes(bytes: &Vec<u8>) -> (r: Option<NodeId>)
        ensures
            r is Some <==> bytes@.len() == NODE_ID_LEN,
            r matches Some(id) ==> id.bytes() == bytes@,
    {
        if bytes.len() != NODE_ID_LEN {
            return None;
        }
        let high = read_be(bytes, 0, 16);
        let low = read_be(bytes, 16, 20);
        proof {
            let tail = bytes@.subrange(16, 20);
            lemma_be_value_bound(tail);
            reveal_with_fuel(byte_range, 5);
            lemma_be_bytes_of_value(bytes@.subrange(0, 16));
            lemma_be_bytes_of_value(tail);
            assert(bytes@.subrange(0, 16) + tail =~= bytes@);
        }
        Some(NodeId { high, low: low as u32 })
    }

    /// The id as twenty bytes.
    pub fn to_bytes(&self) -> (r: Vec<u8>)
        ensures
            r@ == self.bytes(),
    {
        let mut r: Vec<u8> = Vec::new();
        push_be(&mut r, self.high, 16);
        push_be(&mut r, self.low as u128, 4);
        assert(r@ =~= self.bytes());
        r
    }

    /// Appends the text of the id.
    pub fn push_text(&self, out: &mut String)
        ensures
            final(out)@ == old(out)@ + self.text(),
    {
        let ghost before = out@;
        out.append("0x");
        push_hex_fixed(out, self.high, 32);
        push_hex_fixed(out, self.low as u128, 8);
        assert(out@ =~= before + self.text());
    }

    /// The id as text.
    pub fn to_text(&self) -> (r: String)
        ensures
            r@ == self.text(),
    {
        let mut r = String::new();
        self.push_text(&mut r);
        assert(r@ =~= self.text());
        r
    }
}

/// Different ids have different bytes.
pub proof fn lemma_node_id_bytes_injective(a: NodeId, b: NodeId)
    requires
        a.bytes() == b.bytes(),
    ensures
        a == b,
{
    reveal_with_fuel(byte_range, 17);
    assert(byte_range(16) == 0x1_0000_0000_0000_0000_0000_0000_0000_0000);
    assert(byte_range(4) == 0x1_0000_0000);
    lemma_be_round_trip(a.high as nat, 16);
    lemma_be_round_trip(b.high as nat, 16);
    lemma_be_round_trip(a.low as nat, 4);
    lemma_be_round_trip(b.low as nat, 4);
    assert(a.bytes().subrange(0, 16) =~= be_bytes(a.high as nat, 16));
    assert(b.bytes().subrange(0, 16) =~= be_bytes(b.high as nat, 16));
    assert(a.bytes().subrange(16, 20) =~= be_bytes(a.low as nat, 4));
    assert(b.bytes().subrange(16, 20) =~= be_bytes(b.low as nat, 4));
}

/// Identifier of a session: sixteen bytes, most significant first.
#[derive(Clone, Copy, Debug, PartialEq, Eq, Hash, PartialOrd, Ord, Structural)]
pub struct SessionId {
    pub value: u128,
}

impl Key for SessionId {
    fn same(&self, other: &Self) -> (r: bool) {
        *self == *other
    }
}

impl SessionId {
    pub open spec fn bytes(self) -> Seq<u8> {
        be_bytes(self.value as nat, 16)
    }

    /// The id as text: thirty-two hexadecimal digits.
    pub open spec fn text(self) -> Seq<char> {
        hex_fixed(self.value as nat, 32)
    }

    /// Reads an id out of exactly sixteen bytes.
    pub fn try_from_bytes(bytes: &Vec<u8>) -> (r: Option<SessionId>)
        ensures
            r is Some <==> bytes@.len() == SESSION_ID_LEN,
            r matches Some(id) ==> id.bytes() == bytes@,
    {
        if bytes.len() != SESSION_ID_LEN {
            return None;
        }
        let value = read_be(bytes, 0, 16);
        proof {
            lemma_be_bytes_of_value(bytes@.subrange(0, 16));
            assert(bytes@.subrange(0, 16) =~= bytes@);
        }
        Some(SessionId { value })
    }

    /// The id as sixteen bytes.
    pub fn to_bytes(&self) -> (r: Vec<u8>)
        ensures
            r@ == self.bytes(),
    {
        let mut r: Vec<u8> = Vec::new();
        push_be(&mut r, self.value, 16);
        assert(r@ =~= self.bytes());
        r
    }

    /// Appends the text of the id.
    pub fn push_text(&self, out: &mut String)
        ensures
            final(out)@ == old(out)@ + self.text(),
    {
        push_hex_fixed(out, self.value, 32);
    }
}

/// Different session ids have different bytes.
pub proof fn lemma_session_id_bytes_injective(a: SessionId, b: SessionId)
    requires
        a.bytes() == b.bytes(),
    ensures
        a == b,
{
    reveal_with_fuel(byte_range, 17);
    assert(byte_range(16) == 0x1_0000_0000_0000_0000_0000_0000_0000_0000);
    lemma_be_round_trip(a.value as nat, 16);
    lemma_be_round_trip(b.value as nat, 16);
}

/// An internet address.
#[derive(Clone, Copy, Debug, PartialEq, Eq, Hash, PartialOrd, Ord, Structural)]
pub enum IpAddr {
    V4(u32),
    /// Two addresses of one number differ where they are in different zones or flows.
    V6 { ip: u128, flowinfo: u32, scope_id: u32 },
}

/// An internet address with a port.
#[derive(Clone, Copy, Debug, PartialEq, Eq, Hash, PartialOrd, Ord, Structural)]
pub struct SocketAddr {
    pub ip: IpAddr,
    pub port: u16,
}

impl Key for SocketAddr {
    fn same(&self, other: &Self) -> (r: bool) {
        *self == *other
    }
}

/// Dotted text of a four byte address.
pub open spec fn ipv4_text(ip: u32) -> Seq<char> {
    decimal((ip / 0x100_0000) as nat) + "."@ + decimal((ip / 0x1_0000 % 256) as nat) + "."@
        + decimal((ip / 0x100 % 256) as nat) + "."@ + decimal((ip % 256) as nat)
}

/// The eight groups of a sixteen byte address, most significant first.
pub open spec fn groups(ip: nat, count: nat) -> Seq<nat>
    decreases count,
{
    if count == 0 {
        Seq::empty()
    } else {
        groups(ip / 0x1_0000, (count - 1) as nat).push(ip % 0x1_0000)
    }
}

/// Number of zero groups in a row from a position on.
pub open spec fn zero_run(g: Seq<nat>, from: int) -> nat
    decreases g.len() - from,
{
    if from < 0 || from >= g.len() || g[from] != 0 {
        0
    } else {
        1 + zero_run(g, from + 1)
    }
}

/// Start of the first of the longest runs of zero groups among the first `upto` positions.
pub open spec fn longest_run(g: Seq<nat>, upto: nat) -> int
    decreases upto,
{
    if upto == 0 {
        0
    } else {
        let best = longest_run(g, (upto - 1) as nat);
        if zero_run(g, upto - 1) > zero_run(g, best) {
            upto - 1
        } else {
            best
        }
    }
}

/// Groups in hexadecimal, separated by colons.
pub open spec fn join_groups(g: Seq<nat>) -> Seq<char>
    decreases g.len(),
{
    if g.len() == 0 {
        Seq::empty()
    } else if g.len() == 1 {
        digits(g[0], 16)
    } else {
        join_groups(g.drop_last()) + ":"@ + digits(g.last(), 16)
    }
}

/// Text of a sixteen byte address. The first longest run of at least two zero groups is
/// written as a double colon, and an address that maps a four byte one ends in dotted form.
pub open spec fn ipv6_text(ip: u128) -> Seq<char> {
    let g = groups(ip as nat, 8);
    if ip / 0x1_0000_0000 == 0xffff {
        "::ffff:"@ + ipv4_text((ip % 0x1_0000_0000) as u32)
    } else {
        let start = longest_run(g, 8);
        let len = zero_run(g, start);
        if len > 1 {
            join_groups(g.take(start)) + "::"@ + join_groups(g.skip(start + len))
        } else {
            join_groups(g)
        }
    }
}

/// Text of the zone of an address, where it has one.
pub open spec fn zone_text(scope_id: u32) -> Seq<char> {
    if scope_id == 0 {
        Seq::empty()
    } else {
        "%"@ + decimal(scope_id as nat)
    }
}

impl SocketAddr {
    /// The address as text, a sixteen byte one between square brackets.
    pub open spec fn text(self) -> Seq<char> {
        match self.ip {
            IpAddr::V4(ip) => ipv4_text(ip) + ":"@ + decimal(self.port as nat),
            IpAddr::V6 { ip, scope_id, .. } => "["@ + ipv6_text(ip) + zone_text(scope_id) + "]:"@
                + decimal(self.port as nat),
        }
    }

    /// Appends the text of the address.
    pub fn push_text(&self, out: &mut String)
        ensures
            final(out)@ == old(out)@ + self.text(),
    {
        let ghost before = out@;
        match self.ip {
            IpAddr::V4(ip) => {
                push_ipv4(out, ip);
                out.append(":");
                push_decimal(out, self.port as u128);
            },
            IpAddr::V6 { ip, flowinfo: _, scope_id } => {
                out.append("[");
                push_ipv6(out, ip);
                if scope_id != 0 {
                    out.append("%");
                    push_decimal(out, scope_id as u128);
                }
                out.append("]:");
                push_decimal(out, self.port as u128);
            },
        }
        assert(out@ =~= before + self.text());
    }

    /// The address as text.
    pub fn to_text(&self) -> (r: String)
        ensures
            r@ == self.text(),
    {
        let mut r = String::new();
        self.push_text(&mut r);
        assert(r@ =~= self.text());
        r
    }
}

fn push_ipv4(out: &mut String, ip: u32)
    ensures
        final(out)@ == old(out)@ + ipv4_text(ip),
{
    let ghost before = out@;
    push_decimal(out, (ip / 0x100_0000) as u128);
    out.append(".");
    push_decimal(out, (ip / 0x1_0000 % 256) as u128);
    out.append(".");
    push_decimal(out, (ip / 0x100 % 256) as u128);
    out.append(".");
    push_decimal(out, (ip % 256) as u128);
    assert(out@ =~= before + ipv4_text(ip));
}

fn split_groups(ip: u128, count: u8) -> (r: Vec<u128>)
    ensures
        r@.len() == count,
        r@.len() == groups(ip as nat, count as nat).len(),
        forall|i: int| 0 <= i < count ==> #[trigger] r@[i] == groups(ip as nat, count as nat)[i],
    decreases count,
{
    if count == 0 {
        Vec::new()
    } else {
        let mut r = split_groups(ip / 0x1_0000, count - 1);
        r.push(ip % 0x1_0000);
        r
    }
}

fn run_from(g: &Vec<u128>, from: usize, Ghost(model): Ghost<Seq<nat>>) -> (r: usize)
    requires
        model.len() == g@.len(),
        forall|i: int| 0 <= i < g@.len() ==> #[trigger] g@[i] == model[i],
        from <= g@.len(),
    ensures
        r == zero_run(model, from as int),
        from + r <= g@.len(),
    decreases g@.len() - from,
{
    if from >= g.len() || g[from] != 0 {
        0
    } else {
        1 + run_from(g, from + 1, Ghost(model))
    }
}

fn push_groups(out: &mut String, g: &Vec<u128>, from: usize, to: usize, Ghost(model): Ghost<Seq<nat>>)
    requires
        model.len() == g@.len(),
        forall|i: int| 0 <= i < g@.len() ==> #[trigger] g@[i] == model[i],
        from <= to <= g@.len(),
    ensures
        final(out)@ == old(out)@ + join_groups(model.subrange(from as int, to as int)),
{
    let ghost before = out@;
    let mut i: usize = from;
    while i < to
        invariant
            model.len() == g@.len(),
            forall|i: int| 0 <= i < g@.len() ==> #[trigger] g@[i] == model[i],
            from <= i <= to <= g@.len(),
            out@ == before + join_groups(model.subrange(from as int, i as int)),
        decreases to - i,
    {
        if i > from {
            out.append(":");
        }
        push_hex(out, g[i]);
        proof {
            let next = model.subrange(from as int, i + 1);
            assert(next.drop_last() =~= model.subrange(from as int, i as int));
            assert(next.last() == model[i as int]);
            if i == from {
                assert(next[0] == model[i as int]);
            }
            assert(out@ =~= before + join_groups(next));
        }
        i += 1;
    }
    assert(out@ =~= before + join_groups(model.subrange(from as int, to as int)));
}

fn push_ipv6(out: &mut String, ip: u128)
    ensures
        final(out)@ == old(out)@ + ipv6_text(ip),
{
    let ghost before = out@;
    if ip / 0x1_0000_0000 == 0xffff {
        out.append("::ffff:");
        push_ipv4(out, (ip % 0x1_0000_0000) as u32);
        assert(out@ =~= before + ipv6_text(ip));
        return;
    }
    let g = split_groups(ip, 8);
    let ghost model = groups(ip as nat, 8);
    let mut best: usize = 0;
    let mut best_len: usize = run_from(&g, 0, Ghost(model));
    let mut i: usize = 0;
    proof {
        assert(longest_run(model, 0) == 0);
    }
    while i < 8
        invariant
            0 <= i <= 8,
            model == groups(ip as nat, 8),
            model.len() == 8,
            g@.len() == 8,
            forall|i: int| 0 <= i < g@.len() ==> #[trigger] g@[i] == model[i],
            best == longest_run(model, i as nat),
            best_len == zero_run(model, best as int),
            best + best_len <= 8,
        decreases 8 - i,
    {
        let len = run_from(&g, i, Ghost(model));
        if len > best_len {
            best = i;
            best_len = len;
        }
        i += 1;
    }
    if best_len > 1 {
        push_groups(out, &g, 0, best, Ghost(model));
        out.append("::");
        push_groups(out, &g, best + best_len, 8, Ghost(model));
        proof {
            assert(model.subrange(0, best as int) =~= model.take(best as int));
            assert(model.subrange(best + best_len, 8) =~= model.skip(best + best_len));
            assert(out@ =~= before + ipv6_text(ip));
        }
    } else {
        push_groups(out, &g, 0, 8, Ghost(model));
        assert(model.subrange(0, 8) =~= model);
    }
}

/// Public key of a node: the two coordinates of a curve point, each in two halves.
#[derive(Clone, Copy, Debug, PartialEq, Eq, Hash, Structural)]
pub struct PublicKey {
    pub x_high: u128,
    pub x_low: u128,
    pub y_high: u128,
    pub y_low: u128,
}

/// A node id with the public key that it stands for.
#[derive(Clone, Copy, Debug, PartialEq, Eq, Hash, Structural)]
pub struct Identity {
    pub node_id: NodeId,
    pub public_key: PublicKey,
}

/// Ids of a list of identities, in order.
pub open spec fn ids_of(identities: Seq<Identity>) -> Seq<NodeId> {
    identities.map_values(|i: Identity| i.node_id)
}

/// Ids of a list of identities, in order.
pub fn identity_ids(identities: &Vec<Identity>) -> (r: Vec<NodeId>)
    ensures
        r@ == ids_of(identities@),
{
    let mut r: Vec<NodeId> = Vec::new();
    let mut i: usize = 0;
    while i < identities.len()
        invariant
            0 <= i <= identities@.len(),
            r@ == ids_of(identities@.take(i as int)),
        decreases identities@.len() - i,
    {
        r.push(identities[i].node_id);
        i += 1;
        assert(r@ =~= ids_of(identities@.take(i as int)));
    }
    assert(identities@.take(i as int) =~= identities@);
    r
}

/// Stands for one session that was registered.
#[derive(Clone, Copy, Debug, PartialEq, Eq, Hash, PartialOrd, Ord, Structural)]
pub struct SessionHandle {
    pub number: u64,
}

impl Key for SessionHandle {
    fn same(&self, other: &Self) -> (r: bool) {
        *self == *other
    }
}

/// How a packet is to be carried.
#[derive(Clone, Copy, Debug, PartialEq, Eq, Hash, Structural)]
pub enum TransportType {
    Unreliable,
    Reliable,
    Transfer,
}

/// Whether packets go to a node directly or through a relay.
#[derive(Clone, Copy, Debug, PartialEq, Eq, Hash, Structural)]
pub enum SessionType {
    P2P,
    Relay,
}

/// What a relay knows of a node. The first identity is the default one.
pub struct NodeInfo {
    pub identities: Vec<Identity>,
    /// Ids that the node has proved to be its own.
    pub authenticated_identities: Vec<NodeId>,
    pub slot: SlotId,
    pub endpoints: Vec<SocketAddr>,
    pub supported_encryption: Vec<String>,
    pub session_key: Option<PublicKey>,
}

/// Mathematical content of a [`NodeInfo`].
#[verifier::ext_equal]
pub struct NodeInfoView {
    pub identities: Seq<Identity>,
    pub authenticated_identities: Seq<NodeId>,
    pub slot: SlotId,
    pub endpoints: Seq<SocketAddr>,
    pub supported_encryption: Seq<String>,
    pub session_key: Option<PublicKey>,
}

impl View for NodeInfo {
    type V = NodeInfoView;

    open spec fn view(&self) -> NodeInfoView {
        NodeInfoView {
            identities: self.identities@,
            authenticated_identities: self.authenticated_identities@,
            slot: self.slot,
            endpoints: self.endpoints@,
            supported_encryption: self.supported_encryption@,
            session_key: self.session_key,
        }
    }
}

impl NodeInfo {
    /// A copy of the description.
    pub fn duplicate(&self) -> (r: NodeInfo)
        ensures
            r@ == self@,
    {
        let r = NodeInfo {
            identities: copy_list(&self.identities),
            authenticated_identities: copy_list(&self.authenticated_identities),
            slot: self.slot,
            endpoints: copy_list(&self.endpoints),
            supported_encryption: clone_names(&self.supported_encryption),
            session_key: self.session_key,
        };
        assert(r@ =~= self@);
        r
    }

    /// Id of the first identity, or the zero id where there is none.
    pub fn default_node_id(&self) -> (r: NodeId)
        ensures
            r == default_of(self@.identities),
    {
        if self.identities.len() == 0 {
            NodeId { high: 0, low: 0 }
        } else {
            self.identities[0].node_id
        }
    }
}

pub open spec fn default_of(identities: Seq<Identity>) -> NodeId {
    if identities.len() == 0 {
        NodeId::zero()
    } else {
        identities[0].node_id
    }
}

/// A copy of a list of plain values.
pub fn copy_list<T: Copy>(items: &Vec<T>) -> (r: Vec<T>)
    ensures
        r@ == items@,
{
    let mut r: Vec<T> = Vec::new();
    let mut i: usize = 0;
    while i < items.len()
        invariant
            0 <= i <= items@.len(),
            r@ == items@.take(i as int),
        decreases items@.len() - i,
    {
        r.push(items[i]);
        i += 1;
        assert(r@ =~= items@.take(i as int));
    }
    assert(items@.take(i as int) =~= items@);
    r
}

/// A copy of a list of names.
pub fn clone_names(items: &Vec<String>) -> (r: Vec<String>)
    ensures
        r@ == items@,
{
    let mut r: Vec<String> = Vec::new();
    let mut i: usize = 0;
    while i < items.len()
        invariant
            0 <= i <= items@.len(),
            r@ == items@.take(i as int),
        decreases items@.len() - i,
    {
        r.push(items[i].clone());
        i += 1;
        assert(r@ =~= items@.take(i as int));
    }
    assert(items@.take(i as int) =~= items@);
    r
}

/// Whether the value occurs in the list.
pub fn list_contains<T: Key>(items: &Vec<T>, value: &T) -> (r: bool)
    ensures
        r == items@.contains(*value),
{
    let mut i: usize = 0;
    while i < items.len()
        invariant
            0 <= i <= items@.len(),
            forall|j: int| 0 <= j < i ==> items@[j] != *value,
        decreases items@.len() - i,
    {
        if items[i].same(value) {
            return true;
        }
        i += 1;
    }
    false
}

/// Whether two byte strings are equal.
pub fn same_bytes(a: &Vec<u8>, b: &Vec<u8>) -> (r: bool)
    ensures
        r == (a@ == b@),
{
    if a.len() != b.len() {
        return false;
    }
    let mut i: usize = 0;
    while i < a.len()
        invariant
            0 <= i <= a@.len(),
            a@.len() == b@.len(),
            forall|j: int| 0 <= j < i ==> a@[j] == b@[j],
        decreases a@.len() - i,
    {
        if a[i] != b[i] {
            return false;
        }
        i += 1;
    }
    assert(a@ =~= b@);
    true
}

} // verus!
