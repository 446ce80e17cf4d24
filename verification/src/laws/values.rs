//! Promises about ids, lists and the texts of numbers.
use vstd::prelude::*;

use crate::assoc::{AssocMap, Key};
use crate::model::{
    be_bytes, identity_ids, lemma_node_id_bytes_injective, lemma_session_id_bytes_injective,
    list_contains, same_bytes, Identity, NodeId, NodeInfo, SessionId,
};
use crate::text::{digit, digits, hex_fixed, push_decimal, push_hex_fixed};

verus! {

/// The number that a digit stands for.
pub open spec fn digit_value(c: char) -> nat {
    let code = c as nat;
    if 48 <= code <= 57 {
        (code - 48) as nat
    } else if 97 <= code <= 102 {
        (code - 87) as nat
    } else {
        99
    }
}

/// The number that a text stands for.
pub open spec fn number(text: Seq<char>, radix: nat) -> nat
    decreases text.len(),
{
    if text.len() == 0 {
        0
    } else {
        number(text.drop_last(), radix) * radix + digit_value(text.last())
    }
}

/// A digit stands for its number.
pub proof fn lemma_digit(d: nat)
    requires
        d < 16,
    ensures
        digit_value(digit(d)) == d,
        digit(d) == '0' <==> d == 0,
{
}

proof fn lemma_digits(n: nat)
    ensures
        number(digits(n, 10), 10) == n,
        digits(n, 10).len() > 0,
        n > 0 ==> digits(n, 10)[0] != '0',
        n == 0 ==> digits(n, 10).len() == 1,
    decreases n,
{
    reveal_with_fuel(number, 2);
    if n < 10 {
        lemma_digit(n);
        assert(digits(n, 10).drop_last() =~= Seq::empty());
    } else {
        lemma_digits(n / 10);
        lemma_digit(n % 10);
        let front = digits(n / 10, 10);
        assert(digits(n, 10).drop_last() =~= front);
        assert(digits(n, 10)[0] == front[0]);
    }
}

/// How a number of fixed width ends.
pub proof fn lemma_hex_fixed(n: nat, width: nat)
    ensures
        hex_fixed(n, width).len() == width,
        width > 0 ==> hex_fixed(n, width).last() == digit(n % 16),
        width > 0 ==> hex_fixed(n, width).drop_last() == hex_fixed(n / 16, (width - 1) as nat),
    decreases width,
{
    if width > 0 {
        lemma_hex_fixed(n / 16, (width - 1) as nat);
        assert(hex_fixed(n, width).drop_last() =~= hex_fixed(n / 16, (width - 1) as nat));
    }
}

/// A number is written with the digits that stand for it, and without needless zeros.
pub proof fn law_decimal_text_stands_for_its_number(out: &mut String, n: u128)
    requires
        call_ensures(push_decimal, (out, n), ()),
    ensures
        ({
            let start = old(out)@.len() as int;
            let text = final(out)@.skip(start);
            &&& final(out)@.take(start) == old(out)@
            &&& number(text, 10) == n
            &&& text.len() > 0
            &&& n > 0 ==> text[0] != '0'
            &&& n == 0 ==> text.len() == 1
        }),
{
    lemma_digits(n as nat);
    let start = old(out)@.len() as int;
    assert(final(out)@.skip(start) =~= digits(n as nat, 10));
    assert(final(out)@.take(start) =~= old(out)@);
}

/// A number of fixed width is written with exactly so many digits, the last of which is its last.
pub proof fn law_fixed_text_has_its_width(out: &mut String, n: u128, width: u8)
    requires
        call_ensures(push_hex_fixed, (out, n, width), ()),
    ensures
        ({
            let start = old(out)@.len() as int;
            let text = final(out)@.skip(start);
            &&& final(out)@.take(start) == old(out)@
            &&& text.len() == width
            &&& width > 0 ==> digit_value(text.last()) == n % 16
            &&& width > 1 ==> digit_value(text[width - 2]) == n / 16 % 16
        }),
{
    lemma_hex_fixed(n as nat, width as nat);
    lemma_digit(n as nat % 16);
    let start = old(out)@.len() as int;
    let text = final(out)@.skip(start);
    assert(text =~= hex_fixed(n as nat, width as nat));
    assert(final(out)@.take(start) =~= old(out)@);
    if width > 1 {
        lemma_hex_fixed(n as nat / 16, (width - 1) as nat);
        lemma_digit(n as nat / 16 % 16);
        assert(text[width - 2] == hex_fixed(n as nat / 16, (width - 1) as nat).last());
    }
}

/// An id is read from exactly its own bytes: it comes back from them, differs where they differ,
/// and cannot be read from more or fewer bytes.
pub proof fn law_node_id_is_its_bytes(
    id: &NodeId,
    bytes: Vec<u8>,
    back: Option<NodeId>,
    other: &Vec<u8>,
    read: Option<NodeId>,
)
    requires
        call_ensures(NodeId::to_bytes, (id,), bytes),
        call_ensures(NodeId::try_from_bytes, (&bytes,), back),
        call_ensures(NodeId::try_from_bytes, (other,), read),
    ensures
        bytes@.len() == 20,
        back == Some(*id),
        read is Some <==> other@.len() == 20,
        read == Some(*id) <==> other@ == bytes@,
        bytes@[19] == id.low % 256,
        bytes@[18] == id.low / 256 % 256,
        bytes@[15] == id.high % 256,
{
    crate::model::lemma_be_len(id.high as nat, 16);
    crate::model::lemma_be_len(id.low as nat, 4);
    crate::model::lemma_be_len(id.high as nat / 256, 15);
    crate::model::lemma_be_len(id.low as nat / 256, 3);
    crate::model::lemma_be_len(id.low as nat / 256 / 256, 2);
    if let Some(b) = back {
        lemma_node_id_bytes_injective(b, *id);
    }
    if let Some(b) = read {
        if other@ == bytes@ {
            lemma_node_id_bytes_injective(b, *id);
        }
    }
    assert(be_bytes(id.low as nat, 4).last() == id.low % 256);
    assert(be_bytes(id.low as nat, 4).drop_last() =~= be_bytes(id.low as nat / 256, 3));
    assert(be_bytes(id.low as nat / 256, 3).last() == (id.low as nat / 256) % 256);
    assert(bytes@[19] == be_bytes(id.low as nat, 4)[3]);
    assert(bytes@[18] == be_bytes(id.low as nat, 4)[2]);
    assert(be_bytes(id.low as nat, 4)[2] == be_bytes(id.low as nat, 4).drop_last()[2]);
    assert(bytes@[15] == be_bytes(id.high as nat, 16)[15]);
}

/// The same of the id of a session.
pub proof fn law_session_id_is_its_bytes(
    id: &SessionId,
    bytes: Vec<u8>,
    back: Option<SessionId>,
    other: &Vec<u8>,
    read: Option<SessionId>,
)
    requires
        call_ensures(SessionId::to_bytes, (id,), bytes),
        call_ensures(SessionId::try_from_bytes, (&bytes,), back),
        call_ensures(SessionId::try_from_bytes, (other,), read),
    ensures
        bytes@.len() == 16,
        back == Some(*id),
        read is Some <==> other@.len() == 16,
        read == Some(*id) <==> other@ == bytes@,
        bytes@[15] == id.value % 256,
{
    crate::model::lemma_be_len(id.value as nat, 16);
    crate::model::lemma_be_len(id.value as nat / 256, 15);
    if let Some(b) = back {
        lemma_session_id_bytes_injective(b, *id);
    }
    if let Some(b) = read {
        if other@ == bytes@ {
            lemma_session_id_bytes_injective(b, *id);
        }
    }
}

/// The ids of identities are those of each of them, in order. The first is the default one.
pub proof fn law_ids_are_those_of_the_identities(
    identities: &Vec<Identity>,
    ids: Vec<NodeId>,
    info: &NodeInfo,
    default: NodeId,
    i: int,
)
    requires
        call_ensures(identity_ids, (identities,), ids),
        call_ensures(NodeInfo::default_node_id, (info,), default),
    ensures
        ids@.len() == identities@.len(),
        0 <= i < ids@.len() ==> ids@[i] == identities@[i].node_id,
        info@.identities.len() > 0 ==> default == info@.identities[0].node_id,
        info@.identities.len() == 0 ==> default == (NodeId { high: 0, low: 0 }),
{
}

/// A list contains what stands in it, and two lists of bytes are the same if each byte is.
pub proof fn law_lists_are_compared_by_what_they_hold(
    ids: &Vec<NodeId>,
    id: &NodeId,
    r: bool,
    a: &Vec<u8>,
    b: &Vec<u8>,
    same: bool,
)
    requires
        call_ensures(list_contains::<NodeId>, (ids, id), r),
        call_ensures(same_bytes, (a, b), same),
    ensures
        r <==> exists|i: int| 0 <= i < ids@.len() && (#[trigger] ids@[i]) == *id,
        same <==> a@.len() == b@.len() && forall|i: int|
            0 <= i < a@.len() ==> (#[trigger] a@[i]) == b@[i],
{
    if a@.len() == b@.len() && forall|i: int| 0 <= i < a@.len() ==> (#[trigger] a@[i]) == b@[i] {
        assert(a@ =~= b@);
    }
    if r {
        let i = choose|i: int| 0 <= i < ids@.len() && ids@[i] == *id;
        assert(ids@[i] == *id);
    }
}

/// What was put under a key is found there until it is taken out, and changes nothing elsewhere.
pub proof fn law_entries_are_found_by_their_keys<K: Key, V>(
    first: &mut AssocMap<K, V>,
    key: K,
    value: V,
    before: Option<V>,
    second: &mut AssocMap<K, V>,
    taken: Option<V>,
    other: K,
)
    requires
        call_ensures(AssocMap::<K, V>::insert, (first, key, value), before),
        *old(second) == *final(first),
        call_ensures(AssocMap::<K, V>::remove, (second, &key), taken),
        other != key,
    ensures
        final(first)@.contains_key(key),
        final(first)@[key] == value,
        before is Some <==> old(first)@.contains_key(key),
        before is Some ==> before == Some(old(first)@[key]),
        taken == Some(value),
        !final(second)@.contains_key(key),
        final(second)@.contains_key(other) <==> old(first)@.contains_key(other),
        old(first)@.contains_key(other) ==> final(second)@[other] == old(first)@[other],
{
}

} // verus!
