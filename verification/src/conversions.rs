//! The messages that nodes send one another, and how the values of a node
//! are put into them and taken out again. A position travels as its bytes,
//! the highest first; an address travels as text.

use crate::client_api::KEY_LEN;
use crate::crypto::{address_pos, hash_address};
use crate::finger_table::FingerEntry;
use crate::ring::HashPos;
use crate::successor_list::{address_views, SuccessorList, SuccessorListView};
use crate::types::{Address, Key, Value};
use vstd::prelude::*;

verus! {

/// A position.
#[derive(Debug)]
pub struct HashPosMsg {
    pub key: Vec<u8>,
}

/// An address.
#[derive(Debug)]
pub struct AddressMsg {
    pub address: String,
}

/// A peer with a position.
#[derive(Debug)]
pub struct FingerEntryMsg {
    pub id: Vec<u8>,
    pub address: String,
}

/// A successor list.
#[derive(Debug)]
pub struct SuccessorListMsg {
    pub own_address: Option<AddressMsg>,
    pub successors: Vec<AddressMsg>,
}

/// A stored pair.
#[derive(Debug)]
pub struct KvPairMsg {
    pub key: Vec<u8>,
    pub value: Vec<u8>,
}

/// The bytes of a number of `width` bytes, the highest first.
pub open spec fn be_bytes(x: nat, width: nat) -> Seq<u8>
    decreases width,
{
    if width == 0 {
        Seq::empty()
    } else {
        be_bytes(x / 256, (width - 1) as nat).push((x % 256) as u8)
    }
}

/// The number that bytes spell out, the highest first.
pub open spec fn be_value(bytes: Seq<u8>) -> nat
    decreases bytes.len(),
{
    if bytes.len() == 0 {
        0
    } else {
        be_value(bytes.drop_last()) * 256 + bytes.last() as nat
    }
}

/// The bytes of a position.
pub open spec fn position_bytes(pos: HashPos) -> Seq<u8> {
    be_bytes(pos as nat, 1)
}

/// The addresses of `messages`, each as the text it holds.
pub open spec fn message_addresses(messages: Seq<AddressMsg>) -> Seq<Seq<char>> {
    Seq::new(messages.len(), |i: int| messages[i].address@)
}

/// The bytes of a position.
pub fn pos_to_bytes(pos: HashPos) -> (bytes: Vec<u8>)
    ensures
        bytes@ == position_bytes(pos),
{
    let mut bytes: Vec<u8> = Vec::new();
    bytes.push(pos);
    proof {
        reveal_with_fuel(be_bytes, 2);
        assert(bytes@ =~= position_bytes(pos));
    }
    bytes
}

/// The position that `bytes` spell out, if they are as many as a position
/// has.
pub fn pos_from_bytes(bytes: &[u8]) -> (pos: Option<HashPos>)
    ensures
        match pos {
            Some(p) => bytes@ == position_bytes(p),
            None => bytes@.len() != 1,
        },
{
    if bytes.len() != 1 {
        return None;
    }
    proof {
        reveal_with_fuel(be_bytes, 2);
        assert(bytes@ =~= position_bytes(bytes@[0]));
    }
    Some(bytes[0])
}

/// Appends the eight bytes of `x` to `out`, the highest first.
pub fn push_u64(out: &mut Vec<u8>, x: u64)
    ensures
        final(out)@ == old(out)@ + be_bytes(x as nat, 8),
{
    let mut bytes: [u8; 8] = [0u8; 8];
    let mut rest: u64 = x;
    let mut i: usize = 8;
    assert(be_bytes(x as nat, 8) =~= be_bytes(rest as nat, 8) + bytes@.subrange(8, 8));
    while i > 0
        invariant
            i <= 8,
            be_bytes(x as nat, 8) == be_bytes(rest as nat, i as nat) + bytes@.subrange(i as int, 8),
        decreases i,
    {
        let ghost upper = bytes@.subrange(i as int, 8);
        let low: u8 = (rest % 256) as u8;
        i = i - 1;
        bytes[i] = low;
        assert(bytes@.subrange(i as int, 8) =~= seq![low] + upper);
        assert(be_bytes(rest as nat, (i + 1) as nat) == be_bytes(
            rest as nat / 256,
            i as nat,
        ).push(low));
        rest = rest / 256;
        assert(be_bytes(rest as nat, i as nat).push(low) + upper =~= be_bytes(
            rest as nat,
            i as nat,
        ) + (seq![low] + upper));
    }
    assert(be_bytes(x as nat, 8) =~= bytes@);
    let mut j: usize = 0;
    while j < 8
        invariant
            j <= 8,
            out@ == old(out)@ + bytes@.take(j as int),
        decreases 8 - j,
    {
        out.push(bytes[j]);
        assert(bytes@.take(j + 1) =~= bytes@.take(j as int).push(bytes@[j as int]));
        j = j + 1;
    }
    assert(bytes@.take(8) =~= bytes@);
}

/// The message for `entry`.
pub fn finger_entry_to_msg(entry: &FingerEntry) -> (message: FingerEntryMsg)
    ensures
        message.id@ == position_bytes(entry.key),
        message.address@ == entry.address@,
{
    FingerEntryMsg { id: pos_to_bytes(entry.key), address: entry.address.clone() }
}

/// The entry that `message` holds, if its position has the length of one.
pub fn finger_entry_from_msg(message: &FingerEntryMsg) -> (entry: Option<FingerEntry>)
    ensures
        match entry {
            Some(e) => message.id@ == position_bytes(e.key) && e.address@ == message.address@,
            None => message.id@.len() != 1,
        },
{
    match pos_from_bytes(message.id.as_slice()) {
        Some(key) => Some(FingerEntry { key, address: message.address.clone() }),
        None => None,
    }
}

/// The message that names the node listening on `address`, with the
/// position at which the node stands.
pub fn address_to_finger_entry_msg(address: &Address) -> (message: FingerEntryMsg)
    ensures
        message.id@ == position_bytes(address_pos(address@) as HashPos),
        message.address@ == address@,
{
    FingerEntryMsg { id: pos_to_bytes(hash_address(address)), address: address.clone() }
}

/// The message for the position at which the node listening on `address`
/// stands.
pub fn address_to_hash_pos_msg(address: &Address) -> (message: HashPosMsg)
    ensures
        message.key@ == position_bytes(address_pos(address@) as HashPos),
{
    HashPosMsg { key: pos_to_bytes(hash_address(address)) }
}

/// The message for `list`.
pub fn successor_list_to_msg(list: &SuccessorList) -> (message: SuccessorListMsg)
    ensures
        message.own_address is Some,
        message.own_address->Some_0.address@ == list@.own_address,
        message_addresses(message.successors@) == list@.successors,
{
    let mut successors: Vec<AddressMsg> = Vec::new();
    let mut i: usize = 0;
    while i < list.successors.len()
        invariant
            i <= list.successors@.len(),
            successors@.len() == i,
            forall|j: int| 0 <= j < i ==> (#[trigger] successors@[j]).address@ == list.successors@[j]@,
        decreases list.successors@.len() - i,
    {
        successors.push(AddressMsg { address: list.successors[i].clone() });
        i = i + 1;
    }
    assert(message_addresses(successors@) =~= list@.successors);
    SuccessorListMsg {
        own_address: Some(AddressMsg { address: list.own_address.clone() }),
        successors,
    }
}

/// The successor list that `message` holds, if it names its owner.
pub fn successor_list_from_msg(message: &SuccessorListMsg) -> (list: Option<SuccessorList>)
    ensures
        match list {
            Some(l) => message.own_address is Some && l@ == (SuccessorListView {
                own_address: message.own_address->Some_0.address@,
                successors: message_addresses(message.successors@),
            }),
            None => message.own_address is None,
        },
{
    let own_address = match &message.own_address {
        Some(own) => own.address.clone(),
        None => {
            return None;
        },
    };
    let mut successors: Vec<Address> = Vec::new();
    let mut i: usize = 0;
    while i < message.successors.len()
        invariant
            i <= message.successors@.len(),
            successors@.len() == i,
            forall|j: int|
                0 <= j < i ==> (#[trigger] successors@[j])@ == message.successors@[j].address@,
        decreases message.successors@.len() - i,
    {
        successors.push(message.successors[i].address.clone());
        i = i + 1;
    }
    assert(address_views(successors@) =~= message_addresses(message.successors@));
    Some(SuccessorList { own_address, successors })
}

/// The message for a stored pair.
pub fn kv_pair_to_msg(key: &Key, value: &Value) -> (message: KvPairMsg)
    ensures
        message.key@ == key@,
        message.value@ == value@,
{
    let mut key_bytes: Vec<u8> = Vec::new();
    let mut i: usize = 0;
    while i < KEY_LEN
        invariant
            i <= KEY_LEN,
            key_bytes@ == key@.take(i as int),
        decreases KEY_LEN - i,
    {
        key_bytes.push(key[i]);
        assert(key@.take(i + 1) =~= key@.take(i as int).push(key@[i as int]));
        i = i + 1;
    }
    assert(key@.take(KEY_LEN as int) =~= key@);
    let value_bytes = value.clone();
    assert(value_bytes@ =~= value@);
    KvPairMsg { key: key_bytes, value: value_bytes }
}

/// The pair that `message` holds, if its key has the length of a key.
pub fn kv_pair_from_msg(message: &KvPairMsg) -> (pair: Option<(Key, Value)>)
    ensures
        match pair {
            Some((key, value)) => key@ == message.key@ && value@ == message.value@,
            None => message.key@.len() != KEY_LEN,
        },
{
    if message.key.len() != KEY_LEN {
        return None;
    }
    let mut key: Key = [0u8; 32];
    let mut i: usize = 0;
    while i < KEY_LEN
        invariant
            i <= KEY_LEN,
            message.key@.len() == KEY_LEN,
            forall|j: int| 0 <= j < i ==> key@[j] == message.key@[j],
        decreases KEY_LEN - i,
    {
        key[i] = message.key[i];
        i = i + 1;
    }
    assert(key@ =~= message.key@);
    let value = message.value.clone();
    assert(value@ =~= message.value@);
    Some((key, value))
}

/// The bytes of a number have the width they were asked for.
pub proof fn lemma_be_bytes_len(x: nat, width: nat)
    ensures
        be_bytes(x, width).len() == width,
    decreases width,
{
    if width > 0 {
        lemma_be_bytes_len(x / 256, (width - 1) as nat);
    }
}

/// The bytes of a number spell the number out again, as far as the width
/// has room for it.
pub proof fn lemma_be_value_of_bytes(x: nat, width: nat)
    ensures
        be_value(be_bytes(x, width)) == x % vstd::arithmetic::power::pow(256, width) as nat,
    decreases width,
{
    vstd::arithmetic::power::lemma_pow0(256);
    if width > 0 {
        let rest = be_bytes(x / 256, (width - 1) as nat);
        lemma_be_value_of_bytes(x / 256, (width - 1) as nat);
        assert(be_bytes(x, width).drop_last() =~= rest);
        assert(be_bytes(x, width).last() == (x % 256) as u8);
        let p = vstd::arithmetic::power::pow(256, (width - 1) as nat);
        vstd::arithmetic::power::lemma_pow_positive(256, (width - 1) as nat);
        assert(vstd::arithmetic::power::pow(256, width) == 256 * p) by {
            reveal(vstd::arithmetic::power::pow);
        }
        assert(((x / 256) % (p as nat)) * 256 + x % 256 == x % ((256 * p) as nat)) by {
            vstd::arithmetic::div_mod::lemma_breakdown(x as int, 256, p);
        }
    }
}

/// The bytes of a position spell out that position and no other.
pub proof fn lemma_position_bytes_round_trip(pos: HashPos)
    ensures
        position_bytes(pos).len() == 1,
        be_value(position_bytes(pos)) == pos,
{
    reveal_with_fuel(be_bytes, 2);
    reveal_with_fuel(be_value, 2);
    assert(position_bytes(pos) =~= seq![pos]);
    assert(position_bytes(pos).drop_last() =~= Seq::<u8>::empty());
}

} // verus!
