//! The digest that places addresses and keys on the ring.

use crate::ring::HashPos;
use crate::types::{Address, Key};
use vstd::prelude::*;
use vstd::utf8::encode_utf8;

verus! {

/// The BLAKE3 digest of `input`, 32 bytes long.
pub uninterp spec fn blake3_digest(input: Seq<u8>) -> Seq<u8>;

/// The position that a digest stands for: its leading bytes, read as a
/// little-endian number of the ring's width.
pub open spec fn digest_pos(digest: Seq<u8>) -> int {
    digest[0] as int
}

/// The position of a byte string on the ring.
pub open spec fn spec_hash(input: Seq<u8>) -> int {
    digest_pos(blake3_digest(input))
}

/// The position of the node that listens on `address`.
pub open spec fn address_pos(address: Seq<char>) -> int {
    spec_hash(encode_utf8(address))
}

/// The position of a key.
pub open spec fn key_pos(key: Seq<u8>) -> int {
    spec_hash(key)
}

/// Calls `blake3::hash` and copies the digest out of the `Hash` it returns.
/// The contract only gives the digest its name: the same input has the same
/// digest wherever it is computed.
#[verifier::external_body]
fn digest(input: &[u8]) -> (out: [u8; 32])
    ensures
        out@ == blake3_digest(input@),
{
    *blake3::hash(input).as_bytes()
}

/// Truncates a digest to a position.
pub fn position_of_digest(digest: &[u8; 32]) -> (pos: HashPos)
    ensures
        pos as int == digest_pos(digest@),
{
    digest[0]
}

/// The position of `input` on the ring.
pub fn hash(input: &[u8]) -> (pos: HashPos)
    ensures
        pos as int == spec_hash(input@),
{
    let out = digest(input);
    position_of_digest(&out)
}

/// The position of the node that listens on `address`.
pub fn hash_address(address: &Address) -> (pos: HashPos)
    ensures
        pos as int == address_pos(address@),
{
    hash(address.as_str().as_bytes())
}

/// The position of `key`.
pub fn hash_key(key: &Key) -> (pos: HashPos)
    ensures
        pos as int == key_pos(key@),
{
    hash(key.as_slice())
}

} // verus!
