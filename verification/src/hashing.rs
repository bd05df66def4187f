//! The field-hash primitive of the pool: a 256-bit Keccak digest, used both
//! to combine accumulator nodes and to bind withdrawal parameters.

use vstd::prelude::*;

verus! {

/// What `sha3::Keccak256` returns for a given byte string: a 32-byte digest
/// that depends on the input bytes alone.
pub uninterp spec fn keccak_of(input: Seq<u8>) -> Seq<u8>;

/// Relies on `sha3::Keccak256` (through `Digest::digest`): the 256-bit Keccak
/// digest of the input, a deterministic function of the input bytes alone.
#[verifier::external_body]
pub(crate) fn keccak256(input: &Vec<u8>) -> (r: [u8; 32])
    ensures
        r@ == keccak_of(input@),
{
    let digest = <sha3::Keccak256 as sha3::Digest>::digest(input.as_slice());
    let out: [u8; 32] = digest.into();
    out
}

/// The binary hash that combines two accumulator nodes: the digest of the
/// 64-byte concatenation of the children, left first.
pub open spec fn node_hash(left: Seq<u8>, right: Seq<u8>) -> Seq<u8> {
    keccak_of(left + right)
}

/// Combines two 32-byte nodes into their parent node.
pub fn hash_pair(left: &[u8; 32], right: &[u8; 32]) -> (r: [u8; 32])
    ensures
        r@ == node_hash(left@, right@),
{
    let mut bytes: Vec<u8> = Vec::new();
    bytes.extend_from_slice(left.as_slice());
    bytes.extend_from_slice(right.as_slice());
    assert(bytes@ =~= left@ + right@);
    keccak256(&bytes)
}

} // verus!
