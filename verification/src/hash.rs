//! Content hashes.
use crate::wire::le_value;
use vstd::prelude::*;

verus! {

/// The BLAKE3 hash of some bytes.
pub uninterp spec fn blake3_hash(b: Seq<u8>) -> Seq<u8>;

/// `blake3::hash` gives the hash of some bytes, 32 bytes that depend on them
/// alone.
#[verifier::external_body]
fn blake3_of(b: &[u8]) -> (r: [u8; 32])
    ensures
        r@ == blake3_hash(b@),
{
    *blake3::hash(b).as_bytes()
}

/// The hash of some bytes.
pub fn hash_bytes(b: &[u8]) -> (r: [u8; 32])
    ensures
        r@ == blake3_hash(b@),
{
    blake3_of(b)
}

/// The number that the first eight bytes of a hash write, the lowest first.
pub open spec fn first_eight(h: Seq<u8>) -> u64 {
    le_value(h.take(8)) as u64
}

/// The number that the first eight bytes of a hash write, the lowest first.
pub fn hash_to_u64(h: &[u8; 32]) -> (r: u64)
    ensures
        r == first_eight(h@),
{
    crate::frame::read_u64_le(h.as_slice(), 0)
}

/// The number by which content is told apart: the first eight bytes of its
/// hash.
pub open spec fn short_hash(b: Seq<u8>) -> u64 {
    first_eight(blake3_hash(b))
}

/// The number by which content is told apart.
pub fn short_hash_of(b: &[u8]) -> (r: u64)
    ensures
        r == short_hash(b@),
{
    hash_to_u64(&hash_bytes(b))
}

} // verus!
