//! The BLAKE2b-256 hash through which chain identifiers are derived.

use crypto::hashes::{blake2b::Blake2b256, Digest};
use vstd::prelude::*;

verus! {

/// The BLAKE2b-256 digest of `data`, as computed by `iota-crypto`.
pub uninterp spec fn blake2b256(data: Seq<u8>) -> Seq<u8>;

/// Hashes `data` with `crypto::hashes::blake2b::Blake2b256` (through the `Digest` trait).
/// Trusted: the result is the digest of `data`, 32 bytes long, as the hasher's fixed
/// output size `U32` shows; what the digest is beyond that is only named.
#[verifier::external_body]
pub(crate) fn blake2b256_digest(data: &[u8]) -> (r: Vec<u8>)
    ensures
        r@ == blake2b256(data@),
        r@.len() == 32,
{
    Blake2b256::digest(data).to_vec()
}

} // verus!
