//! SHA-256 of a payload, computed by the `sha2` crate.
use sha2::{Digest, Sha256};
use vstd::prelude::*;

verus! {

/// The SHA-256 digest of `data`, as `sha2::Sha256::digest` returns it.
pub uninterp spec fn sha256_digest(data: Seq<u8>) -> Seq<u8>;

/// Calls `sha2::Sha256::digest` on `payload` and converts the 32-byte
/// output to an array. Trusted: the only claim is that the result is
/// `sha256_digest` of the payload, i.e. depends on the payload bytes alone.
#[verifier::external_body]
pub fn sha256(payload: &[u8]) -> (digest: [u8; 32])
    ensures
        digest@ == sha256_digest(payload@),
{
    Sha256::digest(payload).into()
}

} // verus!
