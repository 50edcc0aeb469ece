//! The content hash. SHA-256 itself is not verified here: it is computed by
//! the `sha2` crate and referred to in contracts by name only.

use vstd::prelude::*;

verus! {

/// The SHA-256 digest of `data`, as the `sha2` crate computes it.
pub uninterp spec fn sha256_digest(data: Seq<u8>) -> Seq<u8>;

/// Calls `sha2::Sha256::digest` (the one-shot form of `sha2::Digest`).
///
/// Trusted: the 32 bytes returned are the SHA-256 digest of `data` and
/// depend on nothing but `data`.
#[verifier::external_body]
pub(crate) fn sha256(data: &[u8]) -> (h: [u8; 32])
    ensures
        h@ == sha256_digest(data@),
{
    <sha2::Sha256 as sha2::Digest>::digest(data).into()
}

} // verus!
