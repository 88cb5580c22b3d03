//! The SHA-256 digest.

use sha2::Digest;
use sha2::Sha256;
use vstd::prelude::*;

verus! {

/// The SHA-256 digest of `data`.
///
/// The function itself is not written out here: it is whatever
/// `sha2::Sha256` computes, and [`sha256_digest`] is the only place where a
/// value of it is obtained. A digest always has 32 bytes, which the result
/// type records.
pub uninterp spec fn sha256(data: Seq<u8>) -> [u8; 32];

/// Calls `<sha2::Sha256 as sha2::Digest>::digest` on `data` and returns the
/// 32 bytes of its output.
///
/// Trusted: the result is taken to be [`sha256`] of the input, that is, the
/// call is taken to depend on the bytes of `data` and on nothing else.
#[verifier::external_body]
pub(crate) fn sha256_digest(data: &[u8]) -> (out: [u8; 32])
    ensures
        out == sha256(data@),
{
    Sha256::digest(data).into()
}

} // verus!
