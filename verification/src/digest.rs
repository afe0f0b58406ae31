//! SHA-256, through the `sha2` crate.
use sha2::Digest;
use vstd::prelude::*;

verus! {

/// The SHA-256 digest of `data`.
pub uninterp spec fn sha256_spec(data: Seq<u8>) -> [u8; 32];

/// `Sha256::digest(data)`: the 32-byte SHA-256 digest of `data`, the value
/// named by `sha256_spec`.
#[verifier::external_body]
pub(crate) fn sha256(data: &[u8]) -> (h: [u8; 32])
    ensures
        h == sha256_spec(data@),
{
    sha2::Sha256::digest(data).into()
}

} // verus!
