//! SHA-256, through the `sha2` crate.

use sha2::Digest;
use vstd::prelude::*;

verus! {

/// The SHA-256 digest of `data`.
pub uninterp spec fn sha256(data: Seq<u8>) -> Seq<u8>;

/// Calls `sha2::Sha256::digest`. The contract names its result `sha256(data)`
/// and says nothing more of it than that it is 32 bytes long, which the type
/// of the result carries.
#[verifier::external_body]
pub(crate) fn sha256_digest(data: &[u8]) -> (res: [u8; 32])
    ensures
        res@ == sha256(data@),
{
    sha2::Sha256::digest(data).into()
}

} // verus!
