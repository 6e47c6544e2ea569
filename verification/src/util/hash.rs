use rsa::sha2::Digest;
use vstd::prelude::*;

verus! {

/// A SHA-256 digest.
pub type Hashed = [u8; 32];

/// The SHA-256 digest of a byte string.
pub uninterp spec fn spec_sha256(data: Seq<u8>) -> Seq<u8>;

/// Calls `Sha256::digest` of the `sha2` crate (as re-exported by `rsa`).
/// The contract names the digest and claims that it is a function of the
/// input bytes alone.
#[verifier::external_body]
pub(crate) fn hash(data: &[u8]) -> (res: Hashed)
    ensures
        res@ == spec_sha256(data@),
{
    rsa::sha2::Sha256::digest(data).into()
}

/// Whether two digests are the same bytes.
pub fn hashes_equal(a: &Hashed, b: &Hashed) -> (res: bool)
    ensures
        res == (a@ == b@),
{
    let mut i: usize = 0;
    while i < 32
        invariant
            i <= 32,
            a@.len() == 32,
            b@.len() == 32,
            forall|j: int| 0 <= j < i ==> a@[j] == b@[j],
        decreases 32 - i,
    {
        if a[i] != b[i] {
            return false;
        }
        i = i + 1;
    }
    assert(a@ =~= b@);
    true
}

} // verus!
