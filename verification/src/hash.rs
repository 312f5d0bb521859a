use sha1::{Digest, Sha1};
use vstd::prelude::*;

use crate::errors::ParseError;

verus! {

/// The SHA-1 digest of a byte sequence, as the `sha1` crate computes it.
pub uninterp spec fn sha1_digest(data: Seq<u8>) -> Seq<u8>;

/// Runs `Sha1::new`, `Digest::update` and `Digest::finalize` of the `sha1`
/// crate over `data`. Trusted: the twenty bytes that come back are the digest
/// of exactly these bytes, the same for the same input.
#[verifier::external_body]
pub(crate) fn sha1(data: &[u8]) -> (digest: [u8; 20])
    ensures
        digest@ == sha1_digest(data@),
{
    let mut hasher = Sha1::new();
    hasher.update(data);
    hasher.finalize().into()
}

/// SHA-1 of `slice`. Hashing cannot fail, so the result is always `Ok`.
pub fn get_hash(slice: &[u8]) -> (r: Result<[u8; 20], ParseError>)
    ensures
        r matches Ok(digest) && digest@ == sha1_digest(slice@),
{
    Ok(sha1(slice))
}

/// Whether `data` hashes to `expected`.
pub fn hash_matches(data: &[u8], expected: &[u8; 20]) -> (r: bool)
    ensures
        r == (sha1_digest(data@) == expected@),
{
    let digest = sha1(data);
    let mut i: usize = 0;
    while i < 20
        invariant
            i <= 20,
            digest@ == sha1_digest(data@),
            forall|j: int| 0 <= j < i ==> digest@[j] == expected@[j],
        decreases 20 - i,
    {
        if digest[i] != expected[i] {
            return false;
        }
        i = i + 1;
    }
    assert(digest@ =~= expected@);
    true
}

} // verus!
