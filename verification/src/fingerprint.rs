//! Content fingerprints, by which two snapshots are told apart.

use crate::trusted::digest::{sha256, sha256_digest};
use vstd::prelude::*;

verus! {

/// The fingerprint of a snapshot: the SHA-256 digest of all its bytes.
pub fn generate_hash(content: &[u8]) -> (hash: [u8; 32])
    ensures
        hash@ == sha256(content@),
{
    sha256_digest(content)
}

/// Whether two fingerprints are equal, byte for byte.
pub fn same_hash(left: &[u8; 32], right: &[u8; 32]) -> (same: bool)
    ensures
        same == (left@ == right@),
{
    let mut i: usize = 0;
    while i < 32
        invariant
            i <= 32,
            forall|k: int| 0 <= k < i ==> left@[k] == right@[k],
        decreases 32 - i,
    {
        if left[i] != right[i] {
            return false;
        }
        i += 1;
    }
    assert(left@ =~= right@);
    true
}

/// Whether two contents have the same fingerprint.
pub fn same_fingerprint(left: &[u8], right: &[u8]) -> (same: bool)
    ensures
        same == (sha256(left@) == sha256(right@)),
{
    let left_hash = generate_hash(left);
    let right_hash = generate_hash(right);
    same_hash(&left_hash, &right_hash)
}

} // verus!
