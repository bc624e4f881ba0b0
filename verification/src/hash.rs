//! Block hashes: 32 opaque bytes with equality, and the digest that makes them.

use vstd::prelude::*;
use vstd::std_specs::cmp::PartialEqSpecImpl;

verus! {

/// The BLAKE2b digest of 32 bytes of `data`.
pub uninterp spec fn blake2_256_digest(data: Seq<u8>) -> Seq<u8>;

/// Calls `sp_runtime::traits::Hash::hash` of `BlakeTwo256`, which hashes
/// `data` with BLAKE2b to 32 bytes. Nothing is proved of it: the contract
/// only gives the digest its name, as a function of the bytes alone.
#[verifier::external_body]
fn blake2_256(data: &[u8]) -> (digest: [u8; 32])
    ensures
        digest@ == blake2_256_digest(data@),
{
    <sp_runtime::traits::BlakeTwo256 as sp_runtime::traits::Hash>::hash(data).0
}

/// The hash that names a block.
#[derive(Clone, Copy, Debug, Hash)]
pub struct BlockHash {
    pub bytes: [u8; 32],
}

impl BlockHash {
    /// Wraps 32 bytes as a block hash.
    pub fn new(bytes: [u8; 32]) -> (hash: BlockHash)
        ensures
            hash.bytes == bytes,
    {
        BlockHash { bytes }
    }

    /// The hash of `data`: its BLAKE2b digest of 32 bytes.
    pub fn of(data: &[u8]) -> (hash: BlockHash)
        ensures
            hash.bytes@ == blake2_256_digest(data@),
    {
        BlockHash { bytes: blake2_256(data) }
    }

    /// The 32 bytes of the hash.
    pub fn as_bytes(&self) -> (bytes: &[u8; 32])
        ensures
            *bytes == self.bytes,
    {
        &self.bytes
    }
}

impl PartialEq for BlockHash {
    fn eq(&self, other: &BlockHash) -> (equal: bool) {
        let mut i: usize = 0;
        while i < 32
            invariant
                i <= 32,
                forall|j: int| 0 <= j < i ==> self.bytes@[j] == other.bytes@[j],
            decreases 32 - i,
        {
            if self.bytes[i] != other.bytes[i] {
                return false;
            }
            i += 1;
        }
        proof {
            assert(self.bytes@ =~= other.bytes@);
            assert(self.bytes == other.bytes);
        }
        true
    }
}

impl Eq for BlockHash {}

impl PartialEqSpecImpl for BlockHash {
    open spec fn obeys_eq_spec() -> bool {
        true
    }

    open spec fn eq_spec(&self, other: &BlockHash) -> bool {
        *self == *other
    }
}

} // verus!
