//! Conversions between types that hold the same value in different shapes.

use vstd::prelude::*;
use crate::hash::BlockHash;

verus! {

/// Making a value of this type from a value of `T`.
pub trait FromHack<T>: Sized {
    /// What `from` makes of `x`.
    spec fn from_spec(x: T) -> Self;

    /// Converts `x`.
    fn from(x: T) -> (converted: Self)
        ensures
            converted == Self::from_spec(x),
    ;
}

/// Turning a value of this type into a value of `T`.
pub trait IntoHack<T>: Sized {
    /// What `into_p` makes of the value.
    spec fn into_spec(self) -> T;

    /// Converts the value.
    fn into_p(self) -> (converted: T)
        ensures
            converted == self.into_spec(),
    ;
}

impl<A, B: FromHack<A>> IntoHack<B> for A {
    open spec fn into_spec(self) -> B {
        B::from_spec(self)
    }

    fn into_p(self) -> (converted: B) {
        B::from(self)
    }
}

impl FromHack<[u8; 32]> for BlockHash {
    open spec fn from_spec(x: [u8; 32]) -> BlockHash {
        BlockHash { bytes: x }
    }

    fn from(x: [u8; 32]) -> (converted: BlockHash) {
        BlockHash::new(x)
    }
}

impl FromHack<BlockHash> for [u8; 32] {
    open spec fn from_spec(x: BlockHash) -> [u8; 32] {
        x.bytes
    }

    fn from(x: BlockHash) -> (converted: [u8; 32]) {
        x.bytes
    }
}

/// Converting a hash to its bytes and back gives the hash, and the other way
/// round gives the bytes.
pub proof fn lemma_hash_round_trip(hash: BlockHash, bytes: [u8; 32])
    ensures
        <BlockHash as FromHack<[u8; 32]>>::from_spec(
            <[u8; 32] as FromHack<BlockHash>>::from_spec(hash),
        ) == hash,
        <[u8; 32] as FromHack<BlockHash>>::from_spec(
            <BlockHash as FromHack<[u8; 32]>>::from_spec(bytes),
        ) == bytes,
{
}

} // verus!
