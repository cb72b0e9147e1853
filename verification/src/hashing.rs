//! The 40-bit hash of a path string.
//!
//! The hash function itself belongs to the `hash40` crate. The library only
//! names what it returns.
use vstd::prelude::*;

use crate::engines::Hash40;
use crate::HASH_MASK;

verus! {

/// What `hash40::Hash40::new` returns for `text`.
pub uninterp spec fn hash40_of(text: Seq<char>) -> u64;

/// Calls `hash40::Hash40::new`, which takes a checksum of the lowercased
/// bytes of the string and puts the length of the string, cut to eight bits,
/// above the 32 bits of the checksum. The contract names the result and
/// claims that it fits 40 bits.
#[verifier::external_body]
pub(crate) fn hash40_word(text: &str) -> (word: u64)
    ensures
        word == hash40_of(text@),
        word <= HASH_MASK,
{
    hash40::Hash40::new(text).0
}

/// Anything that stands for a hash: a hash itself, or a string to be hashed.
pub trait Hashable {
    /// The hash that the value stands for.
    spec fn hashed(&self) -> Hash40;

    fn to_hash(&self) -> (hash: Hash40)
        ensures
            hash == self.hashed(),
    ;
}

impl Hashable for Hash40 {
    open spec fn hashed(&self) -> Hash40 {
        *self
    }

    fn to_hash(&self) -> (hash: Hash40) {
        *self
    }
}

impl Hashable for &str {
    open spec fn hashed(&self) -> Hash40 {
        Hash40(hash40_of(self@))
    }

    fn to_hash(&self) -> (hash: Hash40) {
        Hash40(hash40_word(self))
    }
}

/// The hash of a string.
pub fn hash_of(text: &str) -> (hash: Hash40)
    ensures
        hash == Hash40(hash40_of(text@)),
        hash.is_valid(),
{
    Hash40(hash40_word(text))
}

} // verus!
