//! Hashing with the standard library's default hasher.

use vstd::prelude::*;
use std::collections::hash_map::DefaultHasher;
use std::hash::Hasher;
use vstd::std_specs::hash::DefaultHasherAdditionalSpecFns;

verus! {

/// The writes a hasher holds after a string is hashed into it, from the
/// writes it held before and the string.
pub uninterp spec fn str_hash_state(before: Seq<Seq<u8>>, s: Seq<char>) -> Seq<Seq<u8>>;

/// What a fresh default hasher gives for a string.
pub open spec fn std_string_hash(s: Seq<char>) -> u64 {
    DefaultHasher::spec_finish(str_hash_state(Seq::empty(), s))
}

/// Hashes `s` into `state` with `<str as std::hash::Hash>::hash`.
/// Claimed: what the hasher holds afterwards depends only on what it held
/// before and on `s`; nothing is claimed of the bytes written.
#[verifier::external_body]
fn hash_str_into(s: &str, state: &mut DefaultHasher)
    ensures
        final(state)@ == str_hash_state(old(state)@, s@),
{
    std::hash::Hash::hash(s, state);
}

/// Hashes `s` with a fresh default hasher.
pub(crate) fn default_hash_str(s: &str) -> (h: u64)
    ensures
        h == std_string_hash(s@),
{
    let mut hasher = DefaultHasher::new();
    hash_str_into(s, &mut hasher);
    hasher.finish()
}

} // verus!
