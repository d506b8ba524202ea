//! Interning of lexemes into 16-bit keys.
use std::collections::hash_map::DefaultHasher;
use std::hash::{Hash, Hasher};
use vstd::prelude::*;
use vstd::std_specs::hash::DefaultHasherAdditionalSpecFns;

verus! {

/// The hasher state after hashing the text `s` into a hasher whose state was `h`.
pub uninterp spec fn str_hash_state(h: Seq<Seq<u8>>, s: Seq<char>) -> Seq<Seq<u8>>;

/// Relies on `<str as Hash>::hash`: what it feeds a `DefaultHasher` depends on
/// the hasher's state and the text alone.
#[verifier::external_body]
fn hash_str_into(s: &str, h: &mut DefaultHasher)
    ensures
        final(h)@ == str_hash_state(old(h)@, s@),
{
    s.hash(h);
}

/// The interned key of a lexeme: the low 16 bits of its `DefaultHasher` digest.
pub open spec fn intern(s: Seq<char>) -> i16 {
    DefaultHasher::spec_finish(str_hash_state(Seq::empty(), s)) as i16
}

/// Interns a lexeme: equal texts always give equal keys. Different texts may
/// share a key; the 16-bit width leaves that risk open.
pub fn s_hash(string: &str) -> (r: i16)
    ensures
        r == intern(string@),
{
    let mut hasher = DefaultHasher::new();
    hash_str_into(string, &mut hasher);
    let hash_value = hasher.finish() as i16;
    hash_value
}

} // verus!
