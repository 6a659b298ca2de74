//! The cryptographically secure source of session identifiers.
//!
//! Identifiers are drawn from the operating system's entropy pool through
//! `ring`.  Nothing can be promised about the bytes that come back beyond
//! their number, so callers treat every outcome as possible; a failure of
//! the entropy source is surfaced as an error, never a panic.

use vstd::prelude::*;

verus! {

#[verifier::external_type_specification]
#[verifier::external_body]
pub struct ExSystemRandom(ring::rand::SystemRandom);

/// Relies on `ring::rand::SystemRandom::new`: constructing the handle always
/// succeeds and performs no I/O.
#[verifier::external_body]
pub fn new_system_random() -> ring::rand::SystemRandom {
    ring::rand::SystemRandom::new()
}

/// Relies on `ring::rand::generate::<[u8; 16]>`: on success the array is
/// filled from the system's secure random source.  The value depends on that
/// source, so nothing is stated about it beyond its length.
#[verifier::external_body]
pub fn random_bytes_16(rng: &ring::rand::SystemRandom) -> (r: Option<Vec<u8>>)
    ensures
        r matches Some(v) ==> v@.len() == 16,
{
    match ring::rand::generate::<[u8; 16]>(rng) {
        Ok(value) => Some(value.expose().to_vec()),
        Err(_) => None,
    }
}

} // verus!
