//! Sources of randomness and time.  Both are inherently nondeterministic,
//! so the trusted declarations below promise nothing about the values they
//! return; every function that uses them states what holds of any outcome.

use vstd::prelude::*;

verus! {

/// Relies on rand::random::<u64>: one draw from the thread-local generator.
/// The value is random, so nothing is promised of it.
#[verifier::external_body]
pub(crate) fn random_u64() -> u64 {
    rand::random()
}

/// A 64-bit order id drawn at random.  Ids are random draws, so distinct
/// calls are overwhelmingly likely, but not guaranteed, to differ.
pub fn gen_order_id() -> u64 {
    random_u64()
}

/// Relies on std::time::SystemTime::now: the wall clock, read as whole
/// milliseconds since the Unix epoch.  The clock is outside the program,
/// so nothing is promised of the value.
#[verifier::external_body]
pub fn get_time() -> u64 {
    match std::time::SystemTime::now().duration_since(std::time::SystemTime::UNIX_EPOCH) {
        Ok(d) => d.as_millis() as u64,
        Err(_) => 0,
    }
}

} // verus!
