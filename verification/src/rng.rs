//! Random values for query ids and probe jitter.

use vstd::prelude::*;

verus! {

/// Relies on rand::random: a query id drawn from the thread's generator.
/// Nothing can be promised of a random value.
#[verifier::external_body]
pub fn random_u16() -> u16 {
    rand::random::<u16>()
}

/// Relies on rand::random_range over `0..=max`: a jitter delay within the
/// configured bound. The range is never empty, so the call cannot panic.
#[verifier::external_body]
pub fn random_delay(max: u32) -> (r: u32)
    ensures
        r <= max,
{
    rand::random_range(0..=max)
}

} // verus!
