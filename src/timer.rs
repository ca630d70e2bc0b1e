//! Wall-clock measurement of a single call, through `std::time::Instant`.
use std::time::Instant;
use vstd::prelude::*;

verus! {

#[verifier::external_type_specification]
#[verifier::external_body]
pub struct ExInstant(Instant);

/// Relies on `std::time::Instant::now`: the current instant of a monotonic clock.
#[verifier::external_body]
pub(crate) fn start_timer() -> (r: Instant) {
    Instant::now()
}

/// Relies on `std::time::Instant::elapsed`, read in whole nanoseconds: the time
/// since `start`, which depends on the clock and so is not stated.
#[verifier::external_body]
pub(crate) fn elapsed_nanos(start: &Instant) -> (r: u128) {
    start.elapsed().as_nanos()
}

} // verus!
