//! Wall-clock time, taken from `std::time`.

use vstd::prelude::*;

verus! {

/// A point in time of the monotonic clock.
#[verifier::external_type_specification]
#[verifier::external_body]
pub struct ExInstant(std::time::Instant);

/// `Instant::now`: the present point in time. Nothing is known of it.
pub assume_specification[ std::time::Instant::now ]() -> (now: std::time::Instant)
;

/// `Instant::elapsed`: the time that has passed since the instant. Nothing
/// is known of it.
pub assume_specification[ std::time::Instant::elapsed ](
    since: &std::time::Instant,
) -> (passed: core::time::Duration)
;

/// `Duration::as_micros`: the whole microseconds of the duration. Nothing
/// is known of their number.
pub assume_specification[ core::time::Duration::as_micros ](
    duration: &core::time::Duration,
) -> (micros: u128)
;

/// The microseconds that have passed since `since`, capped at `u64::MAX`.
/// The clock decides their number, so nothing is promised of it.
pub(crate) fn elapsed_micros(since: &std::time::Instant) -> (micros: u64) {
    capped_micros(since.elapsed().as_micros())
}

/// A number of microseconds as it fits into 64 bits: the number itself, or
/// `u64::MAX` where it is larger.
pub open spec fn capped(micros: nat) -> nat {
    if micros > u64::MAX {
        u64::MAX as nat
    } else {
        micros
    }
}

/// Caps a number of microseconds at `u64::MAX`.
pub fn capped_micros(micros: u128) -> (fitted: u64)
    ensures
        fitted == capped(micros as nat),
{
    if micros > u64::MAX as u128 {
        u64::MAX
    } else {
        micros as u64
    }
}

} // verus!
