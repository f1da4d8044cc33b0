//! Durations of the timer that the tasks of the device sleep on.

use embassy_time::Duration;
use vstd::prelude::*;

verus! {

/// The duration type of the timer. The contracts see nothing inside a value
/// of it.
#[verifier::external_type_specification]
#[verifier::external_body]
pub struct ExDuration(embassy_time::Duration);

/// The duration that `Duration::from_millis` makes of a number of
/// milliseconds.
pub uninterp spec fn millis_duration(millis: u64) -> Duration;

/// The duration that `Duration::from_secs` makes of a number of seconds.
pub uninterp spec fn secs_duration(secs: u64) -> Duration;

/// `embassy_time::Duration::from_millis` turns milliseconds into timer
/// ticks, rounding up. The ticks are computed in 64 bits and must fit: at
/// every tick rate that the timer offers they do for any count of
/// milliseconds up to `u32::MAX`.
pub assume_specification[ embassy_time::Duration::from_millis ](millis: u64) -> (duration:
    Duration)
    requires
        millis <= u32::MAX,
    ensures
        duration == millis_duration(millis),
;

/// `embassy_time::Duration::from_secs` turns seconds into timer ticks. The
/// ticks are computed in 64 bits and must fit: at every tick rate that the
/// timer offers they do for any count of seconds up to a thousand million.
pub assume_specification[ embassy_time::Duration::from_secs ](secs: u64) -> (duration: Duration)
    requires
        secs <= 1_000_000_000,
    ensures
        duration == secs_duration(secs),
;

} // verus!
