//! The local observation clock.
use std::time::Instant;
use vstd::prelude::*;

use crate::market_data::LocalObservationTime;

verus! {

/// A source of local observation times.
pub trait ObservationClock {
    /// Whether a time is a reading of the clock. A clock that says no more of its readings
    /// rules none out.
    open spec fn reads(&self, time: LocalObservationTime) -> bool {
        true
    }

    /// The time of the call.
    fn now(&self) -> (time: LocalObservationTime)
        ensures
            self.reads(time),
    ;
}

#[verifier::external_type_specification]
#[verifier::external_body]
pub struct ExInstant(std::time::Instant);

/// `std::time::Instant::now`: the time of the call, of which nothing is known.
#[verifier::external_body]
fn instant_now() -> (instant: Instant) {
    Instant::now()
}

/// `std::time::Instant::elapsed` in nanoseconds: how long ago an instant was, of which
/// nothing is known.
#[verifier::external_body]
fn nanos_since(origin: &Instant) -> (nanos: u128) {
    origin.elapsed().as_nanos()
}

/// A clock that starts at zero and never goes back.
#[derive(Clone, Copy, Debug)]
pub struct MonotonicClock {
    origin: Instant,
}

/// The observation time of a number of nanoseconds; what is beyond the range stays at
/// its end.
pub fn observation_time(nanos: u128) -> (time: LocalObservationTime)
    ensures
        time == LocalObservationTime(
            if nanos <= u64::MAX {
                nanos as u64
            } else {
                u64::MAX
            },
        ),
{
    if nanos <= u64::MAX as u128 {
        LocalObservationTime::from_nanos_since_start(nanos as u64)
    } else {
        LocalObservationTime::from_nanos_since_start(u64::MAX)
    }
}

impl MonotonicClock {
    /// Starts the clock. When that was is not known to a caller.
    pub fn start() -> (clock: Self) {
        MonotonicClock { origin: instant_now() }
    }
}

impl ObservationClock for MonotonicClock {
    /// Nothing is known of when the clock is read, so no time is ruled out.
    closed spec fn reads(&self, time: LocalObservationTime) -> bool {
        true
    }

    fn now(&self) -> (time: LocalObservationTime) {
        observation_time(nanos_since(&self.origin))
    }
}

} // verus!
