//! Clocks that count milliseconds, so that time can be advanced by hand.

use std::time::Instant;
use vstd::prelude::*;

verus! {

/// A time in milliseconds since the clock started.
#[derive(Debug, Clone, Copy, PartialEq, Eq, PartialOrd, Ord, Structural)]
pub struct Tick(pub u64);

/// The milliseconds from `since` to `now`; none, where `since` is later.
pub open spec fn elapsed(now: Tick, since: Tick) -> nat {
    if now.0 < since.0 {
        0
    } else {
        (now.0 - since.0) as nat
    }
}

/// Something that tells the time.
pub trait ClockSource {
    fn now(&self) -> Tick;
}

/// `std::time::Instant`, a point in time of the system's steady clock.
#[verifier::external_type_specification]
#[verifier::external_body]
pub struct ExInstant(Instant);

/// The current time, by `std::time::Instant::now`. Nothing is claimed of it.
#[verifier::external_body]
pub(crate) fn instant_now() -> (start: Instant) {
    Instant::now()
}

/// The milliseconds since `start`, by `std::time::Instant::elapsed`. Nothing is
/// claimed of them: they depend on the machine.
#[verifier::external_body]
fn millis_since(start: &Instant) -> (millis: u64) {
    start.elapsed().as_millis() as u64
}

/// The system's clock, in milliseconds since it was made.
pub struct SystemClock {
    start: Instant,
}

impl SystemClock {
    pub fn new() -> (clock: Self) {
        Self { start: instant_now() }
    }
}

impl Default for SystemClock {
    fn default() -> (clock: Self) {
        Self::new()
    }
}

impl ClockSource for SystemClock {
    fn now(&self) -> (t: Tick) {
        Tick(millis_since(&self.start))
    }
}

/// A clock that starts at zero and moves only when told to.
pub struct FakeClock {
    now: u64,
}

impl FakeClock {
    /// What the clock shows.
    pub closed spec fn shows(self) -> Tick {
        Tick(self.now)
    }

    pub fn new() -> (clock: Self)
        ensures
            clock.shows() == Tick(0),
    {
        Self { now: 0 }
    }

    pub fn advance(&mut self, millis: u64)
        requires
            old(self).shows().0 + millis <= u64::MAX,
        ensures
            final(self).shows() == Tick((old(self).shows().0 + millis) as u64),
    {
        self.now = self.now + millis;
    }
}

impl Default for FakeClock {
    fn default() -> (clock: Self)
        ensures
            clock.shows() == Tick(0),
    {
        Self::new()
    }
}

impl ClockSource for FakeClock {
    fn now(&self) -> (t: Tick)
        ensures
            t == self.shows(),
    {
        Tick(self.now)
    }
}

/// The time that has passed is what lies between two readings, and none where the
/// later one is not later.
pub proof fn law_time_passes(since: Tick, millis: u64)
    requires
        since.0 + millis <= u64::MAX,
    ensures
        elapsed(Tick((since.0 + millis) as u64), since) == millis,
        elapsed(since, Tick((since.0 + millis) as u64)) == 0,
{
}

} // verus!
