//! When a storage node last heard from the cluster. One that has not for too
//! long stops serving, since it may have been given up for dead.

use crate::clock::instant_now;
use std::time::Instant;
use vstd::prelude::*;

verus! {

/// The nanoseconds from `last` to `now`; none, where `last` is later.
pub open spec fn gap(last: u128, now: u128) -> nat {
    if now < last {
        0
    } else {
        (now - last) as nat
    }
}

/// Whether more than `threshold` nanoseconds have passed.
pub fn stale(last: u128, now: u128, threshold: u128) -> (b: bool)
    ensures
        b == (gap(last, now) > threshold),
{
    now.saturating_sub(last) > threshold
}

/// The nanoseconds since `start`, by `std::time::Instant::elapsed`. Nothing is
/// claimed of them: they depend on the machine.
#[verifier::external_body]
fn nanos_since(start: &Instant) -> (nanos: u128) {
    start.elapsed().as_nanos()
}

/// The time of the last contact. A node that has just started counts as having
/// had one.
pub struct Heartbeat {
    start: Instant,
    last: u128,
}

impl Heartbeat {
    /// The last contact, in nanoseconds since the start.
    pub closed spec fn last_contact(self) -> u128 {
        self.last
    }

    /// The heartbeat after a contact at the given time. It counts from the same
    /// start.
    pub closed spec fn contacted(self, now: u128) -> Heartbeat {
        Heartbeat { last: now, ..self }
    }

    pub fn new() -> (heartbeat: Self)
        ensures
            heartbeat.last_contact() == 0,
    {
        Self { start: instant_now(), last: 0 }
    }

    /// There was contact just now: nothing changes but the time of the last one,
    /// which is what the clock shows.
    pub fn record(&mut self)
        ensures
            exists|now: u128|
                *final(self) == #[trigger] old(self).contacted(now) && final(self).last_contact()
                    == now,
    {
        let now: u128 = nanos_since(&self.start);
        self.record_at(now);
    }

    /// There was contact at the given time, in nanoseconds since the start.
    pub fn record_at(&mut self, now: u128)
        ensures
            *final(self) == old(self).contacted(now),
            final(self).last_contact() == now,
    {
        self.last = now;
    }

    /// Whether the last contact was more than `threshold` nanoseconds ago.
    pub fn is_stale(&self, threshold: u128) -> (b: bool)
        ensures
            exists|now: u128| b == (#[trigger] gap(self.last_contact(), now) > threshold),
    {
        let now: u128 = nanos_since(&self.start);
        self.is_stale_at(now, threshold)
    }

    /// Whether, at the given time, the last contact was more than `threshold`
    /// nanoseconds ago.
    pub fn is_stale_at(&self, now: u128, threshold: u128) -> (b: bool)
        ensures
            b == (gap(self.last_contact(), now) > threshold),
    {
        stale(self.last, now, threshold)
    }
}

impl Default for Heartbeat {
    fn default() -> (heartbeat: Self)
        ensures
            heartbeat.last_contact() == 0,
    {
        Self::new()
    }
}

/// A contact refreshes: right after it nothing is stale, and it becomes stale
/// only once more than the threshold has passed.
pub proof fn law_contact_refreshes(contact: u128, now: u128, threshold: u128)
    requires
        contact <= now,
    ensures
        gap(contact, contact) <= threshold,
        gap(contact, now) > threshold <==> now - contact > threshold,
{
}

} // verus!
