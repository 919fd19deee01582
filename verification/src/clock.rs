//! Time as the engine sees it: nanoseconds on a clock that never goes back.

use vstd::prelude::*;

verus! {

pub const MILLISECOND: u64 = 1_000_000;

pub const SECOND: u64 = 1_000_000_000;

/// `std::time::Instant`: a reading of the machine's monotonic clock.
#[verifier::external_type_specification]
#[verifier::external_body]
pub struct ExInstant(std::time::Instant);

/// `Instant::now`. Nothing is claimed of the reading.
pub assume_specification[ std::time::Instant::now ]() -> (r: std::time::Instant)
;

/// `Instant::elapsed`, in nanoseconds, counted no further than a `u64` can.
/// Nothing is claimed of the reading.
#[verifier::external_body]
fn nanos_since(start: &std::time::Instant) -> (r: u64) {
    u64::try_from(start.elapsed().as_nanos()).unwrap_or(u64::MAX)
}

/// A clock that counts from when it was started.
pub struct Clock {
    start: std::time::Instant,
}

/// Whether the machine's clock may read `nanos` nanoseconds since `start`.
pub closed spec fn may_read(start: std::time::Instant, nanos: u64) -> bool {
    call_ensures(nanos_since, (&start,), nanos)
}

impl Clock {
    /// The reading that this clock counts from.
    pub closed spec fn origin(&self) -> std::time::Instant {
        self.start
    }

    /// A clock that counts from the present reading of the machine's clock.
    pub fn start() -> (r: Self)
        ensures
            call_ensures(std::time::Instant::now, (), r.origin()),
    {
        Clock { start: std::time::Instant::now() }
    }

    /// Nanoseconds since the clock was started.
    pub fn now(&self) -> (r: u64)
        ensures
            may_read(self.origin(), r),
    {
        nanos_since(&self.start)
    }
}

/// How long before `now` the moment `then` was; nothing, where it is later.
pub open spec fn since(now: u64, then: u64) -> nat {
    if now >= then {
        (now - then) as nat
    } else {
        0
    }
}

pub fn elapsed(now: u64, then: u64) -> (r: u64)
    ensures
        r == since(now, then),
{
    if now >= then {
        now - then
    } else {
        0
    }
}

} // verus!
