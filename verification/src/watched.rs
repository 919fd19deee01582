//! A stream that is used against the clock.

use vstd::prelude::*;

use crate::clock::{Clock, MILLISECOND};
use crate::error::{IoError, IoErrorKind, IoErrorView};
use crate::transport::Stream;

verus! {

/// A stream that answers only until `window` nanoseconds are over on `clock`.
///
/// Every read is given what is left of the window as its timeout, so that one
/// that goes on piece by piece does not last any longer than one that hangs.
pub struct Watched<'a, S: Stream> {
    pub stream: &'a S,
    pub clock: Clock,
    pub window: u64,
}

pub open spec fn out_of_time() -> IoErrorView {
    IoErrorView { kind: IoErrorKind::Other, message: "the peer took too long"@ }
}

/// What is left of the window at `now`, in milliseconds, a part of one counting
/// as a whole; nothing once the window is over.
pub open spec fn left_at(window: u64, now: u64) -> Option<u64> {
    if now >= window {
        None
    } else {
        Some(((window - now + 999_999) / 1_000_000) as u64)
    }
}

/// What is left of the window at `now`.
pub fn time_left(window: u64, now: u64) -> (r: Option<u64>)
    ensures
        r == left_at(window, now),
        r matches Some(ms) ==> 0 < ms <= (window + 999_999) / 1_000_000,
{
    if now >= window {
        None
    } else {
        let left: u64 = window - now;
        let whole: u64 = left / MILLISECOND;
        if left % MILLISECOND == 0 {
            Some(whole)
        } else {
            Some(whole + 1)
        }
    }
}

/// The clock of `w` may read `now`.
pub open spec fn reads<S: Stream>(w: &Watched<S>, now: u64) -> bool {
    call_ensures(Clock::now, (&w.clock,), now)
}

fn too_late() -> (r: IoError)
    ensures
        r@ == out_of_time(),
{
    IoError::new(IoErrorKind::Other, "the peer took too long")
}

impl<'a, S: Stream> Watched<'a, S> {
    /// Whether the window is still open; if not, it is an error.
    pub fn check(&self) -> (r: Result<(), IoError>)
        ensures
            exists|now: u64| #[trigger]
                reads(self, now) && match left_at(self.window, now) {
                    None => r matches Err(e) && e@ == out_of_time(),
                    Some(_) => r is Ok,
                },
    {
        let now: u64 = self.clock.now();
        assert(reads(self, now));
        match time_left(self.window, now) {
            None => Err(too_late()),
            Some(_) => Ok(()),
        }
    }
}

impl<'a, S: Stream> Stream for Watched<'a, S> {
    fn read(&self, max: usize) -> (r: Result<Vec<u8>, IoError>)
        ensures
            exists|now: u64| #[trigger]
                reads(self, now) && match left_at(self.window, now) {
                    None => r matches Err(e) && e@ == out_of_time(),
                    Some(ms) => (exists|set: Result<(), IoError>|
                        call_ensures(S::set_read_timeout, (self.stream, Some(ms)), set))
                        && call_ensures(S::read, (self.stream, max), r),
                },
    {
        let now: u64 = self.clock.now();
        assert(reads(self, now));
        match time_left(self.window, now) {
            None => Err(too_late()),
            Some(ms) => {
                let set = self.stream.set_read_timeout(Some(ms));
                assert(call_ensures(S::set_read_timeout, (self.stream, Some(ms)), set));
                let r = self.stream.read(max);
                assert(call_ensures(S::read, (self.stream, max), r));
                r
            },
        }
    }

    fn write(&self, buf: &[u8]) -> (r: Result<usize, IoError>)
        ensures
            exists|now: u64| #[trigger]
                reads(self, now) && match left_at(self.window, now) {
                    None => r matches Err(e) && e@ == out_of_time(),
                    Some(_) => call_ensures(S::write, (self.stream, buf), r),
                },
    {
        let now: u64 = self.clock.now();
        assert(reads(self, now));
        match time_left(self.window, now) {
            None => Err(too_late()),
            Some(_) => self.stream.write(buf),
        }
    }

    fn close(&self)
        ensures
            call_ensures(S::close, (self.stream,), ()),
    {
        self.stream.close();
    }

    fn remote_label(&self) -> (r: String)
        ensures
            call_ensures(S::remote_label, (self.stream,), r),
    {
        self.stream.remote_label()
    }

    fn set_read_timeout(&self, millis: Option<u64>) -> (r: Result<(), IoError>)
        ensures
            call_ensures(S::set_read_timeout, (self.stream, millis), r),
    {
        self.stream.set_read_timeout(millis)
    }
}

} // verus!
