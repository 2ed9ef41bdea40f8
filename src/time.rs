//! Clocks. A timestamp is a number of milliseconds since an origin that the
//! clock chooses; only differences between timestamps of one clock matter.

use std::sync::atomic::AtomicU64;
use std::sync::atomic::Ordering;
use std::time::Duration;
use std::time::Instant;
use vstd::prelude::*;

verus! {

#[verifier::external_type_specification]
#[verifier::external_body]
pub struct ExInstant(Instant);

/// Relies on `Instant::now`: reads the monotonic clock (nothing is promised
/// of the value).
pub assume_specification[ Instant::now ]() -> Instant;

/// Relies on `Instant::elapsed`: the time since the instant, saturating at
/// zero (nothing is promised of the value).
pub assume_specification[ Instant::elapsed ](instant: &Instant) -> Duration;

/// Relies on `Duration::as_millis`: the whole milliseconds of a duration
/// (nothing is promised of the value).
pub assume_specification[ Duration::as_millis ](duration: &Duration) -> u128;

/// A source of the current time, in milliseconds.
pub trait Time {
    fn get_time(&self) -> u64;
}

/// The system's monotonic clock, counted from the moment the clock was made.
pub struct Realtime {
    origin: Instant,
}

impl Realtime {
    pub fn new() -> Realtime {
        Realtime { origin: Instant::now() }
    }
}

impl Time for Realtime {
    /// Milliseconds since the clock was made, saturating at `u64::MAX`.
    fn get_time(&self) -> u64 {
        let elapsed: u128 = self.origin.elapsed().as_millis();
        if elapsed > u64::MAX as u128 {
            u64::MAX
        } else {
            elapsed as u64
        }
    }
}

/// A clock that stands still until told to jump: it reads `start` plus the
/// offset that was set last. The offset is an atomic so that one task may
/// move the clock while another reads it.
pub struct TestTime {
    start: u64,
    seconds_passed: AtomicU64,
}

/// `start + secs` seconds, in milliseconds, saturating at `u64::MAX`.
pub open spec fn offset_time(start: u64, secs: u64) -> int {
    let t = start + secs * 1000;
    if t > u64::MAX {
        u64::MAX as int
    } else {
        t
    }
}

impl TestTime {
    /// A clock that reads `start` until it is moved.
    pub fn new(start: u64) -> (r: TestTime)
        ensures
            r.start() == start,
    {
        TestTime { start, seconds_passed: AtomicU64::new(0) }
    }

    pub closed spec fn start(&self) -> u64 {
        self.start
    }

    /// Sets the clock to `secs` seconds after its start. The offset replaces
    /// any earlier one rather than adding to it.
    pub fn add_secs(&self, secs: u64) {
        self.seconds_passed.store(secs, Ordering::SeqCst);
    }

    /// What the clock reads once its offset is `secs` seconds.
    pub fn time_at(&self, secs: u64) -> (r: u64)
        ensures
            r == offset_time(self.start(), secs),
    {
        let room: u64 = (u64::MAX - self.start) / 1000;
        if secs > room {
            assert(secs * 1000 > u64::MAX - self.start) by (nonlinear_arith)
                requires
                    secs > room,
                    room == (u64::MAX - self.start) / 1000,
            ;
            u64::MAX
        } else {
            assert(secs * 1000 <= u64::MAX - self.start) by (nonlinear_arith)
                requires
                    secs <= room,
                    room == (u64::MAX - self.start) / 1000,
            ;
            self.start + secs * 1000
        }
    }
}

impl Time for TestTime {
    fn get_time(&self) -> u64 {
        let secs: u64 = self.seconds_passed.load(Ordering::SeqCst);
        self.time_at(secs)
    }
}

} // verus!
