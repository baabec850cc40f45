//! Spans of time, the clock on the wall, and the flag that says stop.

use vstd::prelude::*;

use std::sync::atomic::AtomicBool;
use std::sync::Arc;

verus! {

/// Nanoseconds in a second.
pub const SECOND: u128 = 1_000_000_000;

/// Nanoseconds in a millisecond.
pub const MILLISECOND: u128 = 1_000_000;

/// A span of time, to the nanosecond.
#[derive(Clone, Copy, PartialEq, Eq, Debug, Structural)]
pub struct Duration {
    secs: u64,
    nanos: u32,
}

impl Duration {
    #[verifier::type_invariant]
    spec fn normal(self) -> bool {
        self.nanos < SECOND
    }

    /// The span in nanoseconds.
    pub closed spec fn total(self) -> nat {
        (self.secs * SECOND + self.nanos) as nat
    }

    /// The longest span there is.
    pub open spec fn longest() -> nat {
        (u64::MAX * SECOND + SECOND - 1) as nat
    }

    /// A span of whole seconds.
    pub fn from_secs(secs: u64) -> (span: Duration)
        ensures
            span.total() == secs * SECOND,
    {
        Duration { secs, nanos: 0 }
    }

    /// A span of milliseconds.
    pub fn from_millis(millis: u64) -> (span: Duration)
        ensures
            span.total() == millis * MILLISECOND,
    {
        Duration { secs: millis / 1000, nanos: (millis % 1000) as u32 * 1_000_000 }
    }

    /// A span of nanoseconds.
    pub fn from_nanos(nanos: u128) -> (span: Duration)
        requires
            nanos <= Duration::longest(),
        ensures
            span.total() == nanos,
    {
        Duration { secs: (nanos / SECOND) as u64, nanos: (nanos % SECOND) as u32 }
    }

    /// The span in nanoseconds.
    pub fn as_nanos(self) -> (nanos: u128)
        ensures
            nanos == self.total(),
            nanos <= Duration::longest(),
    {
        proof {
            use_type_invariant(self);
        }
        self.secs as u128 * SECOND + self.nanos as u128
    }

    /// The span in whole milliseconds.
    pub fn as_millis(self) -> (millis: u128)
        ensures
            millis == self.total() / (MILLISECOND as nat),
    {
        self.as_nanos() / MILLISECOND
    }
}

impl Default for Duration {
    /// No time at all.
    fn default() -> (span: Duration)
        ensures
            span.total() == 0,
    {
        Duration { secs: 0, nanos: 0 }
    }
}

/// [`std::time::Instant`], a moment on the machine's clock.
#[verifier::external_type_specification]
#[verifier::external_body]
pub struct ExInstant(std::time::Instant);

/// [`std::time::Instant::now`] reads the machine's clock. Nothing is claimed of
/// what it says.
#[verifier::external_body]
pub(crate) fn now() -> (moment: std::time::Instant) {
    std::time::Instant::now()
}

/// [`std::time::Instant::elapsed`], in nanoseconds. Nothing is claimed of how
/// long it was, beyond that it is a span of time.
#[verifier::external_body]
fn nanos_since(start: &std::time::Instant) -> (nanos: u128)
    ensures
        nanos <= Duration::longest(),
{
    start.elapsed().as_nanos()
}

/// What the machine's clock said at some time since a moment. Only [`since`] makes
/// one, so that it was read from the clock.
#[derive(Clone, Copy)]
pub struct ClockReading {
    elapsed: Duration,
    start: Ghost<std::time::Instant>,
}

/// What the flag that says stop was at some time. Only [`is_raised`] makes one, so
/// that it was read from the flag.
#[derive(Clone, Copy)]
pub struct FlagReading {
    up: bool,
    flag: Ghost<Arc<AtomicBool>>,
}

impl ClockReading {
    /// How long it was since the moment, in nanoseconds.
    pub closed spec fn nanos(self) -> nat {
        self.elapsed.total()
    }

    /// The moment.
    pub closed spec fn start(self) -> std::time::Instant {
        self.start@
    }

    /// How long it was since the moment.
    pub fn elapsed(&self) -> (span: Duration)
        ensures
            span.total() == self.nanos(),
    {
        self.elapsed
    }
}

/// Whether a span was read from the clock, as the time since a moment.
pub open spec fn clocked(span: Duration, start: std::time::Instant) -> bool {
    exists|reading: ClockReading|
        #[trigger] reading.start() == start && reading.nanos() == span.total()
}

impl FlagReading {
    /// Whether the flag was up.
    pub closed spec fn up(self) -> bool {
        self.up
    }

    /// The flag.
    pub closed spec fn flag(self) -> Arc<AtomicBool> {
        self.flag@
    }

    /// Whether the flag was up.
    pub fn is_up(&self) -> (up: bool)
        ensures
            up == self.up(),
    {
        self.up
    }
}

/// Reads how long it is since a moment. Nothing is claimed of how long it was: the
/// machine's clock says so.
pub(crate) fn since(start: &std::time::Instant) -> (reading: ClockReading)
    ensures
        reading.start() == *start,
{
    ClockReading { elapsed: Duration::from_nanos(nanos_since(start)), start: Ghost(*start) }
}

/// Reads whether the flag that says stop is up. Nothing is claimed of the answer:
/// another thread may have raised it at any time.
pub(crate) fn is_raised(flag: &Arc<AtomicBool>) -> (reading: FlagReading)
    ensures
        reading.flag() == *flag,
{
    FlagReading { up: flag.load(std::sync::atomic::Ordering::Relaxed), flag: Ghost(*flag) }
}

} // verus!
