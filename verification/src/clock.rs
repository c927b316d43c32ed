//! Lengths of time, the time of day, and the clocks that give them.

use vstd::prelude::*;

verus! {

/// A length of time, to the nanosecond.
#[derive(Clone, Copy, Debug, PartialEq, Eq, PartialOrd, Ord, Structural)]
pub struct Span {
    secs: u64,
    nanos: u32,
}

impl View for Span {
    type V = nat;

    /// The length in nanoseconds.
    closed spec fn view(&self) -> nat {
        self.secs as nat * 1_000_000_000 + self.nanos as nat
    }
}

impl Span {
    /// The nanoseconds are the part below a second.
    #[verifier::type_invariant]
    spec fn well_formed(self) -> bool {
        self.nanos < 1_000_000_000
    }

    /// A span of whole seconds.
    pub fn from_secs(secs: u64) -> (s: Span)
        ensures
            s@ == secs as nat * 1_000_000_000,
    {
        Span { secs, nanos: 0 }
    }

    /// A span of milliseconds.
    pub fn from_millis(millis: u64) -> (s: Span)
        ensures
            s@ == millis as nat * 1_000_000,
    {
        Span { secs: millis / 1000, nanos: (millis % 1000) as u32 * 1_000_000 }
    }

    /// The whole seconds of the span.
    pub fn as_secs(&self) -> (n: u64)
        ensures
            n == self@ / 1_000_000_000,
    {
        proof {
            use_type_invariant(self);
        }
        self.secs
    }

    /// What is left of the span beyond its whole seconds, in nanoseconds.
    pub fn subsec_nanos(&self) -> (n: u32)
        ensures
            n == self@ % 1_000_000_000,
    {
        proof {
            use_type_invariant(self);
        }
        self.nanos
    }

    /// The whole span in nanoseconds.
    pub fn as_nanos(&self) -> (n: u128)
        ensures
            n == self@,
    {
        self.secs as u128 * 1_000_000_000 + self.nanos as u128
    }
}

/// A point in time that a monotonic clock gave.
#[verifier::external_type_specification]
#[verifier::external_body]
pub struct ExInstant(std::time::Instant);

/// `std::time::Instant::now`: the current reading of a monotonic clock. Nothing
/// is claimed of it.
#[verifier::external_body]
pub(crate) fn start_clock() -> (origin: std::time::Instant) {
    std::time::Instant::now()
}

/// `std::time::Instant::elapsed`: the time since `origin`. It depends on when the
/// call is made, so nothing is claimed of it.
#[verifier::external_body]
pub(crate) fn time_since(origin: &std::time::Instant) -> (elapsed: Span) {
    let elapsed: std::time::Duration = origin.elapsed();
    Span { secs: elapsed.as_secs(), nanos: elapsed.subsec_nanos() }
}

/// A time of day, to the minute.
#[derive(Clone, Copy, Debug, PartialEq, Eq, Structural)]
pub struct TimeOfDay {
    pub hour: u8,
    pub minute: u8,
}

impl TimeOfDay {
    /// An hour below 24 and a minute below 60.
    pub open spec fn well_formed(self) -> bool {
        self.hour < 24 && self.minute < 60
    }

    /// The minutes since midnight.
    pub open spec fn minutes(self) -> nat {
        (self.hour * 60 + self.minute) as nat
    }
}

/// `chrono::Local::now` with `Timelike::hour` and `Timelike::minute`: the time of
/// day in the machine's time zone. It depends on when the call is made; what
/// holds of every outcome is that it is a time of day.
#[verifier::external_body]
pub(crate) fn local_time() -> (now: TimeOfDay)
    ensures
        now.well_formed(),
{
    let now = chrono::Local::now();
    TimeOfDay {
        hour: chrono::Timelike::hour(&now) as u8,
        minute: chrono::Timelike::minute(&now) as u8,
    }
}

/// Whether a time of day is one that the local clock gave.
pub closed spec fn is_clock_reading(now: TimeOfDay) -> bool {
    call_ensures(local_time, (), now)
}

/// The time of day that the local clock shows.
pub fn time_of_day() -> (now: TimeOfDay)
    ensures
        is_clock_reading(now),
        now.well_formed(),
{
    local_time()
}

/// What counts as a reading of the local clock came out of the call that reads it,
/// and out of nothing else: no fixed time of day is one.
proof fn readings_come_from_the_clock(now: TimeOfDay)
    ensures
        is_clock_reading(now) <==> call_ensures(local_time, (), now),
        is_clock_reading(now) ==> now.well_formed(),
{
}

} // verus!
