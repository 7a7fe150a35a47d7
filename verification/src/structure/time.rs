use vstd::prelude::*;

verus! {

/// A point on a monotonic clock, in nanoseconds since an origin that the
/// caller chooses. The cache orders its changes by these.
#[derive(PartialEq, Eq, Structural, Clone, Copy, Debug, PartialOrd, Ord, Hash)]
pub struct Instant {
    pub nanos: u64,
}

impl Instant {
    /// The instant `nanos` nanoseconds after the clock's start.
    pub fn from_nanos(nanos: u64) -> (r: Instant)
        ensures
            r.nanos == nanos,
    {
        Instant { nanos }
    }
}

/// A wall-clock time as the wire carries it: seconds and a binary fraction.
#[derive(PartialEq, Eq, Structural, Clone, Copy, Debug)]
pub struct Timestamp {
    pub seconds: i32,
    pub fraction: u32,
}

impl Timestamp {
    /// The value that stands for no valid time.
    pub open spec fn spec_invalid() -> Timestamp {
        Timestamp { seconds: -1i32, fraction: 0xFFFF_FFFFu32 }
    }

    /// The value that stands for "no valid time".
    #[verifier::when_used_as_spec(spec_invalid)]
    pub fn invalid() -> (r: Timestamp)
        ensures
            r == Self::spec_invalid(),
    {
        Timestamp { seconds: -1, fraction: 0xFFFF_FFFF }
    }

    /// The time `seconds` seconds and `nanos` nanoseconds after the epoch.
    /// The fraction counts units of 2^-32 seconds, rounded down.
    pub fn from_seconds_and_nanos(seconds: i32, nanos: u32) -> (r: Timestamp)
        requires
            nanos < 1_000_000_000,
        ensures
            r.seconds == seconds,
            r.fraction == (nanos * 0x1_0000_0000) / 1_000_000_000,
    {
        let scaled: u64 = (nanos as u64) * 0x1_0000_0000;
        Timestamp { seconds, fraction: (scaled / 1_000_000_000) as u32 }
    }
}

/// A span of time: seconds and nanoseconds.
#[derive(PartialEq, Eq, Structural, Clone, Copy, Debug)]
pub struct Duration {
    pub seconds: u64,
    pub nanos: u32,
}

impl Duration {
    /// A span of whole seconds.
    pub fn from_secs(seconds: u64) -> (r: Duration)
        ensures
            r == (Duration { seconds, nanos: 0 }),
    {
        Duration { seconds, nanos: 0 }
    }

    /// A span of milliseconds.
    pub fn from_millis(millis: u64) -> (r: Duration)
        ensures
            r.seconds == millis / 1000,
            r.nanos == (millis % 1000) * 1_000_000,
    {
        let rest: u64 = millis % 1000;
        Duration { seconds: millis / 1000, nanos: (rest * 1_000_000) as u32 }
    }

    /// A span of nanoseconds.
    pub fn from_nanos(nanos: u64) -> (r: Duration)
        ensures
            r.seconds == nanos / 1_000_000_000,
            r.nanos == nanos % 1_000_000_000,
    {
        Duration { seconds: nanos / 1_000_000_000, nanos: (nanos % 1_000_000_000) as u32 }
    }
}

} // verus!
