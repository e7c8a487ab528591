//! Durations and clock readings: `Duration`, wall-clock `SystemTime` and
//! monotonic `Instant`, with checked and saturating arithmetic.
use vstd::prelude::*;

verus! {

/// Nanoseconds per second.
pub const NANOS_PER_SEC: u32 = 1_000_000_000;

/// A span of time: whole seconds plus a sub-second nanosecond count.
#[derive(Clone, Copy, PartialEq, Eq, Debug, Structural)]
pub struct Duration {
    pub secs: u64,
    pub nanos: u32,
}

/// The largest number of nanoseconds a `Duration` can hold.
pub open spec fn max_total_nanos() -> int {
    u64::MAX as int * NANOS_PER_SEC as int + (NANOS_PER_SEC as int - 1)
}

impl Duration {
    /// Whether the sub-second part is below one second.
    pub open spec fn wf(&self) -> bool {
        self.nanos < NANOS_PER_SEC
    }

    /// The span in nanoseconds.
    pub open spec fn total(&self) -> int {
        self.secs as int * NANOS_PER_SEC as int + self.nanos as int
    }

    /// The zero span.
    pub fn zero() -> (d: Duration)
        ensures
            d.wf(),
            d.total() == 0,
    {
        Duration { secs: 0, nanos: 0 }
    }

    /// `secs` seconds plus `nanos` nanoseconds; nanoseconds of a second or
    /// more carry into the seconds.
    pub fn new(secs: u64, nanos: u32) -> (d: Duration)
        requires
            secs as int + nanos as int / NANOS_PER_SEC as int <= u64::MAX,
        ensures
            d.wf(),
            d.total() == secs as int * NANOS_PER_SEC as int + nanos as int,
    {
        let extra: u64 = (nanos / NANOS_PER_SEC) as u64;
        let rest: u32 = nanos % NANOS_PER_SEC;
        Duration { secs: secs + extra, nanos: rest }
    }

    /// `secs` whole seconds.
    pub fn from_secs(secs: u64) -> (d: Duration)
        ensures
            d.wf(),
            d.secs == secs && d.nanos == 0,
    {
        Duration { secs, nanos: 0 }
    }

    /// The whole seconds.
    pub fn as_secs(&self) -> (s: u64)
        ensures
            s == self.secs,
    {
        self.secs
    }

    /// The sub-second part in nanoseconds.
    pub fn subsec_nanos(&self) -> (n: u32)
        ensures
            n == self.nanos,
    {
        self.nanos
    }

    /// The sub-second part in whole microseconds.
    pub fn subsec_micros(&self) -> (n: u32)
        ensures
            n == self.nanos / 1000,
    {
        self.nanos / 1000
    }

    /// `self + other`, or `None` if the seconds overflow.
    pub fn checked_add(&self, other: Duration) -> (r: Option<Duration>)
        requires
            self.wf(),
            other.wf(),
        ensures
            match r {
                Some(d) => d.wf() && d.total() == self.total() + other.total(),
                None => self.total() + other.total() > max_total_nanos(),
            },
    {
        let mut nanos: u32 = self.nanos + other.nanos;
        let mut carry: u64 = 0;
        if nanos >= NANOS_PER_SEC {
            nanos = nanos - NANOS_PER_SEC;
            carry = 1;
        }
        match self.secs.checked_add(other.secs) {
            None => None,
            Some(s) => match s.checked_add(carry) {
                None => None,
                Some(s2) => Some(Duration { secs: s2, nanos }),
            },
        }
    }

    /// `self - other`, or `None` if the result would be negative.
    pub fn checked_sub(&self, other: Duration) -> (r: Option<Duration>)
        requires
            self.wf(),
            other.wf(),
        ensures
            match r {
                Some(d) => d.wf() && d.total() == self.total() - other.total(),
                None => self.total() < other.total(),
            },
    {
        if self.secs < other.secs {
            return None;
        }
        let mut secs: u64 = self.secs - other.secs;
        let nanos: u32;
        if self.nanos >= other.nanos {
            nanos = self.nanos - other.nanos;
        } else {
            if secs == 0 {
                return None;
            }
            secs = secs - 1;
            nanos = self.nanos + NANOS_PER_SEC - other.nanos;
        }
        Some(Duration { secs, nanos })
    }

    /// `self - other`, or zero if the result would be negative.
    pub fn saturating_sub(&self, other: Duration) -> (r: Duration)
        requires
            self.wf(),
            other.wf(),
        ensures
            r.wf(),
            r.total() == if self.total() >= other.total() { self.total() - other.total() } else { 0 },
    {
        match self.checked_sub(other) {
            Some(d) => d,
            None => Duration::zero(),
        }
    }
}

/// A measurement of the system wall clock, as a span since the Unix epoch.
#[derive(Clone, Copy, PartialEq, Eq, Debug, Structural)]
pub struct SystemTime {
    pub since_epoch: Duration,
}

/// Error returned when a `SystemTime` is earlier than expected.
#[derive(Clone, Copy, PartialEq, Eq, Debug, Structural)]
pub struct SystemTimeError {
    pub behind: Duration,
}

impl SystemTimeError {
    /// The amount of time by which the comparison failed.
    pub fn duration(&self) -> (d: Duration)
        ensures
            d == self.behind,
    {
        self.behind
    }

    /// The error's description.
    pub fn description(&self) -> (s: &'static str)
        ensures
            s@ == "second time provided was later than self"@,
    {
        "second time provided was later than self"
    }
}

/// The Unix epoch — the start of `SystemTime`.
pub fn unix_epoch() -> (t: SystemTime)
    ensures
        t.since_epoch.wf(),
        t.since_epoch.total() == 0,
{
    SystemTime { since_epoch: Duration::zero() }
}

impl SystemTime {
    /// Whether the stored span is well formed.
    pub open spec fn wf(&self) -> bool {
        self.since_epoch.wf()
    }

    /// The time a clock reading of `secs` seconds and `nsec` nanoseconds
    /// denotes (as `clock_gettime` reports it).
    pub fn from_clock(secs: u64, nsec: u32) -> (t: SystemTime)
        requires
            secs as int + nsec as int / NANOS_PER_SEC as int <= u64::MAX,
        ensures
            t.wf(),
            t.since_epoch.total() == secs as int * NANOS_PER_SEC as int + nsec as int,
    {
        SystemTime { since_epoch: Duration::new(secs, nsec) }
    }

    /// Duration elapsed from `earlier` to `self`; if `earlier` is later, the
    /// error says by how much.
    pub fn duration_since(&self, earlier: SystemTime) -> (r: Result<Duration, SystemTimeError>)
        requires
            self.wf(),
            earlier.wf(),
        ensures
            match r {
                Ok(d) => d.wf() && self.since_epoch.total() >= earlier.since_epoch.total()
                    && d.total() == self.since_epoch.total() - earlier.since_epoch.total(),
                Err(e) => e.behind.wf() && self.since_epoch.total() < earlier.since_epoch.total()
                    && e.behind.total() == earlier.since_epoch.total() - self.since_epoch.total(),
            },
    {
        match self.since_epoch.checked_sub(earlier.since_epoch) {
            Some(d) => Ok(d),
            None => Err(SystemTimeError { behind: earlier.since_epoch.saturating_sub(self.since_epoch) }),
        }
    }

    /// `self + d`, or `None` on overflow.
    pub fn checked_add(&self, d: Duration) -> (r: Option<SystemTime>)
        requires
            self.wf(),
            d.wf(),
        ensures
            match r {
                Some(t) => t.wf() && t.since_epoch.total() == self.since_epoch.total() + d.total(),
                None => self.since_epoch.total() + d.total() > max_total_nanos(),
            },
    {
        match self.since_epoch.checked_add(d) {
            Some(x) => Some(SystemTime { since_epoch: x }),
            None => None,
        }
    }

    /// `self - d`, or `None` if that is before the epoch.
    pub fn checked_sub(&self, d: Duration) -> (r: Option<SystemTime>)
        requires
            self.wf(),
            d.wf(),
        ensures
            match r {
                Some(t) => t.wf() && t.since_epoch.total() == self.since_epoch.total() - d.total(),
                None => self.since_epoch.total() < d.total(),
            },
    {
        match self.since_epoch.checked_sub(d) {
            Some(x) => Some(SystemTime { since_epoch: x }),
            None => None,
        }
    }
}

/// A monotonically non-decreasing clock reading.
#[derive(Clone, Copy, PartialEq, Eq, Debug, Structural)]
pub struct Instant {
    pub reading: Duration,
}

impl Instant {
    /// Whether the stored reading is well formed.
    pub open spec fn wf(&self) -> bool {
        self.reading.wf()
    }

    /// The instant a monotonic clock reading denotes.
    pub fn from_clock(secs: u64, nsec: u32) -> (t: Instant)
        requires
            secs as int + nsec as int / NANOS_PER_SEC as int <= u64::MAX,
        ensures
            t.wf(),
            t.reading.total() == secs as int * NANOS_PER_SEC as int + nsec as int,
    {
        Instant { reading: Duration::new(secs, nsec) }
    }

    /// Duration since `earlier`, saturating at zero.
    pub fn duration_since(&self, earlier: Instant) -> (d: Duration)
        requires
            self.wf(),
            earlier.wf(),
        ensures
            d.wf(),
            d.total() == if self.reading.total() >= earlier.reading.total() {
                self.reading.total() - earlier.reading.total()
            } else {
                0
            },
    {
        match self.reading.checked_sub(earlier.reading) {
            Some(d) => d,
            None => Duration::zero(),
        }
    }

    /// The same as `duration_since`.
    pub fn saturating_duration_since(&self, earlier: Instant) -> (d: Duration)
        requires
            self.wf(),
            earlier.wf(),
        ensures
            d.wf(),
            d.total() == if self.reading.total() >= earlier.reading.total() {
                self.reading.total() - earlier.reading.total()
            } else {
                0
            },
    {
        self.duration_since(earlier)
    }

    /// Duration since `earlier`, or `None` if `earlier` is later.
    pub fn checked_duration_since(&self, earlier: Instant) -> (r: Option<Duration>)
        requires
            self.wf(),
            earlier.wf(),
        ensures
            match r {
                Some(d) => d.wf() && d.total() == self.reading.total() - earlier.reading.total(),
                None => self.reading.total() < earlier.reading.total(),
            },
    {
        self.reading.checked_sub(earlier.reading)
    }
}

/// Adding a span to a time and measuring from the starting time gives the
/// span back.
pub proof fn lemma_add_then_since(t: SystemTime, d: Duration, u: SystemTime)
    requires
        t.wf(),
        d.wf(),
        u.wf(),
        u.since_epoch.total() == t.since_epoch.total() + d.total(),
    ensures
        u.since_epoch.total() >= t.since_epoch.total(),
        u.since_epoch.total() - t.since_epoch.total() == d.total(),
{
    assert(d.total() >= 0);
}

} // verus!
