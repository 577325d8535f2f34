//! Durations and points in time, as plain numbers of nanoseconds.

use vstd::prelude::*;

verus! {

/// Nanoseconds in one second.
pub const NANOS_PER_SEC: u128 = 1_000_000_000;

/// Nanoseconds in one millisecond.
pub const NANOS_PER_MILLI: u128 = 1_000_000;

/// The longest duration: the largest whole number of seconds that fits 64 bits,
/// and the nanoseconds short of one second more.
pub const MAX_NANOS: u128 = 18_446_744_073_709_551_615_999_999_999;

/// A span of time, with nanosecond precision.
#[derive(Clone, Copy, Debug, PartialEq, Eq, Structural)]
pub struct Duration {
    nanos: u128,
}

impl View for Duration {
    type V = nat;

    closed spec fn view(&self) -> nat {
        self.nanos as nat
    }
}

impl Duration {
    #[verifier::type_invariant]
    spec fn in_range(self) -> bool {
        self.nanos <= MAX_NANOS
    }

    pub fn zero() -> (d: Duration)
        ensures
            d@ == 0,
    {
        Duration { nanos: 0 }
    }

    pub fn from_secs(secs: u64) -> (d: Duration)
        ensures
            d@ == secs * NANOS_PER_SEC,
    {
        Duration { nanos: secs as u128 * NANOS_PER_SEC }
    }

    pub fn from_millis(millis: u64) -> (d: Duration)
        ensures
            d@ == millis * NANOS_PER_MILLI,
    {
        Duration { nanos: millis as u128 * NANOS_PER_MILLI }
    }

    pub fn from_nanos(nanos: u64) -> (d: Duration)
        ensures
            d@ == nanos,
    {
        Duration { nanos: nanos as u128 }
    }

    /// A duration of whole seconds and a fraction given in nanoseconds.
    pub fn new(secs: u64, nanos: u32) -> (d: Duration)
        requires
            nanos < NANOS_PER_SEC,
        ensures
            d@ == secs * NANOS_PER_SEC + nanos,
    {
        Duration { nanos: secs as u128 * NANOS_PER_SEC + nanos as u128 }
    }

    pub fn as_nanos(&self) -> (nanos: u128)
        ensures
            nanos == self@,
            nanos <= MAX_NANOS,
    {
        proof {
            use_type_invariant(self);
        }
        self.nanos
    }

    pub fn as_millis(&self) -> (millis: u128)
        ensures
            millis == self@ / NANOS_PER_MILLI as nat,
    {
        self.nanos / NANOS_PER_MILLI
    }

    pub fn as_secs(&self) -> (secs: u64)
        ensures
            secs == self@ / NANOS_PER_SEC as nat,
    {
        proof {
            use_type_invariant(self);
        }
        (self.nanos / NANOS_PER_SEC) as u64
    }

    /// The nanoseconds beyond the last whole second.
    pub fn subsec_nanos(&self) -> (nanos: u32)
        ensures
            nanos == self@ % NANOS_PER_SEC as nat,
    {
        (self.nanos % NANOS_PER_SEC) as u32
    }

    /// Whether this duration is at least as long as the other.
    pub fn at_least(&self, other: Duration) -> (yes: bool)
        ensures
            yes == (self@ >= other@),
    {
        self.nanos >= other.nanos
    }

    /// The shorter of two durations.
    pub fn min(self, other: Duration) -> (d: Duration)
        ensures
            d@ == (if self@ <= other@ {
                self@
            } else {
                other@
            }),
            d == self || d == other,
    {
        if self.nanos <= other.nanos {
            self
        } else {
            other
        }
    }

    /// Twice this duration, or the limit where that is shorter.
    pub fn doubled_up_to(self, limit: Duration) -> (d: Duration)
        ensures
            d@ == (if 2 * self@ <= limit@ {
                2 * self@
            } else {
                limit@
            }),
    {
        proof {
            use_type_invariant(&self);
            use_type_invariant(&limit);
        }
        if self.nanos <= limit.nanos && self.nanos <= limit.nanos - self.nanos {
            Duration { nanos: self.nanos + self.nanos }
        } else {
            limit
        }
    }

    /// This duration, `factor` times over.
    pub fn times(self, factor: u32) -> (d: Duration)
        requires
            self@ * factor <= MAX_NANOS,
        ensures
            d@ == self@ * factor,
    {
        proof {
            use_type_invariant(&self);
        }
        assert(self.nanos * factor as u128 == self@ * factor) by (nonlinear_arith)
            requires
                self@ == self.nanos,
        ;
        Duration { nanos: self.nanos * factor as u128 }
    }
}

/// A reading of a monotonic clock: nanoseconds since an origin that stays fixed
/// while the process runs.
#[derive(Clone, Copy, Debug, PartialEq, Eq, Structural)]
pub struct Instant {
    pub nanos: u64,
}

impl Instant {
    /// Nanoseconds from an earlier reading to this one; zero where the other is later.
    pub open spec fn since(self, earlier: Instant) -> nat {
        if self.nanos >= earlier.nanos {
            (self.nanos - earlier.nanos) as nat
        } else {
            0
        }
    }

    /// The time from an earlier reading to this one; zero where the other is later.
    pub fn duration_since(&self, earlier: Instant) -> (d: Duration)
        ensures
            d@ == self.since(earlier),
    {
        if self.nanos >= earlier.nanos {
            Duration::from_nanos(self.nanos - earlier.nanos)
        } else {
            Duration::zero()
        }
    }
}

/// A point in calendar time: nanoseconds since the Unix epoch, negative before it.
#[derive(Clone, Copy, Debug, PartialEq, Eq, Structural)]
pub struct SystemTime {
    pub unix_nanos: i128,
}

impl View for SystemTime {
    type V = SystemTime;

    open spec fn view(&self) -> SystemTime {
        *self
    }
}

/// Reads the machine's wall clock through `std::time::SystemTime::now`: the
/// nanoseconds since the Unix epoch as `Ok`, or, on a clock set before the epoch,
/// the nanoseconds until it as `Err`. Nothing is claimed of the reading beyond the
/// range that `std::time::Duration` has.
#[verifier::external_body]
fn wall_clock() -> (reading: Result<u128, u128>)
    ensures
        match reading {
            Ok(n) => n <= MAX_NANOS,
            Err(n) => n <= MAX_NANOS,
        },
{
    match std::time::SystemTime::now().duration_since(std::time::UNIX_EPOCH) {
        Ok(after) => Ok(after.as_nanos()),
        Err(before) => Err(before.duration().as_nanos()),
    }
}

impl SystemTime {
    /// The current time by the machine's wall clock.
    pub fn now() -> (t: SystemTime)
        ensures
            -MAX_NANOS <= t.unix_nanos <= MAX_NANOS,
    {
        SystemTime::at_reading(wall_clock())
    }

    /// The time at which a clock reads so many nanoseconds since the Unix epoch, or, as
    /// `Err`, so many until it.
    pub fn at_reading(reading: Result<u128, u128>) -> (t: SystemTime)
        requires
            reading matches Ok(n) ==> n <= MAX_NANOS,
            reading matches Err(n) ==> n <= MAX_NANOS,
        ensures
            t.unix_nanos == (match reading {
                Ok(n) => n as int,
                Err(n) => -(n as int),
            }),
    {
        match reading {
            Ok(n) => SystemTime { unix_nanos: n as i128 },
            Err(n) => SystemTime { unix_nanos: -(n as i128) },
        }
    }
}

/// Whole milliseconds since the Unix epoch, zero before it, kept in 64 bits.
pub open spec fn unix_millis(t: SystemTime) -> i64 {
    if t.unix_nanos < 0 {
        0i64
    } else {
        (t.unix_nanos as int / 1_000_000) as i64
    }
}

/// Whole milliseconds since the Unix epoch, zero before it, kept in 64 bits.
pub fn systemtime_to_millis(t: SystemTime) -> (millis: i64)
    ensures
        millis == unix_millis(t),
{
    if t.unix_nanos < 0 {
        0
    } else {
        #[verifier::truncate]
        ((t.unix_nanos / 1_000_000) as i64)
    }
}

/// The point in time that lies the given milliseconds after the Unix epoch; a negative
/// count stands for the epoch itself.
pub open spec fn time_of_millis(millis: i64) -> SystemTime {
    SystemTime {
        unix_nanos: if millis < 0 {
            0i128
        } else {
            (millis * 1_000_000) as i128
        },
    }
}

/// The point in time that lies the given milliseconds after the Unix epoch; a negative
/// count stands for the epoch itself.
pub fn millis_to_systemtime(millis: i64) -> (t: SystemTime)
    ensures
        t == time_of_millis(millis),
{
    if millis < 0 {
        SystemTime { unix_nanos: 0 }
    } else {
        SystemTime { unix_nanos: millis as i128 * 1_000_000 }
    }
}

/// Milliseconds survive the trip through a point in time; negative counts become zero.
pub proof fn millis_survive_systemtime(millis: i64)
    ensures
        unix_millis(time_of_millis(millis)) == (if millis < 0 {
            0
        } else {
            millis as int
        }),
{
}

/// A reading is as long after an earlier one as was gone by between the two, and not after a
/// later one at all.
pub proof fn time_between_readings(earlier: Instant, later: Instant)
    requires
        earlier.nanos <= later.nanos,
    ensures
        earlier.nanos + later.since(earlier) == later.nanos,
        earlier.since(later) == 0,
{
}

/// Milliseconds count the whole ones that have gone by since the Unix epoch, none before it; the
/// time of a count is at its beginning.
pub proof fn millis_are_counted_from_the_epoch(t: SystemTime, millis: i64)
    requires
        t.unix_nanos < i64::MAX * 1_000_000,
    ensures
        t.unix_nanos >= 0 ==> unix_millis(t) * 1_000_000 <= t.unix_nanos < (unix_millis(t) + 1)
            * 1_000_000,
        t.unix_nanos < 0 ==> unix_millis(t) == 0,
        millis >= 0 ==> time_of_millis(millis).unix_nanos == millis * 1_000_000,
        millis < 0 ==> time_of_millis(millis).unix_nanos == 0,
{
}

} // verus!
