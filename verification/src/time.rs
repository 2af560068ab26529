//! Instants and spans of time with nanosecond precision.
//!
//! `Timestamp` is a UTC instant counted in nanoseconds since the Unix epoch,
//! limited to the range that a `chrono::DateTime<Utc>` can represent.
//! `TimeDelta` is a signed span limited to `i64` milliseconds, and
//! `Duration` is an unsigned span as `std::time::Duration` has it.
use vstd::prelude::*;

verus! {

/// Nanoseconds in one second.
pub const NANOS_PER_SEC: i128 = 1_000_000_000;

/// Nanoseconds in one millisecond.
pub const NANOS_PER_MILLI: i128 = 1_000_000;

/// Earliest representable instant (chrono's `DateTime::<Utc>::MIN_UTC`), in nanoseconds.
pub const MIN_NANOS: i128 = -8_334_601_228_800_000_000_000;

/// Latest representable instant: +262142-12-31T23:59:59.999999999Z, in nanoseconds.
pub const MAX_NANOS: i128 = 8_210_266_876_799_999_999_999;

/// Longest representable span: `i64::MAX` milliseconds, in nanoseconds.
pub const MAX_DELTA_NANOS: i128 = 9_223_372_036_854_775_807_000_000;

/// Nanoseconds in the longest `std::time::Duration`.
pub const MAX_STD_DURATION_NANOS: u128 = 18_446_744_073_709_551_615_999_999_999;

/// Earliest representable instant, in whole seconds.
pub const MIN_SECS: i64 = -8_334_601_228_800;

/// Latest representable instant, in whole seconds.
pub const MAX_SECS: i64 = 8_210_266_876_799;

/// Division that rounds toward zero, as Rust's `/` does on signed integers.
pub open spec fn trunc_div(a: int, b: int) -> int {
    if a >= 0 { a / b } else { -((-a) / b) }
}

/// Is `n` a representable instant, in nanoseconds?
pub open spec fn instant_in_range(n: int) -> bool {
    MIN_NANOS <= n <= MAX_NANOS
}

/// `n` moved to the nearest end of the representable range where it lies beyond one.
pub open spec fn clamp_instant(n: int) -> int {
    if n < MIN_NANOS {
        MIN_NANOS as int
    } else if n > MAX_NANOS {
        MAX_NANOS as int
    } else {
        n
    }
}

/// Is `n` a representable signed span, in nanoseconds?
pub open spec fn delta_in_range(n: int) -> bool {
    -MAX_DELTA_NANOS <= n <= MAX_DELTA_NANOS
}

/// A UTC instant, counted in nanoseconds since 1970-01-01T00:00:00Z.
#[derive(Clone, Copy, Debug, PartialEq, Eq, Structural, PartialOrd, Ord, Hash)]
pub struct Timestamp {
    pub nanos: i128,
}

/// A signed span of time in nanoseconds.
#[derive(Clone, Copy, Debug, PartialEq, Eq, Structural, PartialOrd, Ord, Hash)]
pub struct TimeDelta {
    pub nanos: i128,
}

/// An unsigned span of time: whole seconds and the nanoseconds below one second.
#[derive(Clone, Copy, Debug, PartialEq, Eq, Structural, PartialOrd, Ord, Hash)]
pub struct Duration {
    pub secs: u64,
    pub subsec_nanos: u32,
}

impl Timestamp {
    /// Is this a representable instant?
    pub open spec fn wf(self) -> bool {
        instant_in_range(self.nanos as int)
    }

    /// The instant `secs` seconds and `nsecs` nanoseconds after the epoch,
    /// or `None` if it is out of range or `nsecs` is not below one second.
    pub fn from_timestamp(secs: i64, nsecs: u32) -> (r: Option<Timestamp>)
        ensures
            r is Some <==> (nsecs < 1_000_000_000 && instant_in_range(
                secs * 1_000_000_000 + nsecs,
            )),
            r matches Some(t) ==> t.nanos == secs * 1_000_000_000 + nsecs,
    {
        if nsecs >= 1_000_000_000 || secs < MIN_SECS || secs > MAX_SECS {
            return None;
        }
        let n: i128 = (secs as i128) * NANOS_PER_SEC + (nsecs as i128);
        Some(Timestamp { nanos: n })
    }

    /// The instant `millis` milliseconds after the epoch, or `None` if it is out of range.
    pub fn from_timestamp_millis(millis: i64) -> (r: Option<Timestamp>)
        ensures
            r is Some <==> instant_in_range(millis * 1_000_000),
            r matches Some(t) ==> t.nanos == millis * 1_000_000,
    {
        let n: i128 = (millis as i128) * NANOS_PER_MILLI;
        if n < MIN_NANOS || n > MAX_NANOS {
            None
        } else {
            Some(Timestamp { nanos: n })
        }
    }

    /// The instant `secs` seconds and `subsec` nanoseconds before (where
    /// `before` holds) or after the Unix epoch, moved to the nearest end of
    /// the representable range where it lies beyond one.
    pub fn from_unix_offset(before: bool, secs: u64, subsec: u32) -> (t: Timestamp)
        requires
            subsec < 1_000_000_000,
        ensures
            t.wf(),
            t.nanos == clamp_instant(
                if before { -(secs * 1_000_000_000 + subsec) } else { secs * 1_000_000_000 + subsec },
            ),
    {
        let magnitude: i128 = (secs as i128) * NANOS_PER_SEC + (subsec as i128);
        let n: i128 = if before { -magnitude } else { magnitude };
        if n < MIN_NANOS {
            Timestamp { nanos: MIN_NANOS }
        } else if n > MAX_NANOS {
            Timestamp { nanos: MAX_NANOS }
        } else {
            Timestamp { nanos: n }
        }
    }

    /// The current wall-clock instant. A reading outside the representable
    /// range (which the system clock gives only when it is set hundreds of
    /// thousands of years away) is moved to the nearest end of the range.
    pub fn now() -> (t: Timestamp)
        ensures
            t.wf(),
    {
        let clock = system_time_now();
        let offset: (bool, u64, u32) = unix_offset(&clock);
        Timestamp::from_unix_offset(offset.0, offset.1, offset.2)
    }

    /// Whole milliseconds since the epoch, rounded toward the past.
    pub fn timestamp_millis(&self) -> (r: i64)
        requires
            self.wf(),
        ensures
            r == self.nanos / 1_000_000,
    {
        let q: i128 = self.nanos / NANOS_PER_MILLI;
        let r: i128 = self.nanos % NANOS_PER_MILLI;
        assert(self.nanos == q * NANOS_PER_MILLI + r && -NANOS_PER_MILLI < r < NANOS_PER_MILLI)
            by (nonlinear_arith)
            requires
                q == trunc_div(self.nanos as int, NANOS_PER_MILLI as int),
                r == self.nanos - q * NANOS_PER_MILLI,
        ;
        if r < 0 {
            (q - 1) as i64
        } else {
            q as i64
        }
    }

    /// The instant `d` later (earlier if `d` is negative).
    pub fn add(self, d: TimeDelta) -> (r: Timestamp)
        requires
            instant_in_range(self.nanos + d.nanos),
        ensures
            r.nanos == self.nanos + d.nanos,
    {
        Timestamp { nanos: self.nanos + d.nanos }
    }

    /// The instant `d` earlier (later if `d` is negative).
    pub fn sub(self, d: TimeDelta) -> (r: Timestamp)
        requires
            instant_in_range(self.nanos - d.nanos),
        ensures
            r.nanos == self.nanos - d.nanos,
    {
        Timestamp { nanos: self.nanos - d.nanos }
    }

    /// The span from `earlier` to `self`.
    pub fn signed_duration_since(self, earlier: Timestamp) -> (r: TimeDelta)
        requires
            self.wf(),
            earlier.wf(),
        ensures
            r.nanos == self.nanos - earlier.nanos,
            r.wf(),
    {
        TimeDelta { nanos: self.nanos - earlier.nanos }
    }
}

impl TimeDelta {
    /// Is this a representable span?
    pub open spec fn wf(self) -> bool {
        delta_in_range(self.nanos as int)
    }

    /// A span of `seconds` seconds.
    pub fn seconds(seconds: i64) -> (r: TimeDelta)
        requires
            -(i64::MAX / 1000) <= seconds <= i64::MAX / 1000,
        ensures
            r.nanos == seconds * 1_000_000_000,
            r.wf(),
    {
        TimeDelta { nanos: (seconds as i128) * NANOS_PER_SEC }
    }

    /// A span of `milliseconds` milliseconds.
    pub fn milliseconds(milliseconds: i64) -> (r: TimeDelta)
        requires
            milliseconds >= -i64::MAX,
        ensures
            r.nanos == milliseconds * 1_000_000,
            r.wf(),
    {
        TimeDelta { nanos: (milliseconds as i128) * NANOS_PER_MILLI }
    }

    /// Whole milliseconds in the span, rounded toward zero.
    pub fn num_milliseconds(&self) -> (r: i64)
        requires
            self.wf(),
        ensures
            r == trunc_div(self.nanos as int, 1_000_000),
    {
        (self.nanos / NANOS_PER_MILLI) as i64
    }
}

impl Duration {
    /// Is the sub-second part below one second?
    pub open spec fn wf(self) -> bool {
        self.subsec_nanos < 1_000_000_000
    }

    /// The length of the span in nanoseconds.
    pub open spec fn spec_nanos(self) -> int {
        self.secs * 1_000_000_000 + self.subsec_nanos
    }

    /// A span of `secs` seconds.
    pub fn from_secs(secs: u64) -> (r: Duration)
        ensures
            r.secs == secs,
            r.subsec_nanos == 0,
            r.wf(),
    {
        Duration { secs, subsec_nanos: 0 }
    }

    /// A span of `millis` milliseconds.
    pub fn from_millis(millis: u64) -> (r: Duration)
        ensures
            r.wf(),
            r.spec_nanos() == millis * 1_000_000,
    {
        let secs: u64 = millis / 1000;
        let rest: u64 = millis % 1000;
        assert(rest * 1_000_000 < 1_000_000_000) by (nonlinear_arith)
            requires rest < 1000;
        Duration { secs, subsec_nanos: (rest as u32) * 1_000_000 }
    }

    /// Whole milliseconds in the span.
    pub fn as_millis(&self) -> (r: u128)
        requires
            self.wf(),
        ensures
            r == self.spec_nanos() / 1_000_000,
    {
        (self.secs as u128) * 1000 + ((self.subsec_nanos / 1_000_000) as u128)
    }
}

} // verus!

verus! {

/// `std::time::SystemTime`, carried opaquely.
#[verifier::external_type_specification]
#[verifier::external_body]
pub struct ExSystemTime(std::time::SystemTime);

/// `std::time::Instant`, carried opaquely.
#[verifier::external_type_specification]
#[verifier::external_body]
pub struct ExInstant(std::time::Instant);

/// Calls `std::time::SystemTime::now()`. Nothing is claimed of the reading.
#[verifier::external_body]
pub(crate) fn system_time_now() -> std::time::SystemTime {
    std::time::SystemTime::now()
}

/// Calls `t.duration_since(UNIX_EPOCH)` and returns whether the reading lies
/// before the epoch, with the span's `as_secs()` and `subsec_nanos()`: the
/// span of the `Ok` value, or, where the reading lies before the epoch, the
/// span that the `SystemTimeError` carries (`duration()`, how far the epoch
/// lies after the reading).
///
/// Claimed: the sub-second part is below one second, as
/// `std::time::Duration::subsec_nanos` documents. Nothing is claimed of which
/// instant the reading is.
#[verifier::external_body]
pub(crate) fn unix_offset(t: &std::time::SystemTime) -> (r: (bool, u64, u32))
    ensures
        r.2 < 1_000_000_000,
{
    match t.duration_since(std::time::UNIX_EPOCH) {
        Ok(d) => (false, d.as_secs(), d.subsec_nanos()),
        Err(e) => (true, e.duration().as_secs(), e.duration().subsec_nanos()),
    }
}

/// Calls `std::time::Instant::now()`. Nothing is claimed of the reading.
#[verifier::external_body]
pub(crate) fn instant_now() -> std::time::Instant {
    std::time::Instant::now()
}

/// Calls `later.saturating_duration_since(*earlier)` and returns its `as_nanos()`.
///
/// Claimed: no more than the nanoseconds in the longest
/// `std::time::Duration` (`u64::MAX` seconds and 999,999,999 nanoseconds),
/// which is what `as_nanos` can return. The value itself rests on two clock
/// readings (zero where `earlier` is the later one).
#[verifier::external_body]
pub(crate) fn nanos_between(later: &std::time::Instant, earlier: &std::time::Instant) -> (r: u128)
    ensures
        r <= MAX_STD_DURATION_NANOS,
{
    later.saturating_duration_since(*earlier).as_nanos()
}

} // verus!
