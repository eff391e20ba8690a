//! Points in time and the difference between two of them.
use vstd::prelude::*;

verus! {

/// The first second that a [`Timestamp`] can hold, 1 January of the year -262143.
pub const MIN_SECS: i64 = -8_334_601_228_800;

/// The last second that a [`Timestamp`] can hold, 31 December of the year 262142.
pub const MAX_SECS: i64 = 8_210_266_876_799;

pub const NANOS_PER_SEC: u32 = 1_000_000_000;

pub const SECS_PER_DAY: i64 = 86_400;

/// What a [`Timestamp`] stands for: whole non-leap seconds since the Unix epoch, and
/// nanoseconds past that second. A leap second is counted as nanoseconds beyond one second.
pub struct Instant {
    pub secs: int,
    pub nanos: int,
}

impl Instant {
    /// The instants that a calendar date and a time of day can express. A leap second may follow
    /// any second: it ends a minute in some time zone.
    pub open spec fn in_range(self) -> bool {
        &&& MIN_SECS <= self.secs <= MAX_SECS
        &&& 0 <= self.nanos < 2 * NANOS_PER_SEC
    }

    /// The instants that a clock shows: none before the Unix epoch, none in a leap second.
    pub open spec fn readable(self) -> bool {
        &&& self.in_range()
        &&& self.secs >= 0
        &&& !self.in_leap_second()
    }

    /// Whether the instant lies inside a leap second.
    pub open spec fn in_leap_second(self) -> bool {
        self.nanos >= NANOS_PER_SEC
    }

    /// Whether the instant is `later` or comes before it.
    pub open spec fn not_after(self, later: Instant) -> bool {
        self.secs < later.secs || (self.secs == later.secs && self.nanos <= later.nanos)
    }

    /// Non-leap seconds since midnight.
    pub open spec fn second_of_day(self) -> int {
        self.secs % (SECS_PER_DAY as int)
    }
}

/// The instant of a Unix timestamp.
pub open spec fn instant(secs: i64, nanos: u32) -> Instant {
    Instant { secs: secs as int, nanos: nanos as int }
}

/// The leap second to count between two instants: one that `earlier` lies in is still to
/// pass when `later` is at a later time of day, and one that `later` lies in is taken back
/// when `later` is at an earlier time of day.
pub open spec fn leap_adjustment(later: Instant, earlier: Instant) -> int {
    if later.second_of_day() > earlier.second_of_day() && earlier.in_leap_second() {
        1
    } else if later.second_of_day() < earlier.second_of_day() && later.in_leap_second() {
        -1
    } else {
        0
    }
}

/// Nanoseconds from `earlier` to `later`; negative where `later` comes first.
pub open spec fn elapsed_nanos(later: Instant, earlier: Instant) -> int {
    (later.secs - earlier.secs + leap_adjustment(later, earlier)) * NANOS_PER_SEC + (later.nanos
        - earlier.nanos)
}

/// A point in time, in UTC.
#[derive(Clone, Copy, Debug, PartialEq, Eq)]
pub struct Timestamp {
    secs: i64,
    nanos: u32,
}

impl View for Timestamp {
    type V = Instant;

    closed spec fn view(&self) -> Instant {
        instant(self.secs, self.nanos)
    }
}

impl Timestamp {
    #[verifier::type_invariant]
    spec fn expressible(&self) -> bool {
        self@.in_range()
    }

    /// The instant `nanos` nanoseconds past second `secs` of the Unix epoch, if a calendar
    /// date and a time of day can express it.
    pub fn new(secs: i64, nanos: u32) -> (timestamp: Option<Timestamp>)
        ensures
            timestamp is Some <==> instant(secs, nanos).in_range(),
            timestamp matches Some(t) ==> t@ == instant(secs, nanos),
            timestamp matches Some(t) ==> t@.secs == secs && t@.nanos == nanos,
    {
        if secs < MIN_SECS || secs > MAX_SECS || nanos >= 2 * NANOS_PER_SEC {
            return None;
        }
        Some(Timestamp { secs, nanos })
    }

    /// Reads the clock.
    pub fn now() -> (timestamp: Timestamp)
        ensures
            timestamp@.readable(),
    {
        let (secs, nanos) = utc_now();
        Timestamp { secs, nanos }
    }

    /// The time from `earlier` to `self`.
    pub fn since(&self, earlier: &Timestamp) -> (span: TimeSpan)
        ensures
            span.total_nanos() == elapsed_nanos(self@, earlier@),
            -NANOS_PER_SEC < span.nanos < NANOS_PER_SEC,
            span.nanos > 0 ==> span.secs >= 0,
            span.nanos < 0 ==> span.secs <= 0,
    {
        proof {
            use_type_invariant(self);
            use_type_invariant(earlier);
        }
        difference(self.secs, self.nanos, earlier.secs, earlier.nanos)
    }

    /// Whole non-leap seconds since the Unix epoch.
    pub fn secs(&self) -> (secs: i64)
        ensures
            secs == self@.secs,
    {
        self.secs
    }

    /// Nanoseconds past the second.
    pub fn nanos(&self) -> (nanos: u32)
        ensures
            nanos == self@.nanos,
    {
        self.nanos
    }
}

/// A length of time, as seconds and a rest of less than one second. Both are negative, or
/// zero, where the time is negative.
#[derive(Clone, Copy, Debug, PartialEq, Eq)]
pub struct TimeSpan {
    pub secs: i64,
    pub nanos: i32,
}

impl TimeSpan {
    pub open spec fn total_nanos(self) -> int {
        self.secs * NANOS_PER_SEC + self.nanos
    }

    /// Whether the span is longer than `secs` seconds.
    pub fn exceeds_secs(&self, secs: i64) -> (longer: bool)
        ensures
            longer == (self.total_nanos() > secs * NANOS_PER_SEC),
            longer == (self.secs * 1_000_000_000 + self.nanos > secs * 1_000_000_000),
    {
        let total: i128 = self.secs as i128 * 1_000_000_000 + self.nanos as i128;
        total > secs as i128 * 1_000_000_000
    }
}

/// Calls `chrono::Utc::now` and takes the result apart into the seconds and nanoseconds of
/// its Unix timestamp. Claimed of every reading: it is not before the epoch, it is within
/// the range of chrono's dates, and it is not inside a leap second. Which instant it is
/// depends on the machine's clock. The call panics on a machine whose clock is set outside
/// that range.
#[verifier::external_body]
fn utc_now() -> (reading: (i64, u32))
    ensures
        0 <= reading.0 <= MAX_SECS,
        reading.1 < NANOS_PER_SEC,
{
    let now = chrono::Utc::now();
    (now.timestamp(), now.timestamp_subsec_nanos())
}

/// Calls the subtraction of `chrono::DateTime<Utc>`, which is
/// `DateTime::signed_duration_since`, on the two instants given by their Unix timestamps. They
/// are put together by `DateTime::from_timestamp` from the seconds, and by
/// `NaiveDateTime::with_nanosecond`, which takes a leap second behind any second. Claimed: the
/// duration amounts to the difference of the seconds and nanoseconds, with one second added or
/// taken off where one of the two is inside a leap second and the times of day differ
/// accordingly; seconds and the rest are both truncated towards zero.
#[verifier::external_body]
fn difference(secs: i64, nanos: u32, earlier_secs: i64, earlier_nanos: u32) -> (span: TimeSpan)
    requires
        instant(secs, nanos).in_range(),
        instant(earlier_secs, earlier_nanos).in_range(),
    ensures
        span.total_nanos() == elapsed_nanos(
            instant(secs, nanos),
            instant(earlier_secs, earlier_nanos),
        ),
        -NANOS_PER_SEC < span.nanos < NANOS_PER_SEC,
        span.nanos > 0 ==> span.secs >= 0,
        span.nanos < 0 ==> span.secs <= 0,
{
    let later = chrono::DateTime::from_timestamp(secs, 0).unwrap().naive_utc();
    let later = chrono::Timelike::with_nanosecond(&later, nanos).unwrap().and_utc();
    let earlier = chrono::DateTime::from_timestamp(earlier_secs, 0).unwrap().naive_utc();
    let earlier = chrono::Timelike::with_nanosecond(&earlier, earlier_nanos).unwrap().and_utc();
    let duration = later - earlier;
    TimeSpan { secs: duration.num_seconds(), nanos: duration.subsec_nanos() }
}

} // verus!
