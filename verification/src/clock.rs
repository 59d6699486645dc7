//! Points in time, and the calendar texts the service writes for them.
use vstd::prelude::*;

verus! {

/// A point in time: whole seconds since the Unix epoch and the nanoseconds
/// after them, always a pair that chrono accepts as a UTC date and time.
#[derive(Clone, Copy, Debug)]
pub struct Moment {
    secs: i64,
    nanos: u32,
}

/// Whether `DateTime::<Utc>::from_timestamp(secs, nanos)` gives a value:
/// the day (counted from 0001-01-01 as day 1) lies between -262143-01-01
/// and +262142-12-31, and the nanoseconds are below 10^9, or below 2·10^9
/// in the last second of a minute, which then holds a leap second.
pub open spec fn utc_representable(secs: i64, nanos: u32) -> bool {
    let day = secs / 86400 + 719163;
    let second_of_day = secs % 86400;
    &&& -95746129 <= day <= 95745399
    &&& nanos < 2_000_000_000
    &&& (nanos < 1_000_000_000 || second_of_day % 60 == 59)
}

/// What `DateTime::<Utc>::with_timezone(&Asia::Shanghai).format(pattern)`
/// writes for the instant `secs`/`nanos`.
pub uninterp spec fn shanghai_text(secs: i64, nanos: u32, pattern: Seq<char>) -> Seq<char>;

/// What `DateTime::<Utc>::to_rfc3339` writes for the instant `secs`/`nanos`.
pub uninterp spec fn rfc3339_text(secs: i64, nanos: u32) -> Seq<char>;

/// What `(later - earlier).num_seconds()` gives for two instants: the time
/// between them in nanoseconds, divided by 10^9 and rounded toward zero,
/// where a leap second that the earlier instant is in, or that the later
/// instant is in, counts as one second more, or one second less.
pub open spec fn whole_seconds_between(
    later_secs: i64,
    later_nanos: u32,
    earlier_secs: i64,
    earlier_nanos: u32,
) -> i64 {
    let later_of_day = later_secs % 86400;
    let earlier_of_day = earlier_secs % 86400;
    let leap = if later_of_day > earlier_of_day && earlier_nanos >= 1_000_000_000 {
        1int
    } else if later_of_day < earlier_of_day && later_nanos >= 1_000_000_000 {
        -1int
    } else {
        0int
    };
    div_toward_zero(
        (later_secs - earlier_secs + leap) * 1_000_000_000 + (later_nanos - earlier_nanos),
        1_000_000_000,
    ) as i64
}

/// Division by a positive number, rounding toward zero.
pub open spec fn div_toward_zero(x: int, d: int) -> int {
    if x >= 0 {
        x / d
    } else {
        -((-x) / d)
    }
}

/// The nanoseconds from `earlier` to `later`.
pub open spec fn nanos_between(
    later_secs: i64,
    later_nanos: u32,
    earlier_secs: i64,
    earlier_nanos: u32,
) -> int {
    (later_secs - earlier_secs) * 1_000_000_000 + (later_nanos - earlier_nanos)
}

/// The two calendar layouts that the service writes.
pub open spec fn is_known_layout(pattern: Seq<char>) -> bool {
    pattern == "%Y-%m-%d %H:%M:%S"@ || pattern == "%Y%m%d_%H%M%S"@
}

/// Whether `DateTime::<Utc>::from_timestamp(secs, nanos)` is `Some`; the
/// rule is the one chrono's `from_timestamp`, `from_num_days_from_ce_opt` and
/// `from_num_seconds_from_midnight_opt` apply.
#[verifier::external_body]
fn utc_accepts(secs: i64, nanos: u32) -> (r: bool)
    ensures
        r == utc_representable(secs, nanos),
{
    chrono::DateTime::from_timestamp(secs, nanos).is_some()
}

/// `at.with_timezone(&chrono_tz::Asia::Shanghai).format(pattern).to_string()`.
/// The result is named; the layout is one of the two the service uses, for
/// which formatting cannot fail.
#[verifier::external_body]
fn format_in_shanghai(secs: i64, nanos: u32, pattern: &str) -> (r: String)
    requires
        utc_representable(secs, nanos),
        is_known_layout(pattern@),
    ensures
        r@ == shanghai_text(secs, nanos, pattern@),
{
    let utc = chrono::DateTime::from_timestamp(secs, nanos).unwrap();
    utc.with_timezone(&chrono_tz::Asia::Shanghai).format(pattern).to_string()
}

/// `DateTime::<Utc>::to_rfc3339`; the result is named.
#[verifier::external_body]
fn format_rfc3339(secs: i64, nanos: u32) -> (r: String)
    requires
        utc_representable(secs, nanos),
    ensures
        r@ == rfc3339_text(secs, nanos),
{
    chrono::DateTime::from_timestamp(secs, nanos).unwrap().to_rfc3339()
}

/// `(later - earlier).num_seconds()` for two instants that chrono accepts;
/// chrono's source (`NaiveTime::signed_duration_since`, `TimeDelta`) gives
/// the rule that `whole_seconds_between` states.
#[verifier::external_body]
fn elapsed_whole_seconds(later_secs: i64, later_nanos: u32, earlier_secs: i64, earlier_nanos: u32) -> (r: i64)
    requires
        utc_representable(later_secs, later_nanos),
        utc_representable(earlier_secs, earlier_nanos),
    ensures
        r == whole_seconds_between(later_secs, later_nanos, earlier_secs, earlier_nanos),
{
    let later = chrono::DateTime::from_timestamp(later_secs, later_nanos).unwrap();
    let earlier = chrono::DateTime::from_timestamp(earlier_secs, earlier_nanos).unwrap();
    (later - earlier).num_seconds()
}

impl Moment {
    #[verifier::type_invariant]
    spec fn accepted(&self) -> bool {
        utc_representable(self.secs, self.nanos)
    }

    pub closed spec fn unix_secs(&self) -> i64 {
        self.secs
    }

    pub closed spec fn subsec_nanos(&self) -> u32 {
        self.nanos
    }

    /// The instant `secs` seconds and `nanos` nanoseconds after the Unix
    /// epoch, when chrono can represent it.
    pub fn from_unix(secs: i64, nanos: u32) -> (r: Option<Moment>)
        ensures
            r matches Some(m) ==> m.unix_secs() == secs && m.subsec_nanos() == nanos,
            r is Some <==> utc_representable(secs, nanos),
    {
        if utc_accepts(secs, nanos) {
            Some(Moment { secs, nanos })
        } else {
            None
        }
    }

    pub fn secs(&self) -> (r: i64)
        ensures
            r == self.unix_secs(),
    {
        self.secs
    }

    pub fn nanos(&self) -> (r: u32)
        ensures
            r == self.subsec_nanos(),
    {
        self.nanos
    }

    /// China Standard Time as `YYYY-MM-DD HH:MM:SS`.
    pub fn shanghai_display(&self) -> (r: String)
        ensures
            r@ == shanghai_text(self.unix_secs(), self.subsec_nanos(), "%Y-%m-%d %H:%M:%S"@),
    {
        proof {
            use_type_invariant(self);
        }
        format_in_shanghai(self.secs, self.nanos, "%Y-%m-%d %H:%M:%S")
    }

    /// China Standard Time as `YYYYMMDD_HHMMSS`, for file names.
    pub fn shanghai_compact(&self) -> (r: String)
        ensures
            r@ == shanghai_text(self.unix_secs(), self.subsec_nanos(), "%Y%m%d_%H%M%S"@),
    {
        proof {
            use_type_invariant(self);
        }
        format_in_shanghai(self.secs, self.nanos, "%Y%m%d_%H%M%S")
    }

    /// RFC 3339 in UTC.
    pub fn rfc3339(&self) -> (r: String)
        ensures
            r@ == rfc3339_text(self.unix_secs(), self.subsec_nanos()),
    {
        proof {
            use_type_invariant(self);
        }
        format_rfc3339(self.secs, self.nanos)
    }

    /// Whole seconds from `earlier` to `self`, rounded toward zero.
    pub fn whole_seconds_since(&self, earlier: &Moment) -> (r: i64)
        ensures
            r == whole_seconds_between(
                self.unix_secs(),
                self.subsec_nanos(),
                earlier.unix_secs(),
                earlier.subsec_nanos(),
            ),
            self.subsec_nanos() < 1_000_000_000 && earlier.subsec_nanos() < 1_000_000_000 ==> r
                == div_toward_zero(
                nanos_between(
                    self.unix_secs(),
                    self.subsec_nanos(),
                    earlier.unix_secs(),
                    earlier.subsec_nanos(),
                ),
                1_000_000_000,
            ),
    {
        proof {
            use_type_invariant(self);
            use_type_invariant(earlier);
        }
        elapsed_whole_seconds(self.secs, self.nanos, earlier.secs, earlier.nanos)
    }

    /// Whether `self` comes strictly after `other`; instants are ordered by
    /// their seconds, then their nanoseconds, as chrono orders them.
    pub open spec fn later_than(&self, other: &Moment) -> bool {
        self.unix_secs() > other.unix_secs() || (self.unix_secs() == other.unix_secs()
            && self.subsec_nanos() > other.subsec_nanos())
    }

    pub fn is_later_than(&self, other: &Moment) -> (r: bool)
        ensures
            r == self.later_than(other),
    {
        self.secs > other.secs || (self.secs == other.secs && self.nanos > other.nanos)
    }
}

} // verus!
