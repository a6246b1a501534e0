//! Points in time, lengths of time, and the clocks they are read from.

use vstd::prelude::*;

verus! {

/// A point in time: the seconds since the start of 1970 in UTC, and the
/// nanoseconds since that second. In a leap second, which is the last of its
/// minute, the nanoseconds go on past a full second.
#[derive(Clone, Copy, Debug, PartialEq, Eq, Structural)]
pub struct Timestamp {
    secs: i64,
    nanos: u32,
}

/// The points in time that exist: those of the years from -262143 to 262142.
pub open spec fn exists_at(secs: int, nanos: int) -> bool {
    &&& -8_334_601_228_800 <= secs <= 8_210_266_876_799
    &&& 0 <= nanos < 2_000_000_000
    &&& nanos >= 1_000_000_000 ==> secs % 60 == 59
}

impl Timestamp {
    /// The seconds since the start of 1970.
    pub closed spec fn spec_secs(self) -> int {
        self.secs as int
    }

    /// The nanoseconds since that second.
    pub closed spec fn spec_nanos(self) -> int {
        self.nanos as int
    }

    #[verifier::type_invariant]
    spec fn well_formed(self) -> bool {
        exists_at(self.secs as int, self.nanos as int)
    }

    /// The milliseconds since the start of 1970, without the leap seconds
    /// before this one.
    pub open spec fn spec_millis(self) -> int {
        self.spec_secs() * 1000 + self.spec_nanos() / 1_000_000
    }

    /// The hour of the day in UTC.
    pub open spec fn spec_hour(self) -> int {
        self.spec_secs() % 86_400 / 3_600
    }

    /// Whether this point in time comes before `other`.
    pub open spec fn before(self, other: Timestamp) -> bool {
        ||| self.spec_secs() < other.spec_secs()
        ||| self.spec_secs() == other.spec_secs() && self.spec_nanos() < other.spec_nanos()
    }

    /// The point in time at `secs` and `nanos`, if there is one.
    pub fn new(secs: i64, nanos: u32) -> (r: Option<Timestamp>)
        ensures
            r is Some <==> exists_at(secs as int, nanos as int),
            r matches Some(t) ==> t.spec_secs() == secs && t.spec_nanos() == nanos,
    {
        if secs < -8_334_601_228_800 || secs > 8_210_266_876_799 || nanos >= 2_000_000_000 {
            return None;
        }
        let from_start: i64 = secs + 8_334_601_228_800;
        if nanos >= 1_000_000_000 && from_start % 60 != 59 {
            return None;
        }
        Some(Timestamp { secs, nanos })
    }

    /// The seconds since the start of 1970.
    pub fn secs(&self) -> (r: i64)
        ensures
            r == self.spec_secs(),
            exists_at(self.spec_secs(), self.spec_nanos()),
    {
        proof {
            use_type_invariant(*self);
        }
        self.secs
    }

    /// The nanoseconds since that second.
    pub fn nanos(&self) -> (r: u32)
        ensures
            r == self.spec_nanos(),
    {
        self.nanos
    }

    /// The milliseconds since the start of 1970.
    pub fn millis(&self) -> (r: i64)
        ensures
            r == self.spec_millis(),
    {
        proof {
            use_type_invariant(*self);
        }
        self.secs * 1000 + (self.nanos / 1_000_000) as i64
    }

    /// The hour of the day in UTC.
    pub fn hour(&self) -> (r: u32)
        ensures
            r == self.spec_hour(),
            r < 24,
    {
        proof {
            use_type_invariant(*self);
        }
        let from_start: i64 = self.secs + 8_640_000_000_000;
        (from_start % 86_400 / 3_600) as u32
    }

    /// Whether this point in time comes before `other`.
    pub fn is_before(&self, other: &Timestamp) -> (r: bool)
        ensures
            r == self.before(*other),
    {
        self.secs < other.secs || (self.secs == other.secs && self.nanos < other.nanos)
    }
}

/// The points in time that exist are those from the start of the year -262143 up
/// to the start of the year 262143; the last second of any minute, and no other,
/// may last twice as long. From the start of 1970 to that of a year there are 365
/// days for each year between, one more for every fourth, one less for every
/// hundredth, and one more again for every four hundredth.
pub proof fn law_years_that_exist(secs: int, nanos: int)
    ensures
        ({
            let days_to = |year: int|
                365 * (year - 1970) + (year - 1969) / 4 - (year - 1901) / 100 + (year - 1601) / 400;
            exists_at(secs, 0) <==> days_to(-262143) * 86_400 <= secs < days_to(262143) * 86_400
        }),
        0 <= nanos < 1_000_000_000 ==> exists_at(secs, nanos) == exists_at(secs, 0),
        1_000_000_000 <= nanos < 2_000_000_000 ==> (exists_at(secs, nanos) <==> exists_at(secs, 0)
            && (secs + 1) % 60 == 0),
        nanos < 0 || 2_000_000_000 <= nanos ==> !exists_at(secs, nanos),
{
}

/// The milliseconds of a point in time are as many as have passed in full. One
/// that comes later, but for what follows a leap second, has no fewer.
pub proof fn law_millis_have_passed(a: Timestamp, b: Timestamp)
    ensures
        a.spec_millis() * 1_000_000 <= a.spec_secs() * 1_000_000_000 + a.spec_nanos(),
        a.spec_secs() * 1_000_000_000 + a.spec_nanos() < (a.spec_millis() + 1) * 1_000_000,
        a.before(b) && 0 <= b.spec_nanos() && a.spec_nanos() < 1_000_000_000 ==> a.spec_millis()
            <= b.spec_millis(),
{
}

/// The hour of the day is how many full hours have passed of it. It is the same
/// a day later, and the next one an hour later.
pub proof fn law_hours_of_the_day(a: Timestamp, b: Timestamp)
    ensures
        0 <= a.spec_hour() < 24,
        a.spec_hour() * 3_600 <= a.spec_secs() % 86_400 < (a.spec_hour() + 1) * 3_600,
        b.spec_secs() == a.spec_secs() + 86_400 ==> b.spec_hour() == a.spec_hour(),
        b.spec_secs() == a.spec_secs() + 3_600 ==> b.spec_hour() == (a.spec_hour() + 1) % 24,
{
    let s = a.spec_secs();
    let days = s / 86_400;
    let rest = s % 86_400;
    assert(s == 86_400 * days + rest && 0 <= rest < 86_400);
    vstd::arithmetic::div_mod::lemma_fundamental_div_mod_converse(
        s + 86_400,
        86_400,
        days + 1,
        rest,
    );
    if rest < 82_800 {
        vstd::arithmetic::div_mod::lemma_fundamental_div_mod_converse(
            s + 3_600,
            86_400,
            days,
            rest + 3_600,
        );
    } else {
        vstd::arithmetic::div_mod::lemma_fundamental_div_mod_converse(
            s + 3_600,
            86_400,
            days + 1,
            rest - 82_800,
        );
    }
}

/// Of two points in time that exist one comes before the other, unless they are
/// the same; and the one that does has fewer seconds, or as many and fewer
/// nanoseconds.
pub proof fn law_order_of_time(a: Timestamp, b: Timestamp)
    requires
        exists_at(a.spec_secs(), a.spec_nanos()),
        exists_at(b.spec_secs(), b.spec_nanos()),
    ensures
        a.before(b) <==> a.spec_secs() * 2_000_000_000 + a.spec_nanos() < b.spec_secs()
            * 2_000_000_000 + b.spec_nanos(),
        a.before(b) || b.before(a) || a == b,
        !(a.before(b) && b.before(a)),
        !a.before(a),
{
}

/// The RFC 3339 text of the point in time at `secs` and `nanos`, in UTC.
pub uninterp spec fn rfc3339(secs: int, nanos: int) -> Seq<char>;

/// The point in time at `secs` and `nanos` to the second, in UTC: year, month
/// and day, a `T`, hour, minute and second, and a `Z`.
pub uninterp spec fn to_the_second(secs: int, nanos: int) -> Seq<char>;

/// `chrono::DateTime::to_rfc3339` in UTC: the text is a function of the point
/// in time.
#[verifier::external_body]
fn chrono_rfc3339(secs: i64, nanos: u32) -> (r: String)
    requires
        exists_at(secs as int, nanos as int),
    ensures
        r@ == rfc3339(secs as int, nanos as int),
{
    chrono::DateTime::from_timestamp(secs, nanos).unwrap().to_rfc3339()
}

/// `chrono::DateTime::format` in UTC with a pattern that goes down to the
/// second: the text is a function of the point in time.
#[verifier::external_body]
fn chrono_to_the_second(secs: i64, nanos: u32) -> (r: String)
    requires
        exists_at(secs as int, nanos as int),
    ensures
        r@ == to_the_second(secs as int, nanos as int),
{
    chrono::DateTime::from_timestamp(secs, nanos).unwrap().format("%Y-%m-%dT%H:%M:%SZ").to_string()
}

/// A time that the system clock can show: one that exists, not before the start
/// of 1970, in no leap second.
pub open spec fn is_clock_time(t: Timestamp) -> bool {
    &&& exists_at(t.spec_secs(), t.spec_nanos())
    &&& t.spec_secs() >= 0
    &&& t.spec_nanos() < 1_000_000_000
}

/// `chrono::Utc::now`: the time of the system clock. Nothing is said of which
/// time it is; it is a point in time that exists, not before the start of 1970,
/// in no leap second.
#[verifier::external_body]
pub(crate) fn utc_now() -> (r: Timestamp)
    ensures
        is_clock_time(r),
{
    let now = chrono::Utc::now();
    Timestamp { secs: now.timestamp(), nanos: now.timestamp_subsec_nanos() }
}

impl Timestamp {
    /// The RFC 3339 text of this point in time.
    pub fn to_rfc3339(&self) -> (r: String)
        ensures
            r@ == rfc3339(self.spec_secs(), self.spec_nanos()),
    {
        proof {
            use_type_invariant(*self);
        }
        chrono_rfc3339(self.secs, self.nanos)
    }

    /// This point in time to the second, as the directory's export takes it.
    pub fn to_cursor(&self) -> (r: String)
        ensures
            r@ == to_the_second(self.spec_secs(), self.spec_nanos()),
    {
        proof {
            use_type_invariant(*self);
        }
        chrono_to_the_second(self.secs, self.nanos)
    }
}

/// A length of time.
#[derive(Clone, Copy, Debug, PartialEq, Eq, Structural)]
pub struct Span {
    nanos: u128,
}

/// The longest length of time, in nanoseconds.
pub open spec fn longest() -> nat {
    (u64::MAX * 1_000_000_000 + 999_999_999) as nat
}

/// The longest length of time is one nanosecond short of 2^64 seconds.
pub proof fn law_longest_span()
    ensures
        longest() + 1 == 0x1_0000_0000_0000_0000 * 1_000_000_000,
{
}

impl Span {
    /// This length of time in nanoseconds.
    pub closed spec fn spec_nanos(self) -> nat {
        self.nanos as nat
    }

    #[verifier::type_invariant]
    spec fn well_formed(self) -> bool {
        self.nanos <= longest()
    }

    /// `nanos` nanoseconds, if that is not too long.
    pub fn from_nanos(nanos: u128) -> (r: Option<Span>)
        ensures
            r is Some <==> nanos <= longest(),
            r matches Some(s) ==> s.spec_nanos() == nanos,
    {
        if nanos <= u64::MAX as u128 * 1_000_000_000 + 999_999_999 {
            Some(Span { nanos })
        } else {
            None
        }
    }

    /// `secs` seconds.
    pub fn from_secs(secs: u64) -> (r: Span)
        ensures
            r.spec_nanos() == secs * 1_000_000_000,
    {
        Span { nanos: secs as u128 * 1_000_000_000 }
    }

    /// `millis` milliseconds.
    pub fn from_millis(millis: u64) -> (r: Span)
        ensures
            r.spec_nanos() == millis * 1_000_000,
    {
        Span { nanos: millis as u128 * 1_000_000 }
    }

    /// The nanoseconds.
    pub fn as_nanos(&self) -> (r: u128)
        ensures
            r == self.spec_nanos(),
            r <= longest(),
    {
        proof {
            use_type_invariant(*self);
        }
        self.nanos
    }

    /// The full milliseconds.
    pub fn as_millis(&self) -> (r: u128)
        ensures
            r == self.spec_nanos() / 1_000_000,
    {
        self.nanos / 1_000_000
    }

    /// The full seconds.
    pub fn as_secs(&self) -> (r: u64)
        ensures
            r == self.spec_nanos() / 1_000_000_000,
    {
        proof {
            use_type_invariant(*self);
        }
        (self.nanos / 1_000_000_000) as u64
    }

    /// One part of this length of time, cut into `parts`.
    pub fn part(&self, parts: u32) -> (r: Span)
        requires
            parts > 0,
        ensures
            r.spec_nanos() == self.spec_nanos() / parts as nat,
    {
        proof {
            use_type_invariant(*self);
            vstd::arithmetic::div_mod::lemma_div_is_ordered_by_denominator(
                self.nanos as int,
                1,
                parts as int,
            );
        }
        Span { nanos: self.nanos / parts as u128 }
    }

    /// The longer of this and `other`.
    pub fn max(self, other: Span) -> (r: Span)
        ensures
            r == if self.spec_nanos() >= other.spec_nanos() {
                self
            } else {
                other
            },
    {
        if self.nanos >= other.nanos {
            self
        } else {
            other
        }
    }
}

/// `tokio::time::Instant`: a reading of the monotonic clock, carried through.
#[verifier::external_type_specification]
#[verifier::external_body]
pub struct ExInstant(tokio::time::Instant);

/// `tokio::time::Instant::now`: a reading of the monotonic clock. Nothing is
/// said of it.
#[verifier::external_body]
pub(crate) fn instant_now() -> (r: tokio::time::Instant) {
    tokio::time::Instant::now()
}

/// The nanoseconds from one reading of the monotonic clock to another; none
/// where the other is not the later one.
pub uninterp spec fn between(earlier: tokio::time::Instant, later: tokio::time::Instant) -> nat;

/// `tokio::time::Instant::elapsed`: the time from the reading to one that is made
/// now, which is a function of the two. Nothing is said of the second reading.
#[verifier::external_body]
pub(crate) fn elapsed_since(instant: &tokio::time::Instant) -> (r: Span)
    ensures
        exists|now: tokio::time::Instant| r.spec_nanos() == #[trigger] between(*instant, now),
        r.spec_nanos() <= longest(),
{
    Span { nanos: instant.elapsed().as_nanos() }
}

} // verus!
