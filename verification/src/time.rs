//! Points in time with nanosecond precision and a UTC offset.
//!
//! A `Time` is the instant it denotes, counted in nanoseconds from the Unix
//! epoch (its view), together with the UTC offset, in seconds, at which its
//! calendar fields are read. Two times are equal when they denote the same
//! instant, whatever their offsets.
use crate::duration::Duration;
use vstd::prelude::*;

verus! {

/// The earliest Unix timestamp, in seconds, that a time can have
/// (the start of the year -9999).
pub const MIN_UNIX_SECONDS: i64 = -377_705_116_800i64;

/// The latest Unix timestamp, in seconds, that a time can have
/// (the last second of the year 9999).
pub const MAX_UNIX_SECONDS: i64 = 253_402_300_799i64;

/// The largest UTC offset, in seconds, in either direction.
pub const MAX_OFFSET_SECONDS: i32 = 93_599i32;

/// The smallest valid timestamp in nanoseconds.
pub open spec fn min_nanos() -> int {
    MIN_UNIX_SECONDS * 1_000_000_000
}

/// The largest valid timestamp in nanoseconds.
pub open spec fn max_nanos() -> int {
    MAX_UNIX_SECONDS * 1_000_000_000 + 999_999_999
}

/// `n` nanoseconds from the epoch fall within the supported calendar.
pub open spec fn in_range(n: int) -> bool {
    min_nanos() <= n <= max_nanos()
}

/// A UTC instant and an offset that together form a valid date-time: the
/// offset is in range and the local date-time lies within the calendar.
pub open spec fn valid_date_time(nanos: int, offset: int) -> bool {
    &&& -MAX_OFFSET_SECONDS <= offset <= MAX_OFFSET_SECONDS
    &&& in_range(nanos + offset * 1_000_000_000)
}

/// Floor division, rounding toward negative infinity.
pub open spec fn floor_div(a: int, b: int) -> int
    recommends
        b != 0,
{
    if b > 0 {
        a / b
    } else {
        (-a) / (-b)
    }
}

/// Division rounding toward zero, for any nonzero divisor.
pub open spec fn trunc_quot(a: int, b: int) -> int
    recommends
        b != 0,
{
    let abs_a = if a >= 0 {
        a
    } else {
        -a
    };
    let abs_b = if b >= 0 {
        b
    } else {
        -b
    };
    let q = if a >= 0 {
        abs_a / abs_b
    } else {
        -(abs_a / abs_b)
    };
    if b > 0 {
        q
    } else {
        -q
    }
}

/// Division rounding toward zero: for a nonzero divisor `b`, the quotient
/// `q` times `b` lies between zero and `a`, on the side of `a`, less than
/// one `|b|` away from `a`. (For `a` and `b` positive: `a == q * b + r`
/// with `0 <= r < b`.)
pub proof fn law_trunc_quot_rounds_toward_zero(a: int, b: int)
    requires
        b != 0,
    ensures
        a >= 0 ==> 0 <= trunc_quot(a, b) * b <= a < trunc_quot(a, b) * b + (if b > 0 { b } else { -b }),
        a < 0 ==> trunc_quot(a, b) * b - (if b > 0 { b } else { -b }) < a <= trunc_quot(a, b) * b <= 0,
{
    let abs_a: int = if a >= 0 { a } else { -a };
    let abs_b: int = if b >= 0 { b } else { -b };
    let q0: int = abs_a / abs_b;
    assert(0 <= q0 * abs_b <= abs_a < q0 * abs_b + abs_b) by {
        vstd::arithmetic::div_mod::lemma_fundamental_div_mod(abs_a, abs_b);
        vstd::arithmetic::mul::lemma_mul_nonnegative(q0, abs_b);
    }
    let q: int = trunc_quot(a, b);
    if a >= 0 {
        if b > 0 {
            assert(q == q0);
        } else {
            assert(q == -q0);
            assert(q * b == q0 * abs_b) by (nonlinear_arith)
                requires
                    q == -q0,
                    abs_b == -b,
            ;
        }
    } else {
        if b > 0 {
            assert(q == -q0);
            assert(q * b == -(q0 * abs_b)) by (nonlinear_arith)
                requires
                    q == -q0,
                    abs_b == b,
            ;
        } else {
            assert(q == q0);
            assert(q * b == -(q0 * abs_b)) by (nonlinear_arith)
                requires
                    q == q0,
                    abs_b == -b,
            ;
        }
    }
}

/// The calendar year of the local date-time `local_nanos` nanoseconds after
/// the epoch, read in the proleptic Gregorian calendar.
pub uninterp spec fn year_at(local_nanos: i128) -> i32;

/// The text that a format description writes for a local date-time and
/// offset, or `None` where the description or the formatting fails.
pub uninterp spec fn formatted(local_nanos: i128, offset: i32, format: Seq<char>) -> Option<
    Seq<char>,
>;

/// The instant and offset that a format description reads from a text, or
/// `None` where the description or the text does not parse.
pub uninterp spec fn parsed(text: Seq<char>, format: Seq<char>) -> Option<(i128, i32)>;

/// The current instant, read from the system clock through
/// `time::OffsetDateTime::now_utc`. Claims only that the result is a valid
/// timestamp: the clock is not otherwise described.
#[verifier::external_body]
fn clock_now_nanos() -> (r: i128)
    ensures
        in_range(r as int),
{
    time::OffsetDateTime::now_utc().unix_timestamp_nanos()
}

/// Calls `time::OffsetDateTime::from_unix_timestamp_nanos`, then `year`.
/// Claims that an in-range timestamp is accepted (the source checks only the
/// range) and names the year read.
#[verifier::external_body]
fn local_year(local_nanos: i128) -> (r: i32)
    requires
        in_range(local_nanos as int),
    ensures
        r == year_at(local_nanos),
{
    time::OffsetDateTime::from_unix_timestamp_nanos(local_nanos).unwrap().year()
}

/// Calls `time::format_description::parse_owned::<2>` on the format, then
/// `time::OffsetDateTime::format` on the date-time built from the local
/// timestamp with `replace_offset`. Claims only that the result is the named
/// text; which descriptions fail is not stated.
#[verifier::external_body]
fn format_date_time(local_nanos: i128, offset: i32, format: &str) -> (r: Option<String>)
    requires
        valid_date_time(local_nanos - offset * 1_000_000_000, offset as int),
    ensures
        r.is_some() == formatted(local_nanos, offset, format@).is_some(),
        r.is_some() ==> r.unwrap()@ == formatted(local_nanos, offset, format@).unwrap(),
{
    let description = time::format_description::parse_owned::<2>(format).ok()?;
    let offset = time::UtcOffset::from_whole_seconds(offset).unwrap();
    let t = time::OffsetDateTime::from_unix_timestamp_nanos(local_nanos).unwrap();
    t.replace_offset(offset).format(&description).ok()
}

/// Calls `time::format_description::parse_owned::<2>` on the format, then
/// `time::OffsetDateTime::parse` on the text, and returns the instant
/// (`unix_timestamp_nanos`) and the offset (`offset().whole_seconds()`).
/// Claims that a parsed date-time is valid, as every value of that type is;
/// which texts parse is not stated, only named.
#[verifier::external_body]
fn parse_date_time(text: &str, format: &str) -> (r: Option<(i128, i32)>)
    ensures
        r == parsed(text@, format@),
        r matches Some((n, o)) ==> valid_date_time(n as int, o as int),
{
    let description = time::format_description::parse_owned::<2>(format).ok()?;
    let t = time::OffsetDateTime::parse(text, &description).ok()?;
    Some((t.unix_timestamp_nanos(), t.offset().whole_seconds()))
}

/// Calls `num::Integer::div_floor` on two `i128`: the quotient rounded
/// toward negative infinity. The divisor is nonzero and the quotient fits,
/// so the call does not panic.
#[verifier::external_body]
pub(crate) fn div_floor_i128(a: i128, b: i128) -> (r: i128)
    requires
        b != 0,
        !(a == i128::MIN && b == -1),
    ensures
        r == floor_div(a as int, b as int),
{
    num::Integer::div_floor(&a, &b)
}

/// A point in time.
#[derive(Clone, Copy, Debug)]
pub struct Time {
    nanos: i128,
    offset: i32,
}

impl View for Time {
    type V = int;

    /// Nanoseconds from the Unix epoch to the instant.
    closed spec fn view(&self) -> int {
        self.nanos as int
    }
}

impl PartialEq for Time {
    fn eq(&self, other: &Self) -> (r: bool) {
        self.nanos == other.nanos
    }
}

impl Eq for Time {

}

impl vstd::std_specs::cmp::PartialEqSpecImpl for Time {
    open spec fn obeys_eq_spec() -> bool {
        true
    }

    open spec fn eq_spec(&self, other: &Self) -> bool {
        self@ == other@
    }
}

impl Time {
    /// A time is a valid date-time.
    #[verifier::type_invariant]
    spec fn inv(self) -> bool {
        valid_date_time(self.nanos as int, self.offset as int)
    }

    /// The UTC offset, in seconds, at which the calendar fields are read.
    pub closed spec fn offset_seconds(self) -> int {
        self.offset as int
    }

    /// Nanoseconds from the epoch to the local date-time.
    pub closed spec fn local_nanos(self) -> int {
        self.nanos + self.offset * 1_000_000_000
    }

    /// The time `nanoseconds` after the epoch, read in UTC.
    pub fn from_nanoseconds(nanoseconds: i128) -> (t: Time)
        requires
            in_range(nanoseconds as int),
        ensures
            t@ == nanoseconds,
            t.offset_seconds() == 0,
    {
        Time { nanos: nanoseconds, offset: 0 }
    }

    /// The time `nanoseconds` after the epoch read at the UTC offset of
    /// `offset` seconds, or `None` where the offset is out of range or the
    /// local date-time falls outside the calendar.
    pub fn from_nanoseconds_at(nanoseconds: i128, offset: i32) -> (t: Option<Time>)
        ensures
            t is Some <==> valid_date_time(nanoseconds as int, offset as int),
            t matches Some(t) ==> t@ == nanoseconds && t.offset_seconds() == offset,
    {
        if offset < -MAX_OFFSET_SECONDS || offset > MAX_OFFSET_SECONDS {
            return None;
        }
        let lo = MIN_UNIX_SECONDS as i128 * 1_000_000_000i128;
        let hi = MAX_UNIX_SECONDS as i128 * 1_000_000_000i128 + 999_999_999i128;
        let shift = (offset as i128) * 1_000_000_000i128;
        if nanoseconds < lo - shift || nanoseconds > hi - shift {
            return None;
        }
        Some(Time { nanos: nanoseconds, offset })
    }

    /// The current time, read in UTC.
    pub fn now() -> (t: Time)
        ensures
            in_range(t@),
            t.offset_seconds() == 0,
    {
        Time::from_nanoseconds(clock_now_nanos())
    }

    /// The time `seconds` after the epoch, read in UTC.
    pub fn from_seconds(seconds: i64) -> (t: Time)
        requires
            MIN_UNIX_SECONDS <= seconds <= MAX_UNIX_SECONDS,
        ensures
            t@ == seconds * 1_000_000_000,
            t.offset_seconds() == 0,
    {
        Time::from_nanoseconds((seconds as i128) * 1_000_000_000i128)
    }

    /// The time `milliseconds` after the epoch, read in UTC.
    pub fn from_millis(milliseconds: i128) -> (t: Time)
        requires
            in_range(milliseconds * 1_000_000),
        ensures
            t@ == milliseconds * 1_000_000,
            t.offset_seconds() == 0,
    {
        Time::from_nanoseconds(milliseconds * 1_000_000i128)
    }

    /// The time `microseconds` after the epoch, read in UTC.
    pub fn from_microseconds(microseconds: i128) -> (t: Time)
        requires
            in_range(microseconds * 1_000),
        ensures
            t@ == microseconds * 1_000,
            t.offset_seconds() == 0,
    {
        Time::from_nanoseconds(microseconds * 1_000i128)
    }

    /// The time a text denotes under a format description; the text must
    /// parse.
    pub fn from_string(text: String, format: String) -> (t: Time)
        requires
            parsed(text@, format@) is Some,
        ensures
            t@ == parsed(text@, format@).unwrap().0,
            t.offset_seconds() == parsed(text@, format@).unwrap().1,
    {
        match parse_date_time(text.as_str(), format.as_str()) {
            Some((nanos, offset)) => Time { nanos, offset },
            None => {
                proof {
                    assert(false);
                }
                Time::zero()
            },
        }
    }

    /// Whether a text parses under a format description.
    pub fn parses(text: &String, format: &String) -> (r: bool)
        ensures
            r == parsed(text@, format@) is Some,
    {
        parse_date_time(text.as_str(), format.as_str()).is_some()
    }

    /// The time a text denotes under a format description, or `None` where
    /// the description or the text does not parse.
    pub fn try_from_string(text: String, format: String) -> (t: Option<Time>)
        ensures
            t is Some <==> parsed(text@, format@) is Some,
            t matches Some(t) ==> t@ == parsed(text@, format@).unwrap().0
                && t.offset_seconds() == parsed(text@, format@).unwrap().1,
    {
        if Time::parses(&text, &format) {
            Some(Time::from_string(text, format))
        } else {
            None
        }
    }

    /// The UTC offset, in seconds, at which the calendar fields are read.
    pub fn offset(&self) -> (r: i32)
        ensures
            r == self.offset_seconds(),
    {
        self.offset
    }

    /// Whole seconds from the epoch, rounded toward negative infinity.
    pub fn seconds(self) -> (r: i64)
        ensures
            r == floor_div(self@, 1_000_000_000),
    {
        proof {
            use_type_invariant(self);
        }
        let s = self.nanos / 1_000_000_000i128;
        if self.nanos >= 0 {
            s as i64
        } else {
            let p = -self.nanos;
            let q = p / 1_000_000_000i128;
            if q * 1_000_000_000i128 == p {
                -(q as i64)
            } else {
                -(q as i64) - 1
            }
        }
    }

    /// Nanoseconds from the epoch.
    pub fn nanoseconds(self) -> (r: i128)
        ensures
            r == self@,
            min_nanos() - 93_599_000_000_000 <= r <= max_nanos() + 93_599_000_000_000,
    {
        proof {
            use_type_invariant(self);
        }
        self.nanos
    }

    /// The calendar year of the local date-time.
    pub fn year(self) -> (r: i32)
        ensures
            r == year_at(self.local_nanos() as i128),
    {
        proof {
            use_type_invariant(self);
        }
        local_year(self.nanos + (self.offset as i128) * 1_000_000_000i128)
    }

    /// The text a format description writes for this time; the description
    /// must format it.
    pub fn to_text(self, format: String) -> (r: String)
        requires
            formatted(self.local_nanos() as i128, self.offset_seconds() as i32, format@) is Some,
        ensures
            r@ == formatted(self.local_nanos() as i128, self.offset_seconds() as i32, format@).unwrap(),
    {
        proof {
            use_type_invariant(self);
        }
        let local = self.nanos + (self.offset as i128) * 1_000_000_000i128;
        match format_date_time(local, self.offset, format.as_str()) {
            Some(s) => s,
            None => {
                proof {
                    assert(false);
                }
                String::new()
            },
        }
    }

    /// Whether a format description formats this time.
    pub fn formats(&self, format: &String) -> (r: bool)
        ensures
            r == formatted(self.local_nanos() as i128, self.offset_seconds() as i32, format@) is Some,
    {
        proof {
            use_type_invariant(self);
        }
        let local = self.nanos + (self.offset as i128) * 1_000_000_000i128;
        format_date_time(local, self.offset, format.as_str()).is_some()
    }

    /// The text a format description writes for this time, or `None` where
    /// the description or the formatting fails.
    pub fn try_to_text(self, format: String) -> (r: Option<String>)
        ensures
            r is Some <==> formatted(self.local_nanos() as i128, self.offset_seconds() as i32, format@) is Some,
            r matches Some(s) ==> s@ == formatted(self.local_nanos() as i128, self.offset_seconds() as i32, format@).unwrap(),
    {
        if self.formats(&format) {
            Some(self.to_text(format))
        } else {
            None
        }
    }

    /// The time whose nanosecond count is this time's divided by the
    /// duration's, rounded toward negative infinity.
    pub fn div_floor(self, duration: Duration) -> (t: Time)
        requires
            duration@ != 0,
            in_range(floor_div(self@, duration@)),
        ensures
            t@ == floor_div(self@, duration@),
            t.offset_seconds() == 0,
    {
        let d = duration.nanoseconds();
        let n = self.nanoseconds();
        Time::from_nanoseconds(div_floor_i128(n, d))
    }

    /// The Unix epoch, read in UTC.
    pub fn zero() -> (t: Time)
        ensures
            t@ == 0,
            t.offset_seconds() == 0,
    {
        Time { nanos: 0, offset: 0 }
    }

    /// The time a duration later (earlier, for a negative duration).
    pub fn add_duration(self, rhs: Duration) -> (t: Time)
        requires
            in_range(self@ + rhs@),
        ensures
            t@ == self@ + rhs@,
            t.offset_seconds() == 0,
    {
        let d = rhs.nanoseconds();
        let n = self.nanoseconds();
        Time::from_nanoseconds(n + d)
    }

    /// The time a duration earlier (later, for a negative duration).
    pub fn sub_duration(self, rhs: Duration) -> (t: Time)
        requires
            in_range(self@ - rhs@),
        ensures
            t@ == self@ - rhs@,
            t.offset_seconds() == 0,
    {
        let d = rhs.nanoseconds();
        let n = self.nanoseconds();
        Time::from_nanoseconds(n - d)
    }

    /// A time's offset is in range and its local date-time lies within
    /// the calendar.
    pub fn valid(&self)
        ensures
            valid_date_time(self@, self.offset_seconds()),
    {
        proof {
            use_type_invariant(self);
        }
    }

    /// The time a nonnegative duration earlier, read at the same offset.
    pub fn earlier_by(self, rhs: Duration) -> (t: Time)
        requires
            rhs@ >= 0,
            valid_date_time(self@ - rhs@, self.offset_seconds()),
        ensures
            t@ == self@ - rhs@,
            t.offset_seconds() == self.offset_seconds(),
    {
        let d = rhs.nanoseconds();
        proof {
            use_type_invariant(&self);
        }
        Time { nanos: self.nanos - d, offset: self.offset }
    }

    /// The time whose nanosecond count is the product of this time's and the
    /// duration's.
    pub fn mul_duration(self, rhs: Duration) -> (t: Time)
        requires
            in_range(self@ * rhs@),
        ensures
            t@ == self@ * rhs@,
            t.offset_seconds() == 0,
    {
        let d = rhs.nanoseconds();
        let n = self.nanoseconds();
        assert(i128::MIN <= n * d <= i128::MAX);
        Time::from_nanoseconds(n * d)
    }

    /// The time whose nanosecond count is this time's divided by the
    /// duration's, rounded toward zero.
    pub fn div_duration(self, rhs: Duration) -> (t: Time)
        requires
            rhs@ != 0,
            in_range(trunc_quot(self@, rhs@)),
        ensures
            t@ == trunc_quot(self@, rhs@),
            t.offset_seconds() == 0,
    {
        let d = rhs.nanoseconds();
        let n = self.nanoseconds();
        let a: i128 = if n >= 0 { n } else { -n };
        let b: i128 = if d >= 0 { d } else { -d };
        let q0 = a / b;
        let q1: i128 = if n >= 0 { q0 } else { -q0 };
        let q: i128 = if d > 0 { q1 } else { -q1 };
        Time::from_nanoseconds(q)
    }

    /// Whether this time's nanosecond count equals the duration's.
    pub fn eq_duration(&self, other: &Duration) -> (r: bool)
        ensures
            r == (self@ == other@),
    {
        self.nanoseconds() == other.nanoseconds()
    }

    /// Whether this time is strictly earlier than another.
    pub fn is_before(&self, other: &Time) -> (r: bool)
        ensures
            r == (self@ < other@),
    {
        self.nanos < other.nanos
    }
}

} // verus!
