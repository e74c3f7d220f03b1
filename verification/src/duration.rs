//! Signed spans of time with nanosecond precision.
//!
//! A `Duration` is kept as whole seconds plus a sub-second nanosecond part of
//! the same sign, as the `time` crate keeps its signed durations. Its view is
//! the total number of nanoseconds it spans.
use vstd::arithmetic::div_mod::lemma_div_denominator;
use vstd::arithmetic::div_mod::lemma_fundamental_div_mod_converse;
use vstd::prelude::*;

verus! {

/// Nanoseconds in one second.
pub const NANOS_PER_SECOND: i128 = 1_000_000_000i128;

/// Division of `a` by a positive `b`, rounded toward zero (as Rust's `/`).
pub open spec fn trunc_div(a: int, b: int) -> int
    recommends
        b > 0,
{
    if a >= 0 {
        a / b
    } else {
        -((-a) / b)
    }
}

/// The largest number of nanoseconds a duration can span.
pub open spec fn max_duration_nanos() -> int {
    i64::MAX * 1_000_000_000 + 999_999_999
}

/// The smallest number of nanoseconds a duration can span.
pub open spec fn min_duration_nanos() -> int {
    i64::MIN * 1_000_000_000 - 999_999_999
}

/// A signed span of time.
#[derive(Clone, Copy, Debug, PartialEq, Eq, Hash, PartialOrd, Ord)]
pub struct Duration {
    seconds: i64,
    nanoseconds: i32,
}

impl View for Duration {
    type V = int;

    /// The total number of nanoseconds spanned.
    closed spec fn view(&self) -> int {
        self.seconds * 1_000_000_000 + self.nanoseconds
    }
}

/// `q` is the truncated quotient of `a` by the positive `b` whenever
/// `a == q * b + r` with `r` below `b` in size and of the sign of `a`.
proof fn lemma_trunc_div_parts(a: int, b: int, q: int, r: int)
    requires
        b > 0,
        a == q * b + r,
        (q >= 0 && 0 <= r < b) || (q <= 0 && -b < r <= 0),
    ensures
        trunc_div(a, b) == q,
{
    if q >= 0 && 0 <= r {
        assert(a >= 0) by (nonlinear_arith)
            requires
                q >= 0,
                b > 0,
                r >= 0,
                a == q * b + r,
        ;
        lemma_fundamental_div_mod_converse(a, b, q, r);
    } else {
        assert(-a == (-q) * b + (-r)) by (nonlinear_arith)
            requires
                a == q * b + r,
        ;
        if a >= 0 {
            assert(q * b <= 0) by (nonlinear_arith)
                requires
                    q <= 0,
                    b > 0,
            ;
            assert(a == 0 && r == 0 && q * b == 0);
            assert(q == 0) by (nonlinear_arith)
                requires
                    q * b == 0,
                    b > 0,
            ;
            assert(a / b == 0);
        } else {
            lemma_fundamental_div_mod_converse(-a, b, -q, -r);
        }
    }
}

/// Rounding toward zero twice equals rounding once by the product.
pub proof fn lemma_trunc_div_twice(a: int, b: int, c: int)
    requires
        b > 0,
        c > 0,
    ensures
        trunc_div(trunc_div(a, b), c) == trunc_div(a, b * c),
{
    assert(b * c > 0) by (nonlinear_arith)
        requires
            b > 0,
            c > 0,
    ;
    if a >= 0 {
        lemma_div_denominator(a, b, c);
    } else {
        lemma_div_denominator(-a, b, c);
        assert((-a) / b >= 0);
        if (-a) / b == 0 {
            assert(0int / c == 0);
        }
    }
}

impl Duration {
    /// Well-formedness: the sub-second part is below one second and has the
    /// sign of the whole.
    #[verifier::type_invariant]
    spec fn inv(self) -> bool {
        &&& -1_000_000_000 < self.nanoseconds < 1_000_000_000
        &&& self.seconds > 0 ==> self.nanoseconds >= 0
        &&& self.seconds < 0 ==> self.nanoseconds <= 0
    }

    /// Builds a duration from a total that is split into its two parts here.
    fn from_total(total: i128) -> (d: Duration)
        requires
            -max_duration_nanos() <= total <= max_duration_nanos(),
        ensures
            d@ == total,
    {
        if total >= 0 {
            let s = total / NANOS_PER_SECOND;
            let n = total % NANOS_PER_SECOND;
            assert(s <= i64::MAX);
            Duration { seconds: s as i64, nanoseconds: n as i32 }
        } else {
            let p = -total;
            let s = p / NANOS_PER_SECOND;
            let n = p % NANOS_PER_SECOND;
            assert(s <= i64::MAX);
            Duration { seconds: -(s as i64), nanoseconds: -(n as i32) }
        }
    }

    /// A duration of `minutes` minutes; the product must fit the seconds count.
    pub fn from_minutes(minutes: i64) -> (d: Duration)
        requires
            i64::MIN <= minutes * 60 <= i64::MAX,
        ensures
            d@ == minutes * 60 * 1_000_000_000,
    {
        Duration { seconds: minutes * 60, nanoseconds: 0 }
    }

    /// A duration of `seconds` seconds.
    pub fn from_seconds(seconds: i64) -> (d: Duration)
        ensures
            d@ == seconds * 1_000_000_000,
    {
        Duration { seconds, nanoseconds: 0 }
    }

    /// A duration of `milliseconds` milliseconds.
    pub fn from_milliseconds(milliseconds: i64) -> (d: Duration)
        ensures
            d@ == milliseconds * 1_000_000,
    {
        let total = (milliseconds as i128) * 1_000_000i128;
        Self::from_total(total)
    }

    /// A duration of `microseconds` microseconds.
    pub fn from_microseconds(microseconds: i64) -> (d: Duration)
        ensures
            d@ == microseconds * 1_000,
    {
        let total = (microseconds as i128) * 1_000i128;
        Self::from_total(total)
    }

    /// A duration of `nanoseconds` nanoseconds.
    pub fn from_nanoseconds(nanoseconds: i64) -> (d: Duration)
        ensures
            d@ == nanoseconds,
    {
        Self::from_total(nanoseconds as i128)
    }

    /// The number of whole seconds, rounded toward zero.
    pub fn seconds(self) -> (r: i64)
        ensures
            r == trunc_div(self@, 1_000_000_000),
    {
        proof {
            use_type_invariant(self);
            lemma_trunc_div_parts(self@, 1_000_000_000, self.seconds as int, self.nanoseconds as int);
        }
        self.seconds
    }

    /// The number of whole milliseconds, rounded toward zero.
    pub fn milliseconds(self) -> (r: i128)
        ensures
            r == trunc_div(self@, 1_000_000),
    {
        proof {
            use_type_invariant(self);
        }
        let n = self.nanoseconds;
        let sub: i128 = if n >= 0 {
            (n as i128) / 1_000_000i128
        } else {
            -((-(n as i128)) / 1_000_000i128)
        };
        proof {
            let q = self.seconds * 1000 + sub;
            let r = n - sub * 1_000_000;
            assert(self@ == q * 1_000_000 + r);
            lemma_trunc_div_parts(self@, 1_000_000, q, r);
        }
        (self.seconds as i128) * 1000i128 + sub
    }

    /// The number of whole microseconds, rounded toward zero.
    pub fn microseconds(self) -> (r: i128)
        ensures
            r == trunc_div(self@, 1_000),
    {
        proof {
            use_type_invariant(self);
        }
        let n = self.nanoseconds;
        let sub: i128 = if n >= 0 {
            (n as i128) / 1_000i128
        } else {
            -((-(n as i128)) / 1_000i128)
        };
        proof {
            let q = self.seconds * 1_000_000 + sub;
            let r = n - sub * 1_000;
            assert(self@ == q * 1_000 + r);
            lemma_trunc_div_parts(self@, 1_000, q, r);
        }
        (self.seconds as i128) * 1_000_000i128 + sub
    }

    /// The total number of nanoseconds.
    pub fn nanoseconds(self) -> (r: i128)
        ensures
            r == self@,
            min_duration_nanos() <= r <= max_duration_nanos(),
    {
        proof {
            use_type_invariant(self);
        }
        (self.seconds as i128) * NANOS_PER_SECOND + (self.nanoseconds as i128)
    }

    /// Whole seconds divided by the given positive unit, rounded toward zero.
    fn whole_units(self, unit: i64) -> (r: i64)
        requires
            unit >= 2,
        ensures
            r == trunc_div(self@, 1_000_000_000 * unit),
    {
        proof {
            use_type_invariant(self);
            lemma_trunc_div_parts(self@, 1_000_000_000, self.seconds as int, self.nanoseconds as int);
            lemma_trunc_div_twice(self@, 1_000_000_000, unit as int);
        }
        let s = self.seconds;
        if s >= 0 {
            let r = s / unit;
            assert(r == trunc_div(s as int, unit as int));
            r
        } else {
            let p = -(s as i128);
            let q = p / (unit as i128);
            assert(q <= p / 2) by (nonlinear_arith)
                requires
                    p >= 0,
                    unit >= 2,
                    q == p / (unit as i128),
            ;
            assert(-q == trunc_div(s as int, unit as int));
            -(q as i64)
        }
    }

    /// The number of whole days, rounded toward zero.
    pub fn days(self) -> (r: i64)
        ensures
            r == trunc_div(self@, 86_400_000_000_000),
    {
        self.whole_units(86_400)
    }

    /// The number of whole hours, rounded toward zero.
    pub fn hours(self) -> (r: i64)
        ensures
            r == trunc_div(self@, 3_600_000_000_000),
    {
        self.whole_units(3_600)
    }

    /// The number of whole weeks, rounded toward zero.
    pub fn weeks(self) -> (r: i64)
        ensures
            r == trunc_div(self@, 604_800_000_000_000),
    {
        self.whole_units(604_800)
    }
}

} // verus!
