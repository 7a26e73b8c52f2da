//! Instants and spans. An instant is a count of nanoseconds since 1970 in UTC;
//! the calendar that clocks and databases hand out spans the years from
//! -262143 to 262142.

use vstd::prelude::*;

verus! {

pub const NANOS_PER_SEC: i128 = 1_000_000_000;

pub const NANOS_PER_MILLI: i128 = 1_000_000;

pub const SECS_PER_DAY: i64 = 86_400;

/// First second of the calendar.
pub const MIN_SECS: i64 = -8_334_601_228_800;

/// Last second of the calendar.
pub const MAX_SECS: i64 = 8_210_266_876_799;

/// An instant in UTC.
#[derive(Debug, Clone, Copy, PartialEq, Eq, Structural, PartialOrd, Ord, Hash)]
pub struct Timestamp {
    /// Nanoseconds since 1970-01-01T00:00:00Z.
    pub nanos: i128,
}

/// `a / b` rounded towards negative infinity.
pub fn floor_div(a: i128, b: i128) -> (r: i128)
    requires
        b > 0,
    ensures
        r == a as int / b as int,
        a >= 0 ==> 0 <= r <= a,
        a < 0 ==> a <= r < 0,
{
    if a >= 0 {
        proof {
            lemma_div_at_most(a as int, b as int);
        }
        a / b
    } else {
        let m: i128 = -(a + 1);
        proof {
            lemma_div_at_most(m as int, b as int);
            lemma_floor_of_negative(a as int, b as int);
        }
        -(m / b) - 1
    }
}

proof fn lemma_div_at_most(a: int, b: int)
    by (nonlinear_arith)
    requires
        a >= 0,
        b > 0,
    ensures
        0 <= a / b <= a,
{
}

proof fn lemma_floor_of_negative(a: int, b: int)
    requires
        a < 0,
        b > 0,
    ensures
        a / b == -((-(a + 1)) / b) - 1,
{
    let m = -(a + 1);
    let q = m / b;
    let r = m % b;
    assert(m == b * q + r) by {
        vstd::arithmetic::div_mod::lemma_fundamental_div_mod(m, b);
    }
    assert(0 <= r < b) by {
        vstd::arithmetic::div_mod::lemma_mod_bound(m, b);
    }
    let q2 = -q - 1;
    let r2 = b - 1 - r;
    assert(a == q2 * b + r2) by (nonlinear_arith)
        requires
            m == b * q + r,
            m == -(a + 1),
            q2 == -q - 1,
            r2 == b - 1 - r,
    ;
    vstd::arithmetic::div_mod::lemma_fundamental_div_mod_converse(a, b, q2, r2);
}

impl Timestamp {
    /// The instant lies within the calendar.
    pub open spec fn wf(self) -> bool {
        MIN_SECS * NANOS_PER_SEC <= self.nanos < (MAX_SECS + 2) * NANOS_PER_SEC
    }

    /// Whole seconds since 1970, rounded down. Every instant of the calendar's
    /// fit into 64 bits; one beyond counts as the last that does.
    pub open spec fn unix(self) -> int {
        let secs = self.nanos as int / NANOS_PER_SEC as int;
        if secs > i64::MAX {
            i64::MAX as int
        } else if secs < i64::MIN + 1 {
            i64::MIN + 1
        } else {
            secs
        }
    }

    /// The instant at a second and a nanosecond within it. A leap second's
    /// nanoseconds run past one billion.
    pub fn from_parts(secs: i64, nanos: u32) -> (r: Timestamp)
        requires
            MIN_SECS <= secs <= MAX_SECS,
            nanos < 2_000_000_000,
        ensures
            r.nanos == secs * NANOS_PER_SEC + nanos,
            r.nanos == secs * 1_000_000_000 + nanos,
            r.wf(),
    {
        Timestamp { nanos: secs as i128 * NANOS_PER_SEC + nanos as i128 }
    }

    /// The instant at a whole second.
    pub fn from_secs(secs: i64) -> (r: Timestamp)
        requires
            MIN_SECS <= secs <= MAX_SECS,
        ensures
            r.nanos == secs * NANOS_PER_SEC,
            r.unix() == secs,
            r.wf(),
    {
        Self::from_parts(secs, 0)
    }

    /// Whole seconds since 1970, rounded down.
    pub fn timestamp(&self) -> (r: i64)
        ensures
            r == self.unix(),
            self.wf() ==> r * 1_000_000_000 <= self.nanos < r * 1_000_000_000 + 1_000_000_000,
            self.wf() ==> MIN_SECS <= r <= MAX_SECS + 1,
    {
        let q: i128 = floor_div(self.nanos, NANOS_PER_SEC);
        if q > i64::MAX as i128 {
            i64::MAX
        } else if q < i64::MIN as i128 + 1 {
            i64::MIN + 1
        } else {
            q as i64
        }
    }

    /// Whole milliseconds since 1970, rounded down.
    pub fn timestamp_millis(&self) -> (r: i64)
        requires
            self.wf(),
        ensures
            r == self.nanos as int / NANOS_PER_MILLI as int,
            r * 1_000_000 <= self.nanos < r * 1_000_000 + 1_000_000,
    {
        let q: i128 = floor_div(self.nanos, NANOS_PER_MILLI);
        q as i64
    }

    /// The instant `secs` seconds later, or earlier for a negative count.
    pub fn plus_secs(&self, secs: i64) -> (r: Timestamp)
        requires
            self.wf(),
            (Timestamp { nanos: (self.nanos + secs * NANOS_PER_SEC) as i128 }).wf(),
        ensures
            r.nanos == self.nanos + secs * NANOS_PER_SEC,
            r.nanos == self.nanos + secs * 1_000_000_000,
            r.wf(),
    {
        Timestamp { nanos: self.nanos + secs as i128 * NANOS_PER_SEC }
    }
}

/// The later of two instants.
pub open spec fn later(a: Timestamp, b: Timestamp) -> Timestamp {
    if a.nanos < b.nanos {
        b
    } else {
        a
    }
}

/// The later of two instants.
pub fn later_of(a: Timestamp, b: Timestamp) -> (r: Timestamp)
    ensures
        r == later(a, b),
        r.nanos >= a.nanos && r.nanos >= b.nanos,
        r == a || r == b,
{
    if a.nanos < b.nanos {
        b
    } else {
        a
    }
}

/// `chrono::Utc::now`: the wall clock, as whole seconds since 1970 and the
/// nanoseconds within that second. The reading lies within chrono's calendar,
/// and a leap second's nanoseconds reach below two billion; which instant it is
/// depends on the machine.
#[verifier::external_body]
fn utc_now() -> (r: (i64, u32))
    ensures
        MIN_SECS <= r.0 <= MAX_SECS,
        r.1 < 2_000_000_000,
{
    let now = chrono::Utc::now();
    (now.timestamp(), now.timestamp_subsec_nanos())
}

/// The wall clock's instant.
pub fn now() -> (r: Timestamp)
    ensures
        r.wf(),
{
    let (secs, nanos) = utc_now();
    Timestamp::from_parts(secs, nanos)
}

/// `a / b` rounded towards zero.
pub open spec fn trunc_div_spec(a: int, b: int) -> int {
    if a >= 0 {
        a / b
    } else {
        -((-a) / b)
    }
}

/// `a / b` rounded towards zero, for a positive divisor.
pub fn trunc_div(a: i64, b: i64) -> (r: i64)
    requires
        b > 0,
        a > i64::MIN,
    ensures
        r == trunc_div_spec(a as int, b as int),
        a >= 0 ==> 0 <= r * b <= a,
        a < 0 ==> a <= r * b <= 0,
{
    let m: i64 = if a >= 0 {
        a
    } else {
        -a
    };
    let q: i64 = m / b;
    assert(0 <= q * b <= m) by (nonlinear_arith)
        requires
            m >= 0,
            b > 0,
            q == m as int / b as int,
    ;
    if a >= 0 {
        q
    } else {
        assert(q <= m) by (nonlinear_arith)
            requires
                m >= 0,
                b > 0,
                q == m as int / b as int,
        ;
        assert((-q) * b == -(q * b)) by (nonlinear_arith);
        -q
    }
}

} // verus!
