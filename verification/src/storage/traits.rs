//! Query shapes that the stores share.

use vstd::prelude::*;

use crate::collections::{count_where, lemma_filter_push};
use crate::domain::{CheckResult, CheckStatus};
use crate::error::AppError;
use crate::strings::{str_eq, trim, trimmed};
use crate::time::{later, later_of, Timestamp, NANOS_PER_SEC, SECS_PER_DAY};

verus! {

/// Where check results go.
pub trait ResultSink {
    /// Everything written so far, oldest write first.
    spec fn written(&self) -> Seq<CheckResult>;

    fn write_batch(&mut self, results: &Vec<CheckResult>) -> (r: Result<(), AppError>)
        ensures
            r is Ok ==> final(self).written() == old(self).written() + results@,
    ;
}

/// How a target list is ordered.
#[derive(Debug, Clone, Copy, PartialEq, Eq, Structural)]
pub enum TargetSort {
    RecentActivity,
    Name,
    Created,
}

impl Default for TargetSort {
    fn default() -> (r: Self)
        ensures
            r == TargetSort::RecentActivity,
    {
        TargetSort::RecentActivity
    }
}

/// Which targets a list holds.
#[derive(Debug)]
pub struct TargetFilter {
    pub limit: Option<usize>,
    pub offset: usize,
    /// Case-insensitive substring of the name. Blank means no filter.
    pub q: Option<String>,
    pub tag: Option<String>,
    pub enabled: Option<bool>,
    /// Blank means no filter.
    pub group: Option<String>,
    pub owner: Option<u128>,
    /// `check_spec` type tag.
    pub kind: Option<String>,
    /// Restrict to targets that run in this region.
    pub region: Option<String>,
    pub sort: TargetSort,
}

impl Default for TargetFilter {
    fn default() -> (r: Self)
        ensures
            r.limit is None,
            r.offset == 0,
            r.q is None,
            r.tag is None,
            r.enabled is None,
            r.group is None,
            r.owner is None,
            r.kind is None,
            r.region is None,
            r.sort == TargetSort::RecentActivity,
    {
        TargetFilter {
            limit: None,
            offset: 0,
            q: None,
            tag: None,
            enabled: None,
            group: None,
            owner: None,
            kind: None,
            region: None,
            sort: TargetSort::RecentActivity,
        }
    }
}

/// A region for the monitor assignment picker: id plus display fields.
/// `name`/`city` are empty when unset; the UI shows `name` (falling back to
/// `id`) and appends `city` when present.
#[derive(Debug)]
pub struct RegionOption {
    pub id: String,
    pub name: String,
    pub city: String,
    pub country_code: Option<String>,
    pub continent: Option<String>,
}

impl RegionOption {
    /// Catalog display name: `name`, falling back to the id when unset or
    /// auto-seeded equal to the id (the control-plane region).
    pub fn display_name(&self) -> (r: String)
        ensures
            r@ == (if trimmed(self.name@).len() == 0 {
                self.id@
            } else {
                trimmed(self.name@)
            }),
    {
        let name = trim(self.name.as_str());
        if name.as_str().is_empty() || str_eq(name.as_str(), self.id.as_str()) {
            self.id.clone()
        } else {
            name
        }
    }
}

/// A half-open span of time: `from` is in it, `to` is not.
#[derive(Debug, Clone, Copy, PartialEq, Eq, Structural)]
pub struct TimeRange {
    pub from: Timestamp,
    pub to: Timestamp,
}

impl TimeRange {
    pub open spec fn holds(self, t: Timestamp) -> bool {
        self.from.nanos <= t.nanos < self.to.nanos
    }

    pub fn contains(&self, t: Timestamp) -> (r: bool)
        ensures
            r == self.holds(t),
    {
        self.from.nanos <= t.nanos && t.nanos < self.to.nanos
    }
}

/// A [`TimeRange`] that passed a retention decision. The tenant read methods
/// take this, not a bare `TimeRange`, so the compiler refuses any read that
/// didn't pick a window — closing the per-surface bypass class.
#[derive(Debug, Clone, Copy, PartialEq, Eq, Structural)]
pub struct ClampedRange(TimeRange);

/// The longest span that a day count can stand for: its milliseconds fit into 64
/// bits. A longer one counts as no span at all.
pub const MAX_WINDOW_DAYS: i64 = 106_751_991_167;

/// The days that a retention window reaches back.
pub open spec fn window_reach(window_days: i64) -> i64 {
    if window_days < 0 || window_days > MAX_WINDOW_DAYS {
        0
    } else {
        window_days
    }
}

/// The start of a retention window that ends now.
pub open spec fn window_floor(window_days: i64, now: Timestamp) -> Timestamp {
    Timestamp {
        nanos: (now.nanos - window_reach(window_days) * SECS_PER_DAY * NANOS_PER_SEC) as i128,
    }
}

impl ClampedRange {
    pub closed spec fn range(self) -> TimeRange {
        self.0
    }

    /// Clamp `from` forward to `window_days` before `now`. `window_days` comes
    /// from the plan, keeping storage free of the plan model.
    pub fn for_window(range: TimeRange, window_days: i64, now: Timestamp) -> (r: Self)
        requires
            now.wf(),
            window_floor(window_days, now).wf(),
        ensures
            r.range().from == later(range.from, window_floor(window_days, now)),
            r.range().to == range.to,
    {
        let days: i64 = if window_days < 0 || window_days > MAX_WINDOW_DAYS {
            0
        } else {
            window_days
        };
        let floor = Timestamp {
            nanos: now.nanos - days as i128 * SECS_PER_DAY as i128 * NANOS_PER_SEC,
        };
        ClampedRange(TimeRange { from: later_of(range.from, floor), to: range.to })
    }

    /// System read that must see the full window (incident detection, building
    /// the public view) — explicit opt-out from the clamp.
    pub fn unclamped(range: TimeRange) -> (r: Self)
        ensures
            r.range() == range,
    {
        ClampedRange(range)
    }

    pub fn inner(&self) -> (r: TimeRange)
        ensures
            r == self.range(),
    {
        self.0
    }
}

/// Clamping never widens a range: nothing that the clamped range holds was
/// outside the requested one, nor before the window.
pub proof fn law_clamp_never_widens(
    range: TimeRange,
    window_days: i64,
    now: Timestamp,
    clamped: TimeRange,
    t: Timestamp,
)
    requires
        clamped.from == later(range.from, window_floor(window_days, now)),
        clamped.to == range.to,
        clamped.holds(t),
    ensures
        range.holds(t),
        t.nanos >= window_floor(window_days, now).nanos,
{
}

/// Round a requested bucket width up to a whole number of 60s rollup rows, so
/// every output bucket spans an integer count of minutes (grid alignment is the
/// caller's).
pub open spec fn rollup_bucket(bucket_seconds: u32) -> int {
    if bucket_seconds <= 60 {
        60
    } else {
        (bucket_seconds + 59) / 60 * 60
    }
}

/// Round a requested bucket width up to a whole number of 60s rollup rows.
pub fn rollup_bucket_secs(bucket_seconds: u32) -> (r: u32)
    requires
        bucket_seconds <= 4_294_967_280,
    ensures
        r == rollup_bucket(bucket_seconds),
        r >= 60,
{
    let wide: u64 = if bucket_seconds < 60 {
        60
    } else {
        bucket_seconds as u64
    };
    ((wide + 59) / 60 * 60) as u32
}

/// A rollup bucket spans whole minutes, at least one and at least what was asked
/// for, and less than a minute more than that.
pub proof fn law_rollup_bucket_spans_whole_minutes(bucket_seconds: u32)
    ensures
        rollup_bucket(bucket_seconds) % 60 == 0,
        rollup_bucket(bucket_seconds) >= 60,
        rollup_bucket(bucket_seconds) >= bucket_seconds,
        bucket_seconds >= 60 ==> rollup_bucket(bucket_seconds) < bucket_seconds + 60,
{
}

/// How many checks had each verdict.
#[derive(Debug, Clone, Copy, PartialEq, Eq, Structural)]
pub struct UptimeStats {
    pub total: u64,
    pub up: u64,
    pub down: u64,
    pub degraded: u64,
    pub error: u64,
}

/// How many of `rows` have this status.
pub open spec fn with_status(rows: Seq<CheckResult>, s: CheckStatus) -> nat {
    rows.filter(|r: CheckResult| r.status == s).len()
}

impl UptimeStats {
    /// Counts the verdicts of a list of results.
    pub fn from_results(results: &Vec<CheckResult>) -> (r: Self)
        ensures
            r.total == results@.len(),
            r.up == with_status(results@, CheckStatus::Up),
            r.down == with_status(results@, CheckStatus::Down),
            r.degraded == with_status(results@, CheckStatus::Degraded),
            r.error == with_status(results@, CheckStatus::Error),
    {
        UptimeStats {
            total: results.len() as u64,
            up: count_status(results, CheckStatus::Up),
            down: count_status(results, CheckStatus::Down),
            degraded: count_status(results, CheckStatus::Degraded),
            error: count_status(results, CheckStatus::Error),
        }
    }
}

/// How many of `rows` have this status.
pub fn count_status(rows: &Vec<CheckResult>, s: CheckStatus) -> (n: u64)
    ensures
        n == with_status(rows@, s),
        n <= rows@.len(),
{
    let same = |r: &CheckResult| -> (b: bool)
        ensures
            b == (r.status == s),
    { r.status == s };
    let n: usize = count_where(rows, same, Ghost(|r: CheckResult| r.status == s));
    n as u64
}

/// A range holds its first instant and not its last, and what lies between.
pub proof fn law_a_range_is_half_open(range: TimeRange, t: Timestamp)
    ensures
        range.holds(t) <==> t.nanos >= range.from.nanos && t.nanos < range.to.nanos,
        range.from.nanos < range.to.nanos ==> range.holds(range.from),
        !range.holds(range.to),
{
}

/// A clamped range starts no earlier than so many days before now and no earlier than asked
/// for, at one of the two; a day has 86 400 seconds, and a window of no days reaches no way
/// back.
pub proof fn law_the_window_is_in_days(from: Timestamp, window_days: i64, now: Timestamp)
    requires
        0 <= window_days <= MAX_WINDOW_DAYS,
        now.wf(),
        window_floor(window_days, now).wf(),
    ensures
        ({
            let clamped = later(from, window_floor(window_days, now));
            &&& clamped.nanos >= from.nanos
            &&& now.nanos - clamped.nanos <= window_days * 86_400_000_000_000
            &&& clamped == from || now.nanos - clamped.nanos == window_days * 86_400_000_000_000
        }),
{
    assert(window_days * SECS_PER_DAY * NANOS_PER_SEC == window_days * 86_400_000_000_000)
        by (nonlinear_arith)
        requires
            SECS_PER_DAY == 86_400,
            NANOS_PER_SEC == 1_000_000_000,
    ;
    let n = now.nanos - window_days * 86_400_000_000_000;
    assert(i128::MIN <= n <= i128::MAX) by (nonlinear_arith)
        requires
            0 <= window_days <= 106_751_991_167,
            -8_334_601_228_800_000_000_000 <= now.nanos <= 8_210_266_876_801_000_000_000,
            n == now.nanos - window_days * 86_400_000_000_000,
    ;
}

/// A result counts once, under its own status: the four counts add up to the list's length, and
/// one result more adds one to the count of its status.
pub proof fn law_verdicts_are_counted_once(rows: Seq<CheckResult>, x: CheckResult, s: CheckStatus)
    ensures
        with_status(rows.push(x), s) == with_status(rows, s) + (if x.status == s {
            1nat
        } else {
            0nat
        }),
        with_status(Seq::empty(), s) == 0,
        with_status(rows, CheckStatus::Up) + with_status(rows, CheckStatus::Down) + with_status(
            rows,
            CheckStatus::Degraded,
        ) + with_status(rows, CheckStatus::Error) == rows.len(),
    decreases rows.len(),
{
    reveal(Seq::filter);
    lemma_filter_push(rows, x, |r: CheckResult| r.status == s);
    if rows.len() > 0 {
        let front = rows.drop_last();
        law_verdicts_are_counted_once(front, rows.last(), s);
        let last = rows.last();
        assert(rows =~= front.push(last));
        lemma_filter_push(front, last, |r: CheckResult| r.status == CheckStatus::Up);
        lemma_filter_push(front, last, |r: CheckResult| r.status == CheckStatus::Down);
        lemma_filter_push(front, last, |r: CheckResult| r.status == CheckStatus::Degraded);
        lemma_filter_push(front, last, |r: CheckResult| r.status == CheckStatus::Error);
    }
}

} // verus!
