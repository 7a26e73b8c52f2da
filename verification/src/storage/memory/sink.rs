//! Check results in memory: the read side that backs tests and single-tenant
//! embedding. One instance holds one tenant's data, so the `org` that each read
//! takes scopes nothing here; isolation between tenants is the database's.

use vstd::prelude::*;

use crate::collections::{
    clone_all, distinct_sorted, insert_ordered, lemma_filter_len, lemma_filter_members,
    lemma_filter_push, lemma_listing, lemma_sorted_count, lemma_sorted_set, lemma_stable_sorted,
    page, page_of, select, sorted_set, stable_sort, stable_sorted,
};
use crate::domain::{CheckResult, CheckStatus};
use crate::error::AppError;
use crate::ids::OrgId;
use crate::storage::traits::{
    count_status, rollup_bucket, rollup_bucket_secs, with_status, ClampedRange, ResultSink,
    TimeRange, UptimeStats,
};
use crate::time::{trunc_div, trunc_div_spec, Timestamp};

verus! {

/// Check results, in the order they were written.
#[derive(Debug)]
pub struct InMemorySink {
    results: Vec<CheckResult>,
}

impl View for InMemorySink {
    type V = Seq<CheckResult>;

    closed spec fn view(&self) -> Seq<CheckResult> {
        self.results@
    }
}

impl ResultSink for InMemorySink {
    open spec fn written(&self) -> Seq<CheckResult> {
        self@
    }

    fn write_batch(&mut self, results: &Vec<CheckResult>) -> (r: Result<(), AppError>)
        ensures
            r is Ok,
    {
        let mut added = clone_all(results);
        self.results.append(&mut added);
        Ok(())
    }
}

/// The result is one of `target_id`'s within `range`.
pub open spec fn of_target(target_id: u128, range: TimeRange) -> spec_fn(CheckResult) -> bool {
    |r: CheckResult| r.target_id == target_id && range.holds(r.timestamp)
}

/// The result lies within `range`.
pub open spec fn within(range: TimeRange) -> spec_fn(CheckResult) -> bool {
    |r: CheckResult| range.holds(r.timestamp)
}

/// Newest first.
pub open spec fn newest_first() -> spec_fn(CheckResult, CheckResult) -> bool {
    |a: CheckResult, b: CheckResult| a.timestamp.nanos >= b.timestamp.nanos
}

/// Oldest first.
pub open spec fn oldest_first() -> spec_fn(CheckResult, CheckResult) -> bool {
    |a: CheckResult, b: CheckResult| a.timestamp.nanos <= b.timestamp.nanos
}

fn select_target(v: &Vec<CheckResult>, target_id: u128, range: TimeRange) -> (out: Vec<CheckResult>)
    ensures
        out@ == v@.filter(of_target(target_id, range)),
{
    let keep = |r: &CheckResult| -> (b: bool)
        ensures
            b == (r.target_id == target_id && range.holds(r.timestamp)),
    { r.target_id == target_id && range.contains(r.timestamp) };
    select(v, keep, Ghost(of_target(target_id, range)))
}

fn select_within(v: &Vec<CheckResult>, range: TimeRange) -> (out: Vec<CheckResult>)
    ensures
        out@ == v@.filter(within(range)),
{
    let keep = |r: &CheckResult| -> (b: bool)
        ensures
            b == range.holds(r.timestamp),
    { range.contains(r.timestamp) };
    select(v, keep, Ghost(within(range)))
}

fn sort_oldest_first(v: Vec<CheckResult>) -> (out: Vec<CheckResult>)
    ensures
        out@ == stable_sorted(v@, oldest_first()),
{
    let le = |a: &CheckResult, b: &CheckResult| -> (r: bool)
        ensures
            r == (a.timestamp.nanos <= b.timestamp.nanos),
    { a.timestamp.nanos <= b.timestamp.nanos };
    stable_sort(v, le, Ghost(oldest_first()))
}

/// How many targets' latest result had each verdict.
#[derive(Debug, Clone, Copy, PartialEq, Eq, Structural)]
pub struct StatusBreakdown {
    pub up: u64,
    pub down: u64,
    pub degraded: u64,
    pub error: u64,
}

/// `rows[i]` is its target's latest: no other row of the target is newer, and of
/// those just as new it was written first.
pub open spec fn is_latest(rows: Seq<CheckResult>, i: int) -> bool {
    forall|j: int|
        0 <= j < rows.len() && (#[trigger] rows[j]).target_id == rows[i].target_id ==> {
            ||| rows[j].timestamp.nanos < rows[i].timestamp.nanos
            ||| rows[j].timestamp.nanos == rows[i].timestamp.nanos && i <= j
        }
}

/// How many of the first `n` rows are their target's latest and have status `s`.
pub open spec fn latest_with(rows: Seq<CheckResult>, n: int, s: CheckStatus) -> nat
    decreases n,
{
    if n <= 0 {
        0
    } else {
        latest_with(rows, n - 1, s) + (if is_latest(rows, n - 1) && rows[n - 1].status == s {
            1nat
        } else {
            0
        })
    }
}

fn latest_at(rows: &Vec<CheckResult>, i: usize) -> (r: bool)
    requires
        i < rows@.len(),
    ensures
        r == is_latest(rows@, i as int),
{
    let mut j: usize = 0;
    while j < rows.len()
        invariant
            i < rows@.len(),
            j <= rows@.len(),
            forall|k: int|
                0 <= k < j && (#[trigger] rows@[k]).target_id == rows@[i as int].target_id ==> {
                    ||| rows@[k].timestamp.nanos < rows@[i as int].timestamp.nanos
                    ||| rows@[k].timestamp.nanos == rows@[i as int].timestamp.nanos && i <= k
                },
        decreases rows.len() - j,
    {
        if rows[j].target_id == rows[i].target_id && !(rows[j].timestamp.nanos
            < rows[i].timestamp.nanos || (rows[j].timestamp.nanos == rows[i].timestamp.nanos && i
            <= j)) {
            return false;
        }
        j += 1;
    }
    true
}

/// Nearest-rank index into `n` sorted values: the rank is `percent` of `n`
/// rounded up.
pub open spec fn rank_index(n: nat, percent: nat) -> int {
    let rank = (percent * n + 99) as int / 100;
    if rank == 0 {
        0
    } else if rank - 1 < n {
        rank - 1
    } else {
        n - 1
    }
}

/// Nearest-rank percentile of sorted values; zero of none.
pub open spec fn percentile_of(sorted: Seq<u32>, percent: nat) -> u32 {
    if sorted.len() == 0 {
        0
    } else {
        sorted[rank_index(sorted.len(), percent)]
    }
}

/// Nearest-rank percentile on a pre-sorted slice. Mirrors ClickHouse's
/// `quantile(p)` so that this store's answers compare with the database's.
/// Empty / single-element edge cases collapse to the natural answer (0 / the only
/// value).
pub fn percentile(sorted: &Vec<u32>, percent: u8) -> (r: u32)
    ensures
        r == percentile_of(sorted@, percent as nat),
{
    if sorted.len() == 0 {
        return 0;
    }
    let n: u128 = sorted.len() as u128;
    assert(percent * n <= 0xff * 0xffff_ffff_ffff_ffff) by (nonlinear_arith)
        requires
            0 <= percent <= 0xff,
            0 <= n <= 0xffff_ffff_ffff_ffff,
    ;
    let rank: u128 = (percent as u128 * n + 99) / 100;
    let at: u128 = if rank == 0 {
        0
    } else if rank - 1 < n {
        rank - 1
    } else {
        n - 1
    };
    sorted[at as usize]
}

/// A percentile is one of the values.
pub proof fn law_percentile_is_a_value(sorted: Seq<u32>, percent: nat)
    requires
        sorted.len() > 0,
    ensures
        sorted.contains(percentile_of(sorted, percent)),
{
    let at = rank_index(sorted.len(), percent);
    assert(0 <= at < sorted.len());
    assert(sorted[at] == percentile_of(sorted, percent));
}

/// A higher percentile is at least a lower one.
pub proof fn law_percentiles_ascend(sorted: Seq<u32>, p: nat, q: nat)
    requires
        forall|i: int, j: int| 0 <= i <= j < sorted.len() ==> sorted[i] <= sorted[j],
        p <= q,
    ensures
        percentile_of(sorted, p) <= percentile_of(sorted, q),
{
    let n = sorted.len();
    if n > 0 {
        assert(p * n <= q * n) by (nonlinear_arith)
            requires
                p <= q,
                n > 0,
        ;
        assert(rank_index(n, p) <= rank_index(n, q));
        assert(0 <= rank_index(n, p));
        assert(rank_index(n, q) < n);
    }
}

/// Sum of a sequence of durations.
pub open spec fn total_ms(s: Seq<u32>) -> nat
    decreases s.len(),
{
    if s.len() == 0 {
        0
    } else {
        total_ms(s.drop_last()) + s.last() as nat
    }
}

/// The mean rounded down, capped at 32 bits; zero of nothing.
pub open spec fn mean_of(sum: nat, n: nat) -> u32 {
    if n == 0 {
        0
    } else if sum / n > u32::MAX {
        u32::MAX
    } else {
        (sum / n) as u32
    }
}

fn mean(sum: u128, n: u128) -> (r: u32)
    ensures
        r == mean_of(sum as nat, n as nat),
{
    if n == 0 {
        0
    } else {
        let q: u128 = sum / n;
        if q > u32::MAX as u128 {
            u32::MAX
        } else {
            q as u32
        }
    }
}

/// The durations of a list of results.
pub open spec fn durations(rows: Seq<CheckResult>) -> Seq<u32> {
    rows.map_values(|r: CheckResult| r.duration_ms)
}

/// Ascending order of durations.
pub open spec fn shorter_first() -> spec_fn(u32, u32) -> bool {
    |a: u32, b: u32| a <= b
}

fn collect_durations(rows: &Vec<CheckResult>) -> (r: (Vec<u32>, u128))
    ensures
        r.0@ == durations(rows@),
        r.1 == total_ms(durations(rows@)),
{
    let mut out: Vec<u32> = Vec::new();
    let mut sum: u128 = 0;
    let mut i: usize = 0;
    while i < rows.len()
        invariant
            i <= rows.len(),
            out@ == durations(rows@.take(i as int)),
            sum == total_ms(out@),
            sum <= i * 0xffff_ffff,
        decreases rows.len() - i,
    {
        let ghost prev = out@;
        let d: u32 = rows[i].duration_ms;
        assert(sum + d <= (i + 1) * 0xffff_ffff) by (nonlinear_arith)
            requires
                sum <= i * 0xffff_ffff,
                d <= 0xffff_ffff,
        ;
        assert((i + 1) * 0xffff_ffff <= u128::MAX) by (nonlinear_arith)
            requires
                i <= 0xffff_ffff_ffff_ffff,
        ;
        out.push(d);
        sum += d as u128;
        i += 1;
        assert(out@ =~= durations(rows@.take(i as int)));
        assert(out@.drop_last() =~= prev);
    }
    assert(rows@.take(i as int) =~= rows@);
    (out, sum)
}

/// A target's numbers over a range.
#[derive(Debug, Clone, Copy, PartialEq, Eq, Structural)]
pub struct DashboardMetrics {
    pub target_id: u128,
    pub samples: u64,
    pub up: u64,
    pub avg_ms: u32,
    pub p50_ms: u32,
    pub p95_ms: u32,
    /// Verdict of the newest sample.
    pub last_status: CheckStatus,
    /// Minute of the newest sample, in seconds since 1970.
    pub last_minute_ts: i64,
}

/// The minute that an instant lies in; one before 1970 counts as 1970.
pub open spec fn minute_of(t: Timestamp) -> int {
    let secs = if t.unix() < 0 {
        0
    } else {
        t.unix()
    };
    secs - secs % 60
}

/// `m` sums up `rows`, one target's results in the order they were written.
pub open spec fn summarises(m: DashboardMetrics, target_id: u128, rows: Seq<CheckResult>) -> bool {
    let by_age = stable_sorted(rows, oldest_first());
    let sorted = stable_sorted(durations(by_age), shorter_first());
    &&& m.target_id == target_id
    &&& m.samples == rows.len()
    &&& m.up == with_status(by_age, CheckStatus::Up)
    &&& m.avg_ms == mean_of(total_ms(durations(by_age)), rows.len())
    &&& m.p50_ms == percentile_of(sorted, 50)
    &&& m.p95_ms == percentile_of(sorted, 95)
    &&& m.last_status == by_age.last().status
    &&& m.last_minute_ts == minute_of(by_age.last().timestamp)
}

/// The targets of a list of results, in ascending order.
pub open spec fn targets_of(rows: Seq<CheckResult>) -> Seq<u128> {
    sorted_set(rows.map_values(|r: CheckResult| r.target_id), id_order())
}

/// Ascending order of ids.
pub open spec fn id_order() -> spec_fn(u128, u128) -> bool {
    |a: u128, b: u128| a < b
}

/// Ascending order of instants in seconds.
pub open spec fn slot_order() -> spec_fn(i64, i64) -> bool {
    |a: i64, b: i64| a < b
}

fn collect_targets(rows: &Vec<CheckResult>) -> (out: Vec<u128>)
    ensures
        out@ == targets_of(rows@),
{
    let mut ids: Vec<u128> = Vec::new();
    let mut i: usize = 0;
    while i < rows.len()
        invariant
            i <= rows@.len(),
            ids@ == rows@.take(i as int).map_values(|r: CheckResult| r.target_id),
        decreases rows.len() - i,
    {
        ids.push(rows[i].target_id);
        i += 1;
        assert(ids@ =~= rows@.take(i as int).map_values(|r: CheckResult| r.target_id));
    }
    assert(rows@.take(i as int) =~= rows@);
    let lt = |a: &u128, b: &u128| -> (r: bool)
        ensures
            r == (*a < *b),
    { *a < *b };
    distinct_sorted(&ids, lt, Ghost(id_order()))
}

proof fn lemma_target_has_rows(rows: Seq<CheckResult>, range: TimeRange, t: u128)
    requires
        targets_of(rows.filter(within(range))).contains(t),
    ensures
        rows.filter(of_target(t, range)).len() > 0,
{
    let hits = rows.filter(within(range));
    let ids = hits.map_values(|r: CheckResult| r.target_id);
    lemma_sorted_set(ids, id_order());
    assert(ids.contains(t));
    let i = ids.index_of(t);
    let row = hits[i];
    assert(hits.contains(row));
    lemma_filter_members(rows, within(range));
    lemma_filter_members(rows, of_target(t, range));
    assert(rows.filter(of_target(t, range)).contains(row));
}

/// The slot of width `bucket` seconds that an instant lies in.
pub open spec fn slot_of(t: Timestamp, bucket: int) -> int {
    trunc_div_spec(t.unix(), bucket) * bucket
}

fn slot_at(t: Timestamp, bucket: i64) -> (r: i64)
    requires
        bucket > 0,
    ensures
        r == slot_of(t, bucket as int),
        r > i64::MIN,
{
    let secs: i64 = t.timestamp();
    trunc_div(secs, bucket) * bucket
}

/// The distinct slots of a list of results, in ascending order.
pub open spec fn slots_of(rows: Seq<CheckResult>, bucket: int) -> Seq<i64> {
    sorted_set(rows.map_values(|r: CheckResult| slot_of(r.timestamp, bucket) as i64), slot_order())
}

/// The result lies in this slot.
pub open spec fn in_slot(slot: i64, bucket: int) -> spec_fn(CheckResult) -> bool {
    |r: CheckResult| slot_of(r.timestamp, bucket) == slot
}

fn collect_slots(rows: &Vec<CheckResult>, bucket: i64) -> (out: Vec<i64>)
    requires
        bucket > 0,
    ensures
        out@ == slots_of(rows@, bucket as int),
{
    let mut slots: Vec<i64> = Vec::new();
    let mut i: usize = 0;
    while i < rows.len()
        invariant
            i <= rows@.len(),
            bucket > 0,
            slots@ == rows@.take(i as int).map_values(
                |r: CheckResult| slot_of(r.timestamp, bucket as int) as i64,
            ),
        decreases rows.len() - i,
    {
        slots.push(slot_at(rows[i].timestamp, bucket));
        i += 1;
        assert(slots@ =~= rows@.take(i as int).map_values(
            |r: CheckResult| slot_of(r.timestamp, bucket as int) as i64,
        ));
    }
    assert(rows@.take(i as int) =~= rows@);
    let lt = |a: &i64, b: &i64| -> (r: bool)
        ensures
            r == (*a < *b),
    { *a < *b };
    distinct_sorted(&slots, lt, Ghost(slot_order()))
}

fn select_slot(v: &Vec<CheckResult>, slot: i64, bucket: i64) -> (out: Vec<CheckResult>)
    requires
        bucket > 0,
    ensures
        out@ == v@.filter(in_slot(slot, bucket as int)),
{
    let keep = |r: &CheckResult| -> (b: bool)
        ensures
            b == (slot_of(r.timestamp, bucket as int) == slot),
    { slot_at(r.timestamp, bucket) == slot };
    select(v, keep, Ghost(in_slot(slot, bucket as int)))
}

/// Latency over one slot.
#[derive(Debug, Clone, Copy, PartialEq, Eq, Structural)]
pub struct LatencyBucket {
    /// Start of the slot, in milliseconds since 1970.
    pub t: i128,
    pub p50: u32,
    pub p95: u32,
    pub p99: u32,
    pub avg: u32,
    pub dns: u32,
    pub connect: u32,
    pub tls: u32,
    pub ttfb: u32,
    pub samples: u64,
}

/// The phase's samples that are there.
pub open spec fn phase_values(s: Seq<Option<u16>>) -> Seq<u32>
    decreases s.len(),
{
    if s.len() == 0 {
        Seq::empty()
    } else {
        match s.last() {
            Some(v) => phase_values(s.drop_last()).push(v as u32),
            None => phase_values(s.drop_last()),
        }
    }
}

/// Mean of a phase over the samples that have it.
pub open spec fn phase_mean(s: Seq<Option<u16>>) -> u32 {
    mean_of(total_ms(phase_values(s)), phase_values(s).len())
}

/// The bucket of a slot that these results fell into.
pub open spec fn latency_bucket(slot: i64, rows: Seq<CheckResult>) -> LatencyBucket {
    let sorted = stable_sorted(durations(rows), shorter_first());
    LatencyBucket {
        t: (slot * 1000) as i128,
        p50: percentile_of(sorted, 50),
        p95: percentile_of(sorted, 95),
        p99: percentile_of(sorted, 99),
        avg: mean_of(total_ms(durations(rows)), rows.len()),
        dns: phase_mean(rows.map_values(|r: CheckResult| r.dns_ms)),
        connect: phase_mean(rows.map_values(|r: CheckResult| r.connect_ms)),
        tls: phase_mean(rows.map_values(|r: CheckResult| r.tls_ms)),
        ttfb: phase_mean(rows.map_values(|r: CheckResult| r.ttfb_ms)),
        samples: rows.len() as u64,
    }
}

fn sort_durations(v: Vec<u32>) -> (out: Vec<u32>)
    ensures
        out@ == stable_sorted(v@, shorter_first()),
{
    let le = |a: &u32, b: &u32| -> (r: bool)
        ensures
            r == (*a <= *b),
    { *a <= *b };
    stable_sort(v, le, Ghost(shorter_first()))
}

fn mean_phase(samples: &Vec<Option<u16>>) -> (r: u32)
    ensures
        r == phase_mean(samples@),
{
    let mut sum: u128 = 0;
    let mut n: u128 = 0;
    let mut i: usize = 0;
    assert(samples@.take(0) =~= Seq::<Option<u16>>::empty());
    while i < samples.len()
        invariant
            i <= samples.len(),
            n == phase_values(samples@.take(i as int)).len(),
            sum == total_ms(phase_values(samples@.take(i as int))),
            n <= i,
            sum <= i * 0xffff,
        decreases samples.len() - i,
    {
        let ghost seen = samples@.take(i as int);
        assert(samples@.take(i + 1).drop_last() =~= seen);
        assert(i * 0xffff + 0xffff <= u128::MAX) by (nonlinear_arith)
            requires
                i <= 0xffff_ffff_ffff_ffff,
        ;
        assert((i + 1) * 0xffff == i * 0xffff + 0xffff) by (nonlinear_arith);
        if let Some(v) = samples[i] {
            sum += v as u128;
            n += 1;
            assert(phase_values(seen).push(v as u32).drop_last() =~= phase_values(seen));
        }
        i += 1;
    }
    assert(samples@.take(i as int) =~= samples@);
    mean(sum, n)
}

fn latency_bucket_of(slot: i64, rows: &Vec<CheckResult>) -> (r: LatencyBucket)
    ensures
        r == latency_bucket(slot, rows@),
{
    let mut dns: Vec<Option<u16>> = Vec::new();
    let mut connect: Vec<Option<u16>> = Vec::new();
    let mut tls: Vec<Option<u16>> = Vec::new();
    let mut ttfb: Vec<Option<u16>> = Vec::new();
    let mut i: usize = 0;
    while i < rows.len()
        invariant
            i <= rows@.len(),
            dns@ == rows@.take(i as int).map_values(|r: CheckResult| r.dns_ms),
            connect@ == rows@.take(i as int).map_values(|r: CheckResult| r.connect_ms),
            tls@ == rows@.take(i as int).map_values(|r: CheckResult| r.tls_ms),
            ttfb@ == rows@.take(i as int).map_values(|r: CheckResult| r.ttfb_ms),
        decreases rows.len() - i,
    {
        dns.push(rows[i].dns_ms);
        connect.push(rows[i].connect_ms);
        tls.push(rows[i].tls_ms);
        ttfb.push(rows[i].ttfb_ms);
        i += 1;
        assert(dns@ =~= rows@.take(i as int).map_values(|r: CheckResult| r.dns_ms));
        assert(connect@ =~= rows@.take(i as int).map_values(|r: CheckResult| r.connect_ms));
        assert(tls@ =~= rows@.take(i as int).map_values(|r: CheckResult| r.tls_ms));
        assert(ttfb@ =~= rows@.take(i as int).map_values(|r: CheckResult| r.ttfb_ms));
    }
    assert(rows@.take(i as int) =~= rows@);
    let (raw, sum) = collect_durations(rows);
    let sorted = sort_durations(raw);
    LatencyBucket {
        t: slot as i128 * 1000,
        p50: percentile(&sorted, 50),
        p95: percentile(&sorted, 95),
        p99: percentile(&sorted, 99),
        avg: mean(sum, rows.len() as u128),
        dns: mean_phase(&dns),
        connect: mean_phase(&connect),
        tls: mean_phase(&tls),
        ttfb: mean_phase(&ttfb),
        samples: rows.len() as u64,
    }
}

/// Checks of the whole fleet over one slot.
#[derive(Debug, Clone, Copy, PartialEq, Eq, Structural)]
pub struct FleetRibbonBucket {
    /// Start of the slot, in seconds since 1970.
    pub bucket_ts: i64,
    pub samples: u64,
    pub up: u64,
}

/// The width of the ribbon's slots: at least a minute.
pub open spec fn ribbon_bucket(bucket_seconds: u32) -> int {
    if bucket_seconds < 60 {
        60
    } else {
        bucket_seconds as int
    }
}

/// The bucket of a slot that these results fell into.
pub open spec fn ribbon_at(slot: i64, rows: Seq<CheckResult>) -> FleetRibbonBucket {
    FleetRibbonBucket {
        bucket_ts: slot,
        samples: rows.len() as u64,
        up: with_status(rows, CheckStatus::Up) as u64,
    }
}

/// A target's durations within one minute.
#[derive(Debug, Clone, Copy, PartialEq, Eq, Structural)]
pub struct DashboardSparkBucket {
    pub target_id: u128,
    /// Start of the minute, in seconds since 1970.
    pub bucket_ts: i64,
    /// Sum of the durations; their mean is this over `checks`.
    pub sum_ms: u128,
    pub checks: u64,
}

/// Order by target, then by minute.
pub open spec fn spark_order() -> spec_fn((u128, i64), (u128, i64)) -> bool {
    |a: (u128, i64), b: (u128, i64)| a.0 < b.0 || (a.0 == b.0 && a.1 < b.1)
}

/// The distinct target and minute pairs of a list of results, in order.
pub open spec fn spark_keys(rows: Seq<CheckResult>) -> Seq<(u128, i64)> {
    sorted_set(
        rows.map_values(|r: CheckResult| (r.target_id, slot_of(r.timestamp, 60) as i64)),
        spark_order(),
    )
}

/// The result is this target's within this minute.
pub open spec fn in_spark(key: (u128, i64)) -> spec_fn(CheckResult) -> bool {
    |r: CheckResult| r.target_id == key.0 && slot_of(r.timestamp, 60) == key.1
}

/// The bucket of a target and minute that these results fell into.
pub open spec fn spark_at(key: (u128, i64), rows: Seq<CheckResult>) -> DashboardSparkBucket {
    DashboardSparkBucket {
        target_id: key.0,
        bucket_ts: key.1,
        sum_ms: total_ms(durations(rows)) as u128,
        checks: rows.len() as u64,
    }
}

/// Totals of the period before a range.
#[derive(Debug, Clone, Copy, PartialEq, Eq, Structural)]
pub struct PriorPeriodSummary {
    pub checks_total: u64,
    pub checks_up: u64,
    pub avg_ms: u32,
}

/// A sum that stays at the largest 64-bit number once it has reached it.
pub open spec fn saturated(sum: nat) -> nat {
    if sum > u64::MAX {
        u64::MAX as nat
    } else {
        sum
    }
}

fn saturate(sum: u128) -> (r: u128)
    ensures
        r == saturated(sum as nat),
{
    if sum > u64::MAX as u128 {
        u64::MAX as u128
    } else {
        sum
    }
}

/// The check failed outright.
pub open spec fn is_outage(s: CheckStatus) -> bool {
    s == CheckStatus::Down || s == CheckStatus::Error
}

/// How many runs of failed checks a target's history holds: a failed check
/// starts one where the check before it had not failed.
pub open spec fn outages(rows: Seq<CheckResult>) -> nat
    decreases rows.len(),
{
    if rows.len() == 0 {
        0
    } else {
        let starts = is_outage(rows.last().status) && (rows.len() == 1 || !is_outage(
            rows[rows.len() - 2].status,
        ));
        outages(rows.drop_last()) + (if starts {
            1nat
        } else {
            0
        })
    }
}

proof fn lemma_outages_at_most(rows: Seq<CheckResult>)
    ensures
        outages(rows) <= rows.len(),
    decreases rows.len(),
{
    if rows.len() > 0 {
        lemma_outages_at_most(rows.drop_last());
    }
}

/// How many runs of failed checks a target's history holds.
pub fn count_outages(rows: &Vec<CheckResult>) -> (n: u64)
    ensures
        n == outages(rows@),
        n <= rows@.len(),
{
    let mut n: u64 = 0;
    let mut down = false;
    let mut i: usize = 0;
    assert(rows@.take(0) =~= Seq::<CheckResult>::empty());
    while i < rows.len()
        invariant
            i <= rows.len(),
            n == outages(rows@.take(i as int)),
            n <= i,
            down == (i > 0 && is_outage(rows@[i - 1].status)),
        decreases rows.len() - i,
    {
        assert(rows@.take(i + 1).drop_last() =~= rows@.take(i as int));
        let bad = match rows[i].status {
            CheckStatus::Down | CheckStatus::Error => true,
            _ => false,
        };
        if bad && !down {
            n += 1;
        }
        down = bad;
        i += 1;
    }
    assert(rows@.take(i as int) =~= rows@);
    n
}

/// Outages of all these targets together.
pub open spec fn outages_of(all: Seq<CheckResult>, range: TimeRange, targets: Seq<u128>) -> nat
    decreases targets.len(),
{
    if targets.len() == 0 {
        0
    } else {
        outages_of(all, range, targets.drop_last()) + outages(
            stable_sorted(all.filter(of_target(targets.last(), range)), oldest_first()),
        )
    }
}

/// How many rows these targets have together.
spec fn rows_of(all: Seq<CheckResult>, range: TimeRange, targets: Seq<u128>) -> nat
    decreases targets.len(),
{
    if targets.len() == 0 {
        0
    } else {
        rows_of(all, range, targets.drop_last()) + all.filter(
            of_target(targets.last(), range),
        ).len()
    }
}

proof fn lemma_rows_of_push(
    all: Seq<CheckResult>,
    x: CheckResult,
    range: TimeRange,
    targets: Seq<u128>,
)
    requires
        targets.no_duplicates(),
    ensures
        rows_of(all.push(x), range, targets) == rows_of(all, range, targets) + (if range.holds(
            x.timestamp,
        ) && targets.contains(x.target_id) {
            1nat
        } else {
            0
        }),
    decreases targets.len(),
{
    if targets.len() > 0 {
        let front = targets.drop_last();
        let t = targets.last();
        lemma_rows_of_push(all, x, range, front);
        crate::collections::lemma_filter_push(all, x, of_target(t, range));
        crate::collections::lemma_push_contains(front, t);
        assert(targets =~= front.push(t));
        if front.contains(t) {
            let i = front.index_of(t);
            assert(targets[i] == targets[targets.len() - 1]);
        }
    }
}

proof fn lemma_rows_of_at_most(all: Seq<CheckResult>, range: TimeRange, targets: Seq<u128>)
    requires
        targets.no_duplicates(),
    ensures
        rows_of(all, range, targets) <= all.len(),
    decreases all.len(),
{
    if all.len() == 0 {
        lemma_rows_of_nothing(all, range, targets);
    } else {
        lemma_rows_of_at_most(all.drop_last(), range, targets);
        lemma_rows_of_push(all.drop_last(), all.last(), range, targets);
        assert(all =~= all.drop_last().push(all.last()));
    }
}

proof fn lemma_rows_of_nothing(all: Seq<CheckResult>, range: TimeRange, targets: Seq<u128>)
    requires
        all.len() == 0,
    ensures
        rows_of(all, range, targets) == 0,
    decreases targets.len(),
{
    if targets.len() > 0 {
        lemma_rows_of_nothing(all, range, targets.drop_last());
        lemma_filter_len(all, of_target(targets.last(), range));
    }
}

proof fn lemma_outages_of_at_most(all: Seq<CheckResult>, range: TimeRange, targets: Seq<u128>)
    ensures
        outages_of(all, range, targets) <= rows_of(all, range, targets),
    decreases targets.len(),
{
    if targets.len() > 0 {
        lemma_outages_of_at_most(all, range, targets.drop_last());
        let rows = all.filter(of_target(targets.last(), range));
        lemma_stable_sorted(rows, oldest_first());
        lemma_outages_at_most(stable_sorted(rows, oldest_first()));
    }
}

proof fn lemma_outages_of_prefix(
    all: Seq<CheckResult>,
    range: TimeRange,
    targets: Seq<u128>,
    k: int,
)
    requires
        0 <= k <= targets.len(),
    ensures
        outages_of(all, range, targets.take(k)) <= outages_of(all, range, targets),
    decreases targets.len() - k,
{
    if k < targets.len() {
        lemma_outages_of_prefix(all, range, targets.drop_last(), k);
        assert(targets.drop_last().take(k) =~= targets.take(k));
    } else {
        assert(targets.take(k) =~= targets);
    }
}

/// What the numbers of a whole fleet over a range are.
#[derive(Debug, Clone, Copy, PartialEq, Eq, Structural)]
pub struct FleetSummary {
    pub checks_total: u64,
    pub checks_up: u64,
    pub avg_ms: u32,
    pub incidents: u64,
}

impl InMemorySink {
    pub fn new() -> (r: Self)
        ensures
            r@ == Seq::<CheckResult>::empty(),
    {
        InMemorySink { results: Vec::new() }
    }

    /// Everything written so far.
    pub fn snapshot(&self) -> (out: Vec<CheckResult>)
        ensures
            out@ == self@,
    {
        clone_all(&self.results)
    }

    pub fn len(&self) -> (n: usize)
        ensures
            n == self@.len(),
    {
        self.results.len()
    }

    pub fn is_empty(&self) -> (r: bool)
        ensures
            r == (self@.len() == 0),
    {
        self.results.len() == 0
    }

    /// A target's results within a range, oldest first: what its incidents are told from.
    pub fn rows_for_target(&self, target_id: u128, range: TimeRange) -> (out: Vec<CheckResult>)
        ensures
            out@ == stable_sorted(self@.filter(of_target(target_id, range)), oldest_first()),
    {
        sort_oldest_first(select_target(&self.results, target_id, range))
    }

    /// One page of a target's results within a range, newest first.
    pub fn list_results(
        &self,
        _org: OrgId,
        target_id: u128,
        range: ClampedRange,
        limit: usize,
        offset: usize,
    ) -> (out: Vec<CheckResult>)
        ensures
            out@ == page_of(
                stable_sorted(self@.filter(of_target(target_id, range.range())), newest_first()),
                offset as nat,
                limit as nat,
            ),
    {
        let hits = select_target(&self.results, target_id, range.inner());
        let le = |a: &CheckResult, b: &CheckResult| -> (r: bool)
            ensures
                r == (a.timestamp.nanos >= b.timestamp.nanos),
        { a.timestamp.nanos >= b.timestamp.nanos };
        let sorted = stable_sort(hits, le, Ghost(newest_first()));
        page(sorted, offset, limit)
    }

    /// How a target's checks within a range came out.
    pub fn uptime(&self, _org: OrgId, target_id: u128, range: ClampedRange) -> (r: UptimeStats)
        ensures
            ({
                let rows = self@.filter(of_target(target_id, range.range()));
                &&& r.total == rows.len()
                &&& r.up == with_status(rows, CheckStatus::Up)
                &&& r.down == with_status(rows, CheckStatus::Down)
                &&& r.degraded == with_status(rows, CheckStatus::Degraded)
                &&& r.error == with_status(rows, CheckStatus::Error)
            }),
    {
        let hits = select_target(&self.results, target_id, range.inner());
        UptimeStats::from_results(&hits)
    }

    /// Per-status breakdown using each target's most recent observation in
    /// `range`. Targets with no observations in the range are omitted from
    /// the counts.
    pub fn current_status_breakdown(&self, _org: OrgId, range: TimeRange) -> (r: StatusBreakdown)
        ensures
            ({
                let rows = self@.filter(within(range));
                let n = rows.len() as int;
                &&& r.up == latest_with(rows, n, CheckStatus::Up)
                &&& r.down == latest_with(rows, n, CheckStatus::Down)
                &&& r.degraded == latest_with(rows, n, CheckStatus::Degraded)
                &&& r.error == latest_with(rows, n, CheckStatus::Error)
            }),
    {
        let rows = select_within(&self.results, range);
        let mut out = StatusBreakdown { up: 0, down: 0, degraded: 0, error: 0 };
        let mut i: usize = 0;
        while i < rows.len()
            invariant
                i <= rows.len(),
                out.up == latest_with(rows@, i as int, CheckStatus::Up),
                out.down == latest_with(rows@, i as int, CheckStatus::Down),
                out.degraded == latest_with(rows@, i as int, CheckStatus::Degraded),
                out.error == latest_with(rows@, i as int, CheckStatus::Error),
                out.up <= i,
                out.down <= i,
                out.degraded <= i,
                out.error <= i,
            decreases rows.len() - i,
        {
            if latest_at(&rows, i) {
                match rows[i].status {
                    CheckStatus::Up => {
                        out.up = out.up + 1;
                    },
                    CheckStatus::Down => {
                        out.down = out.down + 1;
                    },
                    CheckStatus::Degraded => {
                        out.degraded = out.degraded + 1;
                    },
                    CheckStatus::Error => {
                        out.error = out.error + 1;
                    },
                }
            }
            i += 1;
        }
        out
    }

    /// Per-monitor rollup: one row per target that has samples in `range`, in
    /// ascending order of target ids.
    pub fn dashboard_rollup(&self, _org: OrgId, range: TimeRange) -> (out: Vec<DashboardMetrics>)
        ensures
            out@.len() == targets_of(self@.filter(within(range))).len(),
            forall|i: int|
                0 <= i < out@.len() ==> summarises(
                    #[trigger] out@[i],
                    targets_of(self@.filter(within(range)))[i],
                    self@.filter(
                        of_target(targets_of(self@.filter(within(range)))[i], range),
                    ),
                ),
    {
        let hits = select_within(&self.results, range);
        let targets = collect_targets(&hits);
        let mut out: Vec<DashboardMetrics> = Vec::new();
        let mut i: usize = 0;
        while i < targets.len()
            invariant
                i <= targets@.len(),
                out@.len() == i,
                targets@ == targets_of(self@.filter(within(range))),
                forall|k: int|
                    0 <= k < i ==> summarises(
                        #[trigger] out@[k],
                        targets@[k],
                        self@.filter(of_target(targets@[k], range)),
                    ),
            decreases targets.len() - i,
        {
            let t = targets[i];
            let rows = select_target(&self.results, t, range);
            proof {
                assert(targets@.contains(t));
                lemma_target_has_rows(self@, range, t);
                lemma_stable_sorted(rows@, oldest_first());
            }
            let samples: usize = rows.len();
            let by_age = sort_oldest_first(rows);
            let up: u64 = count_status(&by_age, CheckStatus::Up);
            let (raw, sum) = collect_durations(&by_age);
            let sorted = sort_durations(raw);
            let last = &by_age[by_age.len() - 1];
            let secs: i64 = last.timestamp.timestamp();
            let secs: i64 = if secs < 0 {
                0
            } else {
                secs
            };
            out.push(
                DashboardMetrics {
                    target_id: t,
                    samples: samples as u64,
                    up,
                    avg_ms: mean(sum, samples as u128),
                    p50_ms: percentile(&sorted, 50),
                    p95_ms: percentile(&sorted, 95),
                    last_status: last.status,
                    last_minute_ts: secs - secs % 60,
                },
            );
            i += 1;
        }
        out
    }

    /// Fleet totals for the period immediately preceding `range` (same
    /// span, ending at `range.from`). Zeros when there is no prior data.
    pub fn prior_period_summary(&self, _org: OrgId, range: TimeRange) -> (r: PriorPeriodSummary)
        requires
            range.from.wf(),
            range.to.wf(),
        ensures
            ({
                let prior = TimeRange {
                    from: Timestamp { nanos: (2 * range.from.nanos - range.to.nanos) as i128 },
                    to: range.from,
                };
                let rows = self@.filter(within(prior));
                &&& r.checks_total == rows.len()
                &&& r.checks_up == with_status(rows, CheckStatus::Up)
                &&& r.avg_ms == mean_of(saturated(total_ms(durations(rows))), rows.len())
            }),
    {
        let span: i128 = range.to.nanos - range.from.nanos;
        let prior = TimeRange {
            from: Timestamp { nanos: range.from.nanos - span },
            to: range.from,
        };
        let rows = select_within(&self.results, prior);
        let (_raw, sum) = collect_durations(&rows);
        PriorPeriodSummary {
            checks_total: rows.len() as u64,
            checks_up: count_status(&rows, CheckStatus::Up),
            avg_ms: mean(saturate(sum), rows.len() as u128),
        }
    }

    /// Bucketed latency for a single monitor: p50/p95/p99 + per-phase means
    /// per `bucket_seconds` slice across `range`, rounded up to whole minutes.
    /// Buckets with no samples are omitted; samples without a phase do not count
    /// towards its mean.
    pub fn latency_buckets(
        &self,
        _org: OrgId,
        target_id: u128,
        range: ClampedRange,
        bucket_seconds: u32,
    ) -> (out: Vec<LatencyBucket>)
        requires
            bucket_seconds <= 4_294_967_280,
        ensures
            ({
                let bucket = rollup_bucket(bucket_seconds);
                let hits = self@.filter(of_target(target_id, range.range()));
                out@ == slots_of(hits, bucket).map_values(
                    |slot: i64| latency_bucket(slot, hits.filter(in_slot(slot, bucket))),
                )
            }),
    {
        let bucket: i64 = rollup_bucket_secs(bucket_seconds) as i64;
        let hits = select_target(&self.results, target_id, range.inner());
        let slots = collect_slots(&hits, bucket);
        let mut out: Vec<LatencyBucket> = Vec::new();
        let mut i: usize = 0;
        let ghost bucket_at = |slot: i64|
            latency_bucket(slot, hits@.filter(in_slot(slot, bucket as int)));
        while i < slots.len()
            invariant
                i <= slots@.len(),
                bucket > 0,
                bucket_at == |slot: i64|
                    latency_bucket(slot, hits@.filter(in_slot(slot, bucket as int))),
                out@ == slots@.take(i as int).map_values(bucket_at),
            decreases slots.len() - i,
        {
            let rows = select_slot(&hits, slots[i], bucket);
            out.push(latency_bucket_of(slots[i], &rows));
            i += 1;
            assert(out@ =~= slots@.take(i as int).map_values(bucket_at));
        }
        assert(slots@.take(i as int) =~= slots@);
        out
    }

    /// Fleet-wide uptime ribbon: one bucket per `bucket_seconds` slice
    /// across every monitor. Buckets with no samples are omitted.
    pub fn fleet_ribbon(
        &self,
        _org: OrgId,
        from: Timestamp,
        to: Timestamp,
        bucket_seconds: u32,
    ) -> (out: Vec<FleetRibbonBucket>)
        ensures
            ({
                let bucket = ribbon_bucket(bucket_seconds);
                let hits = self@.filter(within(TimeRange { from, to }));
                out@ == slots_of(hits, bucket).map_values(
                    |slot: i64| ribbon_at(slot, hits.filter(in_slot(slot, bucket))),
                )
            }),
    {
        let bucket: i64 = if bucket_seconds < 60 {
            60
        } else {
            bucket_seconds as i64
        };
        let hits = select_within(&self.results, TimeRange { from, to });
        let slots = collect_slots(&hits, bucket);
        let mut out: Vec<FleetRibbonBucket> = Vec::new();
        let mut i: usize = 0;
        let ghost bucket_at = |slot: i64|
            ribbon_at(slot, hits@.filter(in_slot(slot, bucket as int)));
        while i < slots.len()
            invariant
                i <= slots@.len(),
                bucket > 0,
                bucket_at == |slot: i64|
                    ribbon_at(slot, hits@.filter(in_slot(slot, bucket as int))),
                out@ == slots@.take(i as int).map_values(bucket_at),
            decreases slots.len() - i,
        {
            let rows = select_slot(&hits, slots[i], bucket);
            out.push(
                FleetRibbonBucket {
                    bucket_ts: slots[i],
                    samples: rows.len() as u64,
                    up: count_status(&rows, CheckStatus::Up),
                },
            );
            i += 1;
            assert(out@ =~= slots@.take(i as int).map_values(bucket_at));
        }
        assert(slots@.take(i as int) =~= slots@);
        out
    }

    /// Minute-bucketed durations of every monitor within a span, by target and
    /// then by minute.
    pub fn dashboard_sparkline(&self, _org: OrgId, from: Timestamp, to: Timestamp) -> (out: Vec<
        DashboardSparkBucket,
    >)
        ensures
            ({
                let hits = self@.filter(within(TimeRange { from, to }));
                out@ == spark_keys(hits).map_values(
                    |key: (u128, i64)| spark_at(key, hits.filter(in_spark(key))),
                )
            }),
    {
        let hits = select_within(&self.results, TimeRange { from, to });
        let mut raw: Vec<(u128, i64)> = Vec::new();
        let mut i: usize = 0;
        while i < hits.len()
            invariant
                i <= hits@.len(),
                raw@ == hits@.take(i as int).map_values(
                    |r: CheckResult| (r.target_id, slot_of(r.timestamp, 60) as i64),
                ),
            decreases hits.len() - i,
        {
            raw.push((hits[i].target_id, slot_at(hits[i].timestamp, 60)));
            i += 1;
            assert(raw@ =~= hits@.take(i as int).map_values(
                |r: CheckResult| (r.target_id, slot_of(r.timestamp, 60) as i64),
            ));
        }
        assert(hits@.take(i as int) =~= hits@);
        let lt = |a: &(u128, i64), b: &(u128, i64)| -> (r: bool)
            ensures
                r == (a.0 < b.0 || (a.0 == b.0 && a.1 < b.1)),
        { a.0 < b.0 || (a.0 == b.0 && a.1 < b.1) };
        let keys = distinct_sorted(&raw, lt, Ghost(spark_order()));
        let mut out: Vec<DashboardSparkBucket> = Vec::new();
        let mut k: usize = 0;
        let ghost bucket_at = |key: (u128, i64)| spark_at(key, hits@.filter(in_spark(key)));
        while k < keys.len()
            invariant
                k <= keys@.len(),
                bucket_at == |key: (u128, i64)| spark_at(key, hits@.filter(in_spark(key))),
                out@ == keys@.take(k as int).map_values(bucket_at),
            decreases keys.len() - k,
        {
            let key = keys[k];
            let keep = |r: &CheckResult| -> (b: bool)
                ensures
                    b == (r.target_id == key.0 && slot_of(r.timestamp, 60) == key.1),
            { r.target_id == key.0 && slot_at(r.timestamp, 60) == key.1 };
            let rows = select(&hits, keep, Ghost(in_spark(key)));
            let (_raw, sum) = collect_durations(&rows);
            out.push(
                DashboardSparkBucket {
                    target_id: key.0,
                    bucket_ts: key.1,
                    sum_ms: sum,
                    checks: rows.len() as u64,
                },
            );
            k += 1;
            assert(out@ =~= keys@.take(k as int).map_values(bucket_at));
        }
        assert(keys@.take(k as int) =~= keys@);
        out
    }

    /// Aggregate uptime, response, and incident count across all targets
    /// in `range`. `avg_ms` is the sample-weighted mean.
    pub fn last_n_summary(&self, _org: OrgId, range: TimeRange) -> (r: FleetSummary)
        ensures
            ({
                let rows = self@.filter(within(range));
                &&& r.checks_total == rows.len()
                &&& r.checks_up == with_status(rows, CheckStatus::Up)
                &&& r.avg_ms == mean_of(saturated(total_ms(durations(rows))), rows.len())
                &&& r.incidents == outages_of(self@, range, targets_of(rows))
            }),
    {
        let rows = select_within(&self.results, range);
        let (_raw, sum) = collect_durations(&rows);
        let targets = collect_targets(&rows);
        proof {
            let ids = rows@.map_values(|r: CheckResult| r.target_id);
            lemma_sorted_set(ids, id_order());
            assert(targets@.no_duplicates());
            lemma_rows_of_at_most(self@, range, targets@);
            lemma_outages_of_at_most(self@, range, targets@);
        }
        let total: usize = self.results.len();
        let mut incidents: u64 = 0;
        let mut i: usize = 0;
        while i < targets.len()
            invariant
                i <= targets@.len(),
                total == self@.len(),
                outages_of(self@, range, targets@) <= self@.len(),
                incidents == outages_of(self@, range, targets@.take(i as int)),
            decreases targets.len() - i,
        {
            let history = sort_oldest_first(select_target(&self.results, targets[i], range));
            let n: u64 = count_outages(&history);
            proof {
                assert(targets@.take(i + 1).drop_last() =~= targets@.take(i as int));
                lemma_outages_of_prefix(self@, range, targets@, i + 1);
            }
            incidents = incidents + n;
            i += 1;
        }
        assert(targets@.take(i as int) =~= targets@);
        FleetSummary {
            checks_total: rows.len() as u64,
            checks_up: count_status(&rows, CheckStatus::Up),
            avg_ms: mean(saturate(sum), rows.len() as u128),
            incidents,
        }
    }
}

/// Samples without a phase make no difference to its mean, wherever they stand: adding one
/// changes nothing, and neither does taking it away.
pub proof fn law_an_absent_phase_does_not_count(s: Seq<Option<u16>>, t: Seq<Option<u16>>)
    ensures
        phase_mean(s.push(None)) == phase_mean(s),
        phase_mean(s + seq![None::<u16>] + t) == phase_mean(s + t),
{
    assert(s.push(None).drop_last() =~= s);
    lemma_phase_values_concat(s, t);
    lemma_phase_values_concat(s + seq![None::<u16>], t);
    assert((s + seq![None::<u16>]).drop_last() =~= s);
}

proof fn lemma_phase_values_concat(s: Seq<Option<u16>>, t: Seq<Option<u16>>)
    ensures
        phase_values(s + t) == phase_values(s) + phase_values(t),
    decreases t.len(),
{
    if t.len() == 0 {
        assert(s + t =~= s);
        assert(phase_values(s) + phase_values(t) =~= phase_values(s));
    } else {
        lemma_phase_values_concat(s, t.drop_last());
        assert((s + t).drop_last() =~= s + t.drop_last());
        assert((s + t).last() == t.last());
        if let Some(v) = t.last() {
            assert((phase_values(s) + phase_values(t.drop_last())).push(v as u32) =~= phase_values(
                s,
            ) + phase_values(t.drop_last()).push(v as u32));
        }
    }
}

/// The mean of a phase lies between the least and the greatest sample that has it; where all
/// of those are alike it is that value.
pub proof fn law_a_phase_mean_lies_between(s: Seq<Option<u16>>, lo: u16, hi: u16)
    requires
        exists|i: int| 0 <= i < s.len() && (#[trigger] s[i]) is Some,
        forall|i: int|
            0 <= i < s.len() && (#[trigger] s[i]) is Some ==> lo <= s[i]->Some_0 <= hi,
    ensures
        lo <= phase_mean(s) <= hi,
{
    let v = phase_values(s);
    lemma_phase_values_bounds(s, lo, hi);
    law_a_mean_lies_between(v, lo as u32, hi as u32);
}

proof fn lemma_phase_values_bounds(s: Seq<Option<u16>>, lo: u16, hi: u16)
    requires
        forall|i: int|
            0 <= i < s.len() && (#[trigger] s[i]) is Some ==> lo <= s[i]->Some_0 <= hi,
    ensures
        forall|i: int|
            0 <= i < phase_values(s).len() ==> lo <= #[trigger] phase_values(s)[i] <= hi,
        (exists|i: int| 0 <= i < s.len() && (#[trigger] s[i]) is Some) ==> phase_values(s).len()
            > 0,
    decreases s.len(),
{
    if s.len() > 0 {
        let front = s.drop_last();
        assert forall|i: int| 0 <= i < front.len() && (#[trigger] front[i]) is Some implies lo
            <= front[i]->Some_0 <= hi by {
            assert(front[i] == s[i]);
        }
        lemma_phase_values_bounds(front, lo, hi);
        assert(s[s.len() - 1] == s.last());
        if s.last() is None && exists|i: int| 0 <= i < s.len() && (#[trigger] s[i]) is Some {
            let i = choose|i: int| 0 <= i < s.len() && (#[trigger] s[i]) is Some;
            assert(front[i] == s[i]);
        }
    }
}

/// A mean times the count is at most the sum, and one more would be over it; a sum grows by
/// each value. So the mean of some values lies between the least and the greatest of them.
pub proof fn law_a_mean_lies_between(s: Seq<u32>, lo: u32, hi: u32)
    requires
        s.len() > 0,
        forall|i: int| 0 <= i < s.len() ==> lo <= #[trigger] s[i] <= hi,
    ensures
        lo <= mean_of(total_ms(s), s.len()) <= hi,
        mean_of(total_ms(s), s.len()) * s.len() <= total_ms(s) < (mean_of(total_ms(s), s.len()) + 1)
            * s.len(),
{
    lemma_total_bounds(s, lo, hi);
    let (sum, n) = (total_ms(s), s.len());
    let q = sum / n;
    assert(q * n <= sum < (q + 1) * n) by (nonlinear_arith)
        requires
            n > 0,
            q == sum / n,
    ;
    assert(lo <= q <= hi) by (nonlinear_arith)
        requires
            n > 0,
            q == sum / n,
            lo * n <= sum <= hi * n,
    ;
}

proof fn lemma_total_bounds(s: Seq<u32>, lo: u32, hi: u32)
    requires
        forall|i: int| 0 <= i < s.len() ==> lo <= #[trigger] s[i] <= hi,
    ensures
        lo * s.len() <= total_ms(s) <= hi * s.len(),
    decreases s.len(),
{
    if s.len() > 0 {
        let front = s.drop_last();
        assert forall|i: int| 0 <= i < front.len() implies lo <= #[trigger] front[i] <= hi by {
            assert(front[i] == s[i]);
        }
        lemma_total_bounds(front, lo, hi);
        let (n, x) = (s.len(), s[s.len() - 1]);
        assert(x == s.last());
        assert(lo * (n - 1) + lo == lo * n && hi * (n - 1) + hi == hi * n) by (nonlinear_arith);
    }
}

/// A total is the sum of its values.
pub proof fn law_a_total_adds_up(s: Seq<u32>, x: u32)
    ensures
        total_ms(Seq::empty()) == 0,
        total_ms(s.push(x)) == total_ms(s) + x,
        mean_of(total_ms(Seq::empty()), 0) == 0,
{
    assert(s.push(x).drop_last() =~= s);
}

/// `r` is the nearest-rank percentile of these values, in whatever order they stand: one of
/// them, with at least `percent` in a hundred of them up to it and fewer than that below it.
pub open spec fn is_nearest_rank(values: Seq<u32>, percent: nat, r: u32) -> bool {
    &&& values.contains(r)
    &&& 100 * values.filter(|v: u32| v <= r).len() >= percent * values.len()
    &&& 100 * values.filter(|v: u32| v < r).len() < percent * values.len()
}

proof fn lemma_count_up_to(s: Seq<u32>, k: int, r: u32)
    requires
        forall|i: int, j: int| 0 <= i <= j < s.len() ==> s[i] <= s[j],
        0 <= k < s.len(),
        s[k] == r,
    ensures
        s.filter(|v: u32| v <= r).len() >= k + 1,
        s.filter(|v: u32| v < r).len() <= k,
{
    let (le, lt) = (|v: u32| v <= r, |v: u32| v < r);
    lemma_all_pass(s.take(k + 1), le);
    lemma_none_pass(s.skip(k), lt);
    lemma_filter_concat(s.take(k + 1), s.skip(k + 1), le);
    lemma_filter_concat(s.take(k), s.skip(k), lt);
    assert(s.take(k + 1) + s.skip(k + 1) =~= s);
    assert(s.take(k) + s.skip(k) =~= s);
    lemma_filter_len(s.take(k), lt);
}

proof fn lemma_filter_concat<T>(s: Seq<T>, t: Seq<T>, p: spec_fn(T) -> bool)
    ensures
        (s + t).filter(p).len() == s.filter(p).len() + t.filter(p).len(),
    decreases t.len(),
{
    reveal(Seq::filter);
    if t.len() == 0 {
        assert(s + t =~= s);
    } else {
        lemma_filter_concat(s, t.drop_last(), p);
        lemma_filter_push(s + t.drop_last(), t.last(), p);
        lemma_filter_push(t.drop_last(), t.last(), p);
        assert(s + t =~= (s + t.drop_last()).push(t.last()));
        assert(t =~= t.drop_last().push(t.last()));
    }
}

proof fn lemma_all_pass<T>(s: Seq<T>, p: spec_fn(T) -> bool)
    requires
        forall|i: int| 0 <= i < s.len() ==> p(#[trigger] s[i]),
    ensures
        s.filter(p).len() == s.len(),
    decreases s.len(),
{
    reveal(Seq::filter);
    if s.len() > 0 {
        let front = s.drop_last();
        assert forall|i: int| 0 <= i < front.len() implies p(#[trigger] front[i]) by {
            assert(front[i] == s[i]);
        }
        lemma_all_pass(front, p);
        assert(p(s[s.len() - 1]));
    }
}

proof fn lemma_none_pass<T>(s: Seq<T>, p: spec_fn(T) -> bool)
    requires
        forall|i: int| 0 <= i < s.len() ==> !p(#[trigger] s[i]),
    ensures
        s.filter(p).len() == 0,
    decreases s.len(),
{
    reveal(Seq::filter);
    if s.len() > 0 {
        let front = s.drop_last();
        assert forall|i: int| 0 <= i < front.len() implies !p(#[trigger] front[i]) by {
            assert(front[i] == s[i]);
        }
        lemma_none_pass(front, p);
        assert(!p(s[s.len() - 1]));
    }
}

/// A percentile of sorted values is the nearest-rank percentile of the values; none is zero.
pub proof fn law_percentile_is_nearest_rank(values: Seq<u32>, percent: nat)
    requires
        1 <= percent <= 100,
    ensures
        values.len() == 0 ==> percentile_of(values, percent) == 0,
        values.len() > 0 ==> is_nearest_rank(
            values,
            percent,
            percentile_of(stable_sorted(values, shorter_first()), percent),
        ),
{
    broadcast use vstd::seq_lib::group_to_multiset_ensures;

    if values.len() > 0 {
        let sorted = stable_sorted(values, shorter_first());
        lemma_stable_sorted(values, shorter_first());
        let n = sorted.len();
        let k = rank_index(n, percent);
        assert(percent <= percent * n <= 100 * n) by (nonlinear_arith)
            requires
                1 <= percent <= 100,
                n >= 1,
        ;
        assert(0 <= k < n);
        assert(100 * (k + 1) >= percent * n && 100 * k < percent * n);
        let r = sorted[k];
        assert forall|i: int, j: int| 0 <= i <= j < sorted.len() implies sorted[i] <= sorted[j] by {
            if i < j {
                assert((shorter_first())(sorted[i], sorted[j]));
            }
        }
        lemma_count_up_to(sorted, k, r);
        lemma_sorted_count(values, shorter_first(), |v: u32| v <= r);
        lemma_sorted_count(values, shorter_first(), |v: u32| v < r);
        assert(sorted.contains(r));
        assert(sorted.to_multiset().count(r) > 0);
        assert(values.to_multiset().count(r) > 0);
    }
}

/// What a latency bucket says of the results in its slot: its start in milliseconds, how many
/// there are, their nearest-rank median, 95th and 99th percentile, their mean, and each
/// phase's mean from that phase alone.
pub proof fn law_a_latency_bucket_sums_up_its_slot(
    slot: i64,
    rows: Seq<CheckResult>,
    dns: u16,
    connect: u16,
    tls: u16,
    ttfb: u16,
)
    requires
        rows.len() > 0,
        rows.len() <= u64::MAX,
        forall|i: int|
            0 <= i < rows.len() ==> {
                let r = #[trigger] rows[i];
                &&& r.dns_ms is None || r.dns_ms == Some(dns)
                &&& r.connect_ms is None || r.connect_ms == Some(connect)
                &&& r.tls_ms is None || r.tls_ms == Some(tls)
                &&& r.ttfb_ms is None || r.ttfb_ms == Some(ttfb)
            },
    ensures
        ({
            let b = latency_bucket(slot, rows);
            let d = rows.map_values(|r: CheckResult| r.duration_ms);
            &&& b.t == slot * 1000
            &&& b.samples == rows.len()
            &&& is_nearest_rank(d, 50, b.p50)
            &&& is_nearest_rank(d, 95, b.p95)
            &&& is_nearest_rank(d, 99, b.p99)
            &&& b.avg * d.len() <= total_ms(d) < (b.avg + 1) * d.len()
            &&& b.dns == (if exists|i: int| 0 <= i < rows.len() && (#[trigger] rows[i]).dns_ms is Some {
                dns as u32
            } else {
                0
            })
            &&& b.connect == (if exists|i: int|
                0 <= i < rows.len() && (#[trigger] rows[i]).connect_ms is Some {
                connect as u32
            } else {
                0
            })
            &&& b.tls == (if exists|i: int| 0 <= i < rows.len() && (#[trigger] rows[i]).tls_ms is Some {
                tls as u32
            } else {
                0
            })
            &&& b.ttfb == (if exists|i: int|
                0 <= i < rows.len() && (#[trigger] rows[i]).ttfb_ms is Some {
                ttfb as u32
            } else {
                0
            })
        }),
{
    let d = durations(rows);
    law_percentile_is_nearest_rank(d, 50);
    law_percentile_is_nearest_rank(d, 95);
    law_percentile_is_nearest_rank(d, 99);
    law_a_mean_lies_between(d, 0, u32::MAX);
    lemma_uniform_phase(rows, |r: CheckResult| r.dns_ms, dns);
    lemma_uniform_phase(rows, |r: CheckResult| r.connect_ms, connect);
    lemma_uniform_phase(rows, |r: CheckResult| r.tls_ms, tls);
    lemma_uniform_phase(rows, |r: CheckResult| r.ttfb_ms, ttfb);
}

proof fn lemma_uniform_phase(
    rows: Seq<CheckResult>,
    phase: spec_fn(CheckResult) -> Option<u16>,
    v: u16,
)
    requires
        forall|i: int|
            0 <= i < rows.len() ==> phase(#[trigger] rows[i]) is None || phase(rows[i]) == Some(v),
    ensures
        phase_mean(rows.map_values(phase)) == (if exists|i: int|
            0 <= i < rows.len() && phase(#[trigger] rows[i]) is Some {
            v as u32
        } else {
            0
        }),
{
    let s = rows.map_values(phase);
    assert forall|i: int| 0 <= i < s.len() && (#[trigger] s[i]) is Some implies v <= s[i]->Some_0
        <= v by {
        let r = rows[i];
    }
    if exists|i: int| 0 <= i < rows.len() && phase(#[trigger] rows[i]) is Some {
        let i = choose|i: int| 0 <= i < rows.len() && phase(#[trigger] rows[i]) is Some;
        assert(s[i] is Some);
        law_a_phase_mean_lies_between(s, v, v);
    } else {
        assert forall|i: int| 0 <= i < s.len() implies (#[trigger] s[i]) is None by {
            let r = rows[i];
        }
        lemma_no_phase(s);
    }
}

proof fn lemma_no_phase(s: Seq<Option<u16>>)
    requires
        forall|i: int| 0 <= i < s.len() ==> (#[trigger] s[i]) is None,
    ensures
        phase_values(s).len() == 0,
    decreases s.len(),
{
    if s.len() > 0 {
        let front = s.drop_last();
        assert forall|i: int| 0 <= i < front.len() implies (#[trigger] front[i]) is None by {
            assert(front[i] == s[i]);
        }
        lemma_no_phase(front);
        assert(s[s.len() - 1] is None);
    }
}

/// An instant lies in one slot: slots start at multiples of their width and reach to the
/// next; before 1970 they reach back from their start.
pub proof fn law_an_instant_lies_in_its_slot(t: Timestamp, bucket: int)
    requires
        bucket > 0,
    ensures
        slot_of(t, bucket) % bucket == 0,
        t.unix() >= 0 ==> slot_of(t, bucket) <= t.unix() < slot_of(t, bucket) + bucket,
        t.unix() < 0 ==> slot_of(t, bucket) - bucket < t.unix() <= slot_of(t, bucket),
{
    let u = t.unix();
    let q = trunc_div_spec(u, bucket);
    assert((q * bucket) % bucket == 0) by (nonlinear_arith)
        requires
            bucket > 0,
    ;
    if u >= 0 {
        assert(q * bucket <= u < q * bucket + bucket) by (nonlinear_arith)
            requires
                bucket > 0,
                q == u / bucket,
        ;
    } else {
        let p = (-u) / bucket;
        assert(p * bucket <= -u < p * bucket + bucket) by (nonlinear_arith)
            requires
                bucket > 0,
                p == (-u) / bucket,
        ;
        assert(q * bucket == -(p * bucket)) by (nonlinear_arith)
            requires
                q == -p,
        ;
    }
}

/// Buckets come in ascending order of their slots, no slot twice, and every result falls into
/// one of them: the one whose slot its instant lies in.
pub proof fn law_slots_are_ascending_and_complete(rows: Seq<CheckResult>, bucket: int, i: int)
    requires
        bucket > 0,
        0 <= i < rows.len(),
    ensures
        slots_of(rows, bucket).contains(slot_of(rows[i].timestamp, bucket) as i64),
        forall|a: int, b: int|
            0 <= a < b < slots_of(rows, bucket).len() ==> slots_of(rows, bucket)[a] < slots_of(
                rows,
                bucket,
            )[b],
        forall|slot: i64| #[trigger]
            rows.filter(in_slot(slot, bucket)).contains(rows[i]) <==> slot_of(
                rows[i].timestamp,
                bucket,
            ) == slot,
{
    let f = |r: CheckResult| slot_of(r.timestamp, bucket) as i64;
    let raw = rows.map_values(f);
    lemma_sorted_set(raw, slot_order());
    assert(raw[i] == f(rows[i]));
    assert(raw.contains(raw[i]));
    assert forall|a: int, b: int| 0 <= a < b < slots_of(rows, bucket).len() implies slots_of(
        rows,
        bucket,
    )[a] < slots_of(rows, bucket)[b] by {
        assert((slot_order())(slots_of(rows, bucket)[a], slots_of(rows, bucket)[b]));
    }
    assert forall|slot: i64| #[trigger]
        rows.filter(in_slot(slot, bucket)).contains(rows[i]) <==> slot_of(rows[i].timestamp, bucket)
        == slot by {
        lemma_filter_members(rows, in_slot(slot, bucket));
        assert(rows.contains(rows[i]));
    }
}

/// A page of a target's results holds the target's results within the range, latest first.
pub proof fn law_results_come_newest_first(
    s: Seq<CheckResult>,
    target_id: u128,
    range: TimeRange,
    offset: nat,
    limit: nat,
    x: CheckResult,
)
    ensures
        ({
            let all = stable_sorted(s.filter(of_target(target_id, range)), newest_first());
            let out = page_of(all, offset, limit);
            &&& all.contains(x) <==> s.contains(x) && x.target_id == target_id
                && range.from.nanos <= x.timestamp.nanos && x.timestamp.nanos < range.to.nanos
            &&& out.len() <= limit
            &&& forall|i: int| 0 <= i < out.len() ==> #[trigger] out[i] == all[offset + i]
            &&& forall|i: int, j: int|
                0 <= i < j < out.len() ==> (#[trigger] out[i]).timestamp.nanos >= (
                #[trigger] out[j]).timestamp.nanos
        }),
        ({
            let rows = stable_sorted(s.filter(of_target(target_id, range)), oldest_first());
            &&& rows.contains(x) <==> s.contains(x) && x.target_id == target_id
                && range.from.nanos <= x.timestamp.nanos && x.timestamp.nanos < range.to.nanos
            &&& forall|i: int, j: int|
                0 <= i < j < rows.len() ==> (#[trigger] rows[i]).timestamp.nanos <= (
                #[trigger] rows[j]).timestamp.nanos
        }),
        s.filter(within(range)).contains(x) <==> s.contains(x) && range.from.nanos
            <= x.timestamp.nanos && x.timestamp.nanos < range.to.nanos,
{
    lemma_listing(s, of_target(target_id, range), newest_first(), offset, limit);
    lemma_listing(s, of_target(target_id, range), oldest_first(), 0, 0);
    lemma_stable_sorted(s.filter(of_target(target_id, range)), oldest_first());
    lemma_filter_members(s, within(range));
    let out = page_of(
        stable_sorted(s.filter(of_target(target_id, range)), newest_first()),
        offset,
        limit,
    );
    assert forall|i: int, j: int| 0 <= i < j < out.len() implies (
    #[trigger] out[i]).timestamp.nanos >= (#[trigger] out[j]).timestamp.nanos by {
        assert((newest_first())(out[i], out[j]));
    }
    let rows = stable_sorted(s.filter(of_target(target_id, range)), oldest_first());
    assert forall|i: int, j: int| 0 <= i < j < rows.len() implies (
    #[trigger] rows[i]).timestamp.nanos <= (#[trigger] rows[j]).timestamp.nanos by {
        assert((oldest_first())(rows[i], rows[j]));
    }
}

/// The breakdown counts each target once, under the verdict of its newest result: no result
/// of the target is newer than the one that counts, and of those as new it was written first.
pub proof fn law_the_newest_verdict_counts(rows: Seq<CheckResult>, i: int, j: int, s: CheckStatus)
    requires
        0 <= i < rows.len(),
        0 <= j < rows.len(),
        rows[i].target_id == rows[j].target_id,
    ensures
        is_latest(rows, i) ==> rows[j].timestamp.nanos <= rows[i].timestamp.nanos,
        is_latest(rows, i) && is_latest(rows, j) ==> i == j,
        rows[j].timestamp.nanos < rows[i].timestamp.nanos ==> !is_latest(rows, j),
        exists|k: int|
            0 <= k < rows.len() && rows[k].target_id == rows[i].target_id && #[trigger] is_latest(
                rows,
                k,
            ),
        latest_with(rows, rows.len() as int, s) == Set::new(
            |k: int| 0 <= k < rows.len() && is_latest(rows, k) && rows[k].status == s,
        ).len(),
{
    lemma_some_latest(rows, i, rows.len() as int);
    lemma_latest_set(rows, rows.len() as int, s);
}

proof fn lemma_some_latest(rows: Seq<CheckResult>, i: int, n: int)
    requires
        0 <= i < rows.len(),
    ensures
        exists|k: int|
            0 <= k < rows.len() && rows[k].target_id == rows[i].target_id && #[trigger] is_latest(
                rows,
                k,
            ),
{
    let best = lemma_best_of(rows, i, rows.len() as int);
    assert(is_latest(rows, best));
}

proof fn lemma_best_of(rows: Seq<CheckResult>, i: int, n: int) -> (k: int)
    requires
        0 <= i < rows.len(),
        0 <= n <= rows.len(),
    ensures
        0 <= k < rows.len(),
        rows[k].target_id == rows[i].target_id,
        forall|j: int|
            (0 <= j < n || j == i) && (#[trigger] rows[j]).target_id == rows[i].target_id ==> {
                ||| rows[j].timestamp.nanos < rows[k].timestamp.nanos
                ||| rows[j].timestamp.nanos == rows[k].timestamp.nanos && k <= j
            },
    decreases n,
{
    if n == 0 {
        i
    } else {
        let b = lemma_best_of(rows, i, n - 1);
        let x = rows[n - 1];
        if x.target_id == rows[i].target_id && (x.timestamp.nanos > rows[b].timestamp.nanos || (
        x.timestamp.nanos == rows[b].timestamp.nanos && n - 1 < b)) {
            n - 1
        } else {
            b
        }
    }
}

proof fn lemma_latest_set(rows: Seq<CheckResult>, n: int, s: CheckStatus)
    requires
        0 <= n <= rows.len(),
    ensures
        Set::new(|k: int| 0 <= k < n && is_latest(rows, k) && rows[k].status == s).finite(),
        latest_with(rows, n, s) == Set::new(
            |k: int| 0 <= k < n && is_latest(rows, k) && rows[k].status == s,
        ).len(),
    decreases n,
{
    let set = Set::new(|k: int| 0 <= k < n && is_latest(rows, k) && rows[k].status == s);
    if n == 0 {
        assert(set =~= Set::<int>::empty());
    } else {
        lemma_latest_set(rows, n - 1, s);
        let prev = Set::new(|k: int| 0 <= k < n - 1 && is_latest(rows, k) && rows[k].status == s);
        if is_latest(rows, n - 1) && rows[n - 1].status == s {
            assert(set =~= prev.insert(n - 1));
        } else {
            assert(set =~= prev);
        }
    }
}

/// What the dashboard says of a target: how many results, how many of them up, their
/// nearest-rank median and 95th percentile, their mean, and verdict and minute of the newest,
/// the last written of those.
pub proof fn law_a_dashboard_row_sums_up_its_target(
    m: DashboardMetrics,
    target_id: u128,
    rows: Seq<CheckResult>,
)
    requires
        summarises(m, target_id, rows),
        rows.len() > 0,
    ensures
        m.target_id == target_id,
        m.samples == rows.len(),
        m.up == rows.filter(|r: CheckResult| r.status == CheckStatus::Up).len(),
        is_nearest_rank(rows.map_values(|r: CheckResult| r.duration_ms), 50, m.p50_ms),
        is_nearest_rank(rows.map_values(|r: CheckResult| r.duration_ms), 95, m.p95_ms),
        m.avg_ms * rows.len() <= total_ms(rows.map_values(|r: CheckResult| r.duration_ms)) < (
        m.avg_ms + 1) * rows.len(),
        exists|i: int|
            0 <= i < rows.len() && m.last_status == (#[trigger] rows[i]).status && (forall|j: int|
                0 <= j < rows.len() ==> (#[trigger] rows[j]).timestamp.nanos
                    <= rows[i].timestamp.nanos) && m.last_minute_ts == minute_of(
                rows[i].timestamp,
            ),
{
    broadcast use vstd::seq_lib::group_to_multiset_ensures;

    let by_age = stable_sorted(rows, oldest_first());
    lemma_stable_sorted(rows, oldest_first());
    lemma_sorted_count(rows, oldest_first(), |r: CheckResult| r.status == CheckStatus::Up);
    let d = durations(rows);
    let da = durations(by_age);
    lemma_sorted_durations(rows);
    lemma_same_rank(da, d, 50, m.p50_ms);
    lemma_same_rank(da, d, 95, m.p95_ms);
    law_percentile_is_nearest_rank(da, 50);
    law_percentile_is_nearest_rank(da, 95);
    law_a_mean_lies_between(da, 0, u32::MAX);
    let x = by_age.last();
    assert(by_age.contains(x));
    assert(by_age.to_multiset().count(x) > 0);
    assert(rows.to_multiset().count(x) > 0);
    let i = rows.index_of(x);
    assert forall|j: int| 0 <= j < rows.len() implies (#[trigger] rows[j]).timestamp.nanos
        <= rows[i].timestamp.nanos by {
        let y = rows[j];
        assert(rows.contains(y));
        assert(rows.to_multiset().count(y) > 0);
        assert(by_age.to_multiset().count(y) > 0);
        let k = by_age.index_of(y);
        if k < by_age.len() - 1 {
            assert((oldest_first())(by_age[k], by_age[by_age.len() - 1]));
        }
    }
}

proof fn lemma_same_rank(a: Seq<u32>, b: Seq<u32>, percent: nat, r: u32)
    requires
        a.to_multiset() == b.to_multiset(),
        a.len() == b.len(),
        forall|p: spec_fn(u32) -> bool| #[trigger] a.filter(p).len() == b.filter(p).len(),
    ensures
        is_nearest_rank(a, percent, r) ==> is_nearest_rank(b, percent, r),
{
    broadcast use vstd::seq_lib::group_to_multiset_ensures;

    let (le, lt) = (|v: u32| v <= r, |v: u32| v < r);
    assert(a.filter(le).len() == b.filter(le).len());
    assert(a.filter(lt).len() == b.filter(lt).len());
    if a.contains(r) {
        assert(a.to_multiset().count(r) > 0);
        assert(b.to_multiset().count(r) > 0);
    }
}

proof fn lemma_sorted_durations(rows: Seq<CheckResult>)
    ensures
        ({
            let (a, b) = (durations(stable_sorted(rows, oldest_first())), durations(rows));
            &&& a.to_multiset() == b.to_multiset()
            &&& a.len() == b.len()
            &&& total_ms(a) == total_ms(b)
            &&& forall|p: spec_fn(u32) -> bool| #[trigger] a.filter(p).len() == b.filter(p).len()
        }),
    decreases rows.len(),
{
    broadcast use vstd::seq_lib::group_to_multiset_ensures;

    let (a, b) = (durations(stable_sorted(rows, oldest_first())), durations(rows));
    if rows.len() == 0 {
        assert(a =~= b);
    } else {
        let front = rows.drop_last();
        let x = rows.last();
        lemma_sorted_durations(front);
        let sf = stable_sorted(front, oldest_first());
        lemma_inserted_durations(sf, x);
        assert(durations(rows) =~= durations(front).push(x.duration_ms));
        assert(durations(front).push(x.duration_ms).drop_last() =~= durations(front));
        assert(durations(sf).push(x.duration_ms).drop_last() =~= durations(sf));
        assert(total_ms(durations(sf).push(x.duration_ms)) == total_ms(durations(sf))
            + x.duration_ms);
        assert forall|p: spec_fn(u32) -> bool| #[trigger] a.filter(p).len() == b.filter(p).len() by {
            lemma_filter_push(durations(front), x.duration_ms, p);
            lemma_filter_push(durations(sf), x.duration_ms, p);
            assert(durations(sf).filter(p).len() == durations(front).filter(p).len());
            assert(a.filter(p).len() == durations(sf).push(x.duration_ms).filter(p).len());
        }
    }
}

proof fn lemma_inserted_durations(s: Seq<CheckResult>, x: CheckResult)
    ensures
        ({
            let (a, b) = (
                durations(insert_ordered(s, x, oldest_first())),
                durations(s).push(x.duration_ms),
            );
            &&& a.to_multiset() == b.to_multiset()
            &&& a.len() == b.len()
            &&& total_ms(a) == total_ms(b)
            &&& forall|p: spec_fn(u32) -> bool| #[trigger] a.filter(p).len() == b.filter(p).len()
        }),
    decreases s.len(),
{
    broadcast use vstd::seq_lib::group_to_multiset_ensures;

    let le = oldest_first();
    let (a, b) = (durations(insert_ordered(s, x, le)), durations(s).push(x.duration_ms));
    if s.len() == 0 || le(s.last(), x) {
        assert(a =~= b);
    } else {
        let front = s.drop_last();
        let y = s.last();
        lemma_inserted_durations(front, x);
        let ins = insert_ordered(front, x, le);
        assert(a =~= durations(ins).push(y.duration_ms));
        assert(durations(s) =~= durations(front).push(y.duration_ms));
        assert(durations(ins).push(y.duration_ms).drop_last() =~= durations(ins));
        assert(b.drop_last() =~= durations(s));
        assert(durations(s).drop_last() =~= durations(front));
        let fx = durations(front).push(x.duration_ms);
        assert(fx.drop_last() =~= durations(front));
        assert(total_ms(a) == total_ms(durations(ins)) + y.duration_ms);
        assert(total_ms(b) == total_ms(durations(s)) + x.duration_ms);
        assert(a.to_multiset() =~= b.to_multiset());
        assert forall|p: spec_fn(u32) -> bool| #[trigger] a.filter(p).len() == b.filter(p).len() by {
            lemma_filter_push(durations(ins), y.duration_ms, p);
            lemma_filter_push(durations(front), x.duration_ms, p);
            lemma_filter_push(durations(front), y.duration_ms, p);
            lemma_filter_push(durations(s), x.duration_ms, p);
            assert(durations(ins).filter(p).len() == fx.filter(p).len());
        }
    }
}

/// The minute of an instant starts at a multiple of sixty seconds and holds it; an instant
/// before 1970 counts as 1970.
pub proof fn law_a_minute_holds_its_instant(t: Timestamp)
    ensures
        minute_of(t) % 60 == 0,
        t.unix() >= 0 ==> minute_of(t) <= t.unix() < minute_of(t) + 60,
        t.unix() < 0 ==> minute_of(t) == 0,
{
}

/// A ribbon slot counts its results and those of them that are up; it is as wide as asked for,
/// but no narrower than a minute.
pub proof fn law_a_ribbon_slot_counts_its_results(
    slot: i64,
    rows: Seq<CheckResult>,
    bucket_seconds: u32,
)
    requires
        rows.len() <= u64::MAX,
    ensures
        ribbon_at(slot, rows).bucket_ts == slot,
        ribbon_at(slot, rows).samples == rows.len(),
        ribbon_at(slot, rows).up == rows.filter(
            |r: CheckResult| r.status == CheckStatus::Up,
        ).len(),
        ribbon_bucket(bucket_seconds) >= 60,
        bucket_seconds >= 60 ==> ribbon_bucket(bucket_seconds) == bucket_seconds,
        bucket_seconds < 60 ==> ribbon_bucket(bucket_seconds) == 60,
{
    lemma_filter_len(rows, |r: CheckResult| r.status == CheckStatus::Up);
}

/// A sparkline's bucket sums the durations of one target's results within one minute; buckets
/// come by target and then by minute, and every result has one.
pub proof fn law_a_spark_bucket_is_of_a_target_and_minute(
    rows: Seq<CheckResult>,
    key: (u128, i64),
    x: CheckResult,
)
    requires
        rows.len() <= u64::MAX,
        total_ms(durations(rows)) <= u128::MAX,
    ensures
        rows.filter(in_spark(key)).contains(x) <==> rows.contains(x) && x.target_id == key.0
            && slot_of(x.timestamp, 60) == key.1,
        rows.contains(x) ==> spark_keys(rows).contains(
            (x.target_id, slot_of(x.timestamp, 60) as i64),
        ),
        forall|a: int, b: int|
            0 <= a < b < spark_keys(rows).len() ==> (#[trigger] spark_keys(rows)[a]).0 < (
            #[trigger] spark_keys(rows)[b]).0 || (spark_keys(rows)[a].0 == spark_keys(rows)[b].0
                && spark_keys(rows)[a].1 < spark_keys(rows)[b].1),
        spark_at(key, rows).target_id == key.0,
        spark_at(key, rows).bucket_ts == key.1,
        spark_at(key, rows).checks == rows.len(),
        spark_at(key, rows).sum_ms == total_ms(rows.map_values(|r: CheckResult| r.duration_ms)),
{
    let f = |r: CheckResult| (r.target_id, slot_of(r.timestamp, 60) as i64);
    let raw = rows.map_values(f);
    lemma_filter_members(rows, in_spark(key));
    lemma_sorted_set(raw, spark_order());
    if rows.contains(x) {
        let i = rows.index_of(x);
        assert(raw[i] == f(x));
        assert(raw.contains(f(x)));
    }
    assert forall|a: int, b: int| 0 <= a < b < spark_keys(rows).len() implies (
    #[trigger] spark_keys(rows)[a]).0 < (#[trigger] spark_keys(rows)[b]).0 || (spark_keys(
        rows,
    )[a].0 == spark_keys(rows)[b].0 && spark_keys(rows)[a].1 < spark_keys(rows)[b].1) by {
        assert((spark_order())(spark_keys(rows)[a], spark_keys(rows)[b]));
    }
}

/// Targets come in ascending order of their ids, each once, and every result's is there.
pub proof fn law_targets_come_in_order(rows: Seq<CheckResult>, t: u128)
    ensures
        targets_of(rows).contains(t) <==> exists|i: int|
            0 <= i < rows.len() && (#[trigger] rows[i]).target_id == t,
        forall|a: int, b: int|
            0 <= a < b < targets_of(rows).len() ==> targets_of(rows)[a] < targets_of(rows)[b],
{
    let f = |r: CheckResult| r.target_id;
    let raw = rows.map_values(f);
    lemma_sorted_set(raw, id_order());
    if exists|i: int| 0 <= i < rows.len() && (#[trigger] rows[i]).target_id == t {
        let i = choose|i: int| 0 <= i < rows.len() && (#[trigger] rows[i]).target_id == t;
        assert(raw[i] == t);
        assert(raw.contains(t));
    }
    if targets_of(rows).contains(t) {
        let i = raw.index_of(t);
        assert(rows[i].target_id == t);
    }
    assert forall|a: int, b: int| 0 <= a < b < targets_of(rows).len() implies targets_of(rows)[a]
        < targets_of(rows)[b] by {
        assert((id_order())(targets_of(rows)[a], targets_of(rows)[b]));
    }
}

/// An outage is a run of checks that were down or in error: one more check begins a new one
/// exactly where it fails and the check before it did not. A degraded check is none.
pub proof fn law_an_outage_is_a_run_of_failures(rows: Seq<CheckResult>, x: CheckResult)
    ensures
        outages(Seq::empty()) == 0,
        ({
            let fails = x.status == CheckStatus::Down || x.status == CheckStatus::Error;
            let failed = rows.len() > 0 && (rows.last().status == CheckStatus::Down
                || rows.last().status == CheckStatus::Error);
            outages(rows.push(x)) == outages(rows) + (if fails && !failed {
                1nat
            } else {
                0nat
            })
        }),
{
    assert(rows.push(x).drop_last() =~= rows);
}

/// The fleet's outages are those of its targets, each told from its own results in order of
/// time: one target more adds its own.
pub proof fn law_fleet_outages_add_up(
    all: Seq<CheckResult>,
    range: TimeRange,
    targets: Seq<u128>,
    t: u128,
)
    ensures
        outages_of(all, range, Seq::empty()) == 0,
        outages_of(all, range, targets.push(t)) == outages_of(all, range, targets) + outages(
            stable_sorted(
                all.filter(|r: CheckResult| r.target_id == t && range.holds(r.timestamp)),
                |a: CheckResult, b: CheckResult| a.timestamp.nanos <= b.timestamp.nanos,
            ),
        ),
{
    assert(targets.push(t).drop_last() =~= targets);
    assert(of_target(t, range) =~= (|r: CheckResult|
        r.target_id == t && range.holds(r.timestamp)));
    assert(oldest_first() =~= (|a: CheckResult, b: CheckResult|
        a.timestamp.nanos <= b.timestamp.nanos));
}

/// A sum that outgrew 64 bits stays at the largest number they hold; a smaller one stays.
pub proof fn law_a_sum_saturates(sum: nat)
    ensures
        sum <= 0xffff_ffff_ffff_ffff ==> saturated(sum) == sum,
        sum > 0xffff_ffff_ffff_ffff ==> saturated(sum) == 0xffff_ffff_ffff_ffff,
{
}

/// Where every sample that has a phase has the same value of it, the mean is that value,
/// however many samples without the phase stand among them; without any it is zero.
pub proof fn law_a_uniform_phase_is_its_own_mean(s: Seq<Option<u16>>, v: u16)
    requires
        forall|i: int|
            0 <= i < s.len() && (#[trigger] s[i]) is Some ==> s[i]->Some_0 == v,
    ensures
        (exists|i: int| 0 <= i < s.len() && (#[trigger] s[i]) is Some) ==> phase_mean(s) == v,
        (forall|i: int| 0 <= i < s.len() ==> (#[trigger] s[i]) is None) ==> phase_mean(s) == 0,
{
    if exists|i: int| 0 <= i < s.len() && (#[trigger] s[i]) is Some {
        law_a_phase_mean_lies_between(s, v, v);
    }
    if forall|i: int| 0 <= i < s.len() ==> (#[trigger] s[i]) is None {
        lemma_no_phase(s);
    }
}

/// A phase's mean is told from the samples that have it: it times their number is at most their
/// sum, and one more times their number is over it.
pub proof fn law_a_phase_mean_is_over_those_that_have_it(s: Seq<Option<u16>>, v: u16)
    ensures
        phase_values(Seq::empty()).len() == 0,
        phase_values(s.push(None)) == phase_values(s),
        phase_values(s.push(Some(v))) == phase_values(s).push(v as u32),
        phase_values(s).len() > 0 ==> phase_mean(s) * phase_values(s).len() <= total_ms(
            phase_values(s),
        ) < (phase_mean(s) + 1) * phase_values(s).len(),
{
    assert(s.push(None).drop_last() =~= s);
    assert(s.push(Some(v)).drop_last() =~= s);
    if phase_values(s).len() > 0 {
        law_a_mean_lies_between(phase_values(s), 0, u32::MAX);
    }
}

} // verus!
