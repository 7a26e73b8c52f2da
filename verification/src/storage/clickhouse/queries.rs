//! The statements of the org-scoped read side.

use vstd::prelude::*;

use crate::ids::{uuid_string, uuid_text, OrgId};
use crate::strings::{decimal, has_prefix, has_substring, owned, u64_text};
use crate::time::{now, Timestamp, NANOS_PER_SEC, SECS_PER_DAY};

verus! {

/// Days that the minute rollup is kept. Ranges reaching past it read the hour rollup.
pub const MINUTE_ROLLUP_DAYS: i64 = 30;

/// A rollup of the raw results. Both carry the same aggregate columns.
#[derive(Debug, Clone, Copy, PartialEq, Eq, Structural)]
pub enum Rollup {
    Minute,
    Hour,
}

impl Rollup {
    pub open spec fn table(self) -> Seq<char> {
        match self {
            Rollup::Minute => "check_results_1m"@,
            Rollup::Hour => "check_results_1h"@,
        }
    }

    pub open spec fn column(self) -> Seq<char> {
        match self {
            Rollup::Minute => "minute"@,
            Rollup::Hour => "hour"@,
        }
    }

    /// The rollup's table.
    pub fn table_str(self) -> (r: &'static str)
        ensures
            r@ == self.table(),
            self == Rollup::Minute ==> r@ == "check_results_1m"@,
            self == Rollup::Hour ==> r@ == "check_results_1h"@,
    {
        match self {
            Rollup::Minute => "check_results_1m",
            Rollup::Hour => "check_results_1h",
        }
    }

    /// The rollup's time column.
    pub fn column_str(self) -> (r: &'static str)
        ensures
            r@ == self.column(),
            self == Rollup::Minute ==> r@ == "minute"@,
            self == Rollup::Hour ==> r@ == "hour"@,
    {
        match self {
            Rollup::Minute => "minute",
            Rollup::Hour => "hour",
        }
    }
}

/// The rollup for a range that starts at `from`: the minute rollup within the days it is
/// kept, else the hour rollup.
pub open spec fn source_of(from: Timestamp, now: Timestamp) -> Rollup {
    if from.nanos >= now.nanos - MINUTE_ROLLUP_DAYS * SECS_PER_DAY * NANOS_PER_SEC {
        Rollup::Minute
    } else {
        Rollup::Hour
    }
}

/// The rollup for a range that starts at `from`, at `now`.
pub fn rollup_source_at(from: Timestamp, now: Timestamp) -> (r: Rollup)
    requires
        now.wf(),
    ensures
        r == source_of(from, now),
        r == Rollup::Minute <==> from.nanos >= now.nanos - 2_592_000_000_000_000,
{
    let reach: i128 = MINUTE_ROLLUP_DAYS as i128 * SECS_PER_DAY as i128 * NANOS_PER_SEC;
    if from.nanos >= now.nanos - reach {
        Rollup::Minute
    } else {
        Rollup::Hour
    }
}

/// The rollup for a range that starts at `from`, now.
pub fn rollup_source(from: Timestamp) -> (r: Rollup)
    ensures
        exists|t: Timestamp| t.wf() && r == #[trigger] source_of(from, t),
{
    let t = now();
    rollup_source_at(from, t)
}

/// The condition on the region, where one is asked for.
pub open spec fn region_pred(region: bool) -> Seq<char> {
    if region {
        "AND region = ?"@
    } else {
        ""@
    }
}

/// The condition on the region at the end of a scope, where one is asked for.
pub open spec fn region_tail(region: bool) -> Seq<char> {
    if region {
        "AND region = ? "@
    } else {
        ""@
    }
}

fn region_pred_str(region: bool) -> (r: &'static str)
    ensures
        r@ == region_pred(region),
{
    if region {
        "AND region = ?"
    } else {
        ""
    }
}

fn region_tail_str(region: bool) -> (r: &'static str)
    ensures
        r@ == region_tail(region),
{
    if region {
        "AND region = ? "
    } else {
        ""
    }
}

/// A read of one org's data. `region` says whether the read is for one region; `bucket` is
/// a slot's width in seconds.
#[derive(Debug, Clone, Copy, PartialEq, Eq, Structural)]
pub enum Read {
    /// Raw results of one target, newest first.
    Results { region: bool },
    /// Raw results of one target with their regions, newest first.
    ResultsByRegion,
    /// Raw results of one target that were not up, newest first.
    FailuresByRegion { region: bool },
    /// The newest verdict of each target.
    StatusBreakdown { region: bool },
    /// Totals of a fleet.
    SummaryCounts { source: Rollup, region: bool },
    /// Every verdict of a fleet, by target and time.
    SummaryRows { region: bool },
    /// Counts of one target by verdict.
    Uptime { source: Rollup, region: bool },
    /// Numbers of each target.
    DashboardRollup { source: Rollup, region: bool },
    /// Mean durations of each target by minute.
    Sparkline { region: bool },
    /// Latency of one target by slot.
    LatencyBuckets { source: Rollup, bucket: u32, region: bool },
    /// Checks of one target by slot.
    AvailabilityBuckets { source: Rollup, bucket: u32, region: bool },
    /// Numbers of one target by region.
    RegionBreakdown,
    /// Latency of one target by region and slot.
    LatencyByRegion { source: Rollup, bucket: u32 },
    /// Checks of a fleet by slot, and which targets dipped.
    FleetRibbon { bucket: u32, region: bool },
    /// Totals of a fleet over the period before.
    PriorPeriod { source: Rollup, region: bool },
    /// What a failed job printed.
    HeartbeatOutput,
    /// The newest runs of a flow, and the newest that failed.
    FlowRuns { region: bool, limit: u64 },
    /// Durations of a flow by step and slot.
    FlowSteps { bucket: u32, region: bool },
}

impl Read {
    /// What stands before the condition on the org.
    pub open spec fn head(self) -> Seq<char> {
        match self {
            Read::Results { .. } => "SELECT target_id, timestamp, status, duration_ms, dns_ms, connect_ms, tls_ms, ttfb_ms, response_code, response_size, error FROM check_results WHERE "@,
            Read::ResultsByRegion => "SELECT region, target_id, timestamp, status, duration_ms, dns_ms, connect_ms, tls_ms, ttfb_ms, response_code, response_size, error FROM check_results WHERE "@,
            Read::FailuresByRegion { .. } => "SELECT region, target_id, timestamp, status, duration_ms, dns_ms, connect_ms, tls_ms, ttfb_ms, response_code, response_size, error FROM check_results WHERE "@,
            Read::StatusBreakdown { .. } => "SELECT argMax(status, timestamp) AS status FROM check_results WHERE "@,
            Read::SummaryCounts { source, .. } => "SELECT countMerge(total_checks) AS total, countIfMerge(up_checks) AS up, avgMerge(avg_duration_ms) AS avg_ms FROM "@ + source.table() + " WHERE "@,
            Read::SummaryRows { .. } => "SELECT target_id, timestamp, status, error FROM check_results WHERE "@,
            Read::Uptime { source, .. } => "SELECT countMerge(total_checks) AS total, countIfMerge(up_checks) AS up, countIfMerge(down_checks) AS down, countIfMerge(degraded_checks) AS degraded, countIfMerge(error_checks) AS error FROM "@ + source.table() + " WHERE "@,
            Read::DashboardRollup { source, .. } => "SELECT target_id, countMerge(total_checks) AS samples, countIfMerge(up_checks) AS up, avgMerge(avg_duration_ms) AS avg_ms, quantilesMerge(0.5, 0.95)(duration_quantiles) AS quantiles, argMaxMerge(last_status_state) AS last_status, toUInt32(max("@ + source.column() + ")) AS last_minute_ts FROM "@ + source.table() + " WHERE "@,
            Read::Sparkline { .. } => "SELECT target_id, toUInt32(minute) AS bucket_ts, avgMerge(avg_duration_ms) AS avg_ms, countMerge(total_checks) AS checks, countIfMerge(up_checks) AS up FROM check_results_1m WHERE "@,
            Read::LatencyBuckets { source, bucket, .. } => "SELECT toUInt32(toStartOfInterval("@ + source.column() + ", INTERVAL "@ + decimal(bucket as nat) + " SECOND)) AS bucket_ts, quantilesMerge(0.5, 0.95, 0.99)(duration_quantiles) AS quantiles, avgMerge(avg_duration_ms) AS avg, ifNull(avgMerge(avg_dns_ms), 0) AS dns, ifNull(avgMerge(avg_connect_ms), 0) AS connect, ifNull(avgMerge(avg_tls_ms), 0) AS tls, ifNull(avgMerge(avg_ttfb_ms), 0) AS ttfb, countMerge(total_checks) AS samples FROM "@ + source.table() + " WHERE "@,
            Read::AvailabilityBuckets { source, bucket, .. } => "SELECT toUInt32(toStartOfInterval("@ + source.column() + ", INTERVAL "@ + decimal(bucket as nat) + " SECOND)) AS bucket_ts, countMerge(total_checks) AS total, countIfMerge(up_checks) AS up FROM "@ + source.table() + " WHERE "@,
            Read::RegionBreakdown => "SELECT region, countMerge(total_checks) AS samples, countIfMerge(up_checks) AS up, quantilesMerge(0.5, 0.95, 0.99)(duration_quantiles) AS quantiles, argMaxMerge(last_status_state) AS last_status FROM check_results_1m WHERE "@,
            Read::LatencyByRegion { source, bucket } => "SELECT region, toUInt32(toStartOfInterval("@ + source.column() + ", INTERVAL "@ + decimal(bucket as nat) + " SECOND)) AS bucket_ts, quantilesMerge(0.5, 0.95, 0.99)(duration_quantiles) AS quantiles, avgMerge(avg_duration_ms) AS avg, ifNull(avgMerge(avg_dns_ms), 0) AS dns, ifNull(avgMerge(avg_connect_ms), 0) AS connect, ifNull(avgMerge(avg_tls_ms), 0) AS tls, ifNull(avgMerge(avg_ttfb_ms), 0) AS ttfb, countMerge(total_checks) AS samples FROM "@ + source.table() + " WHERE "@,
            Read::FleetRibbon { bucket, .. } => "SELECT bucket_ts, sum(t_samples) AS samples, sum(t_up) AS up, groupUniqArrayIf(target_id, t_samples > t_up) AS down_targets FROM ( SELECT toUInt32(toStartOfInterval(minute, INTERVAL "@ + decimal(bucket as nat) + " SECOND)) AS bucket_ts, target_id, countMerge(total_checks) AS t_samples, countIfMerge(up_checks) AS t_up FROM check_results_1m WHERE "@,
            Read::PriorPeriod { source, .. } => "SELECT countMerge(total_checks) AS samples, countIfMerge(up_checks) AS up, avgMerge(avg_duration_ms) AS avg_ms FROM "@ + source.table() + " WHERE "@,
            Read::HeartbeatOutput => "SELECT body FROM heartbeat_pings WHERE "@,
            Read::FlowRuns { .. } => "SELECT timestamp, region, status, duration_ms, stopped_step, error, step_op, step_outcome, step_ms, final_url, title, text_snippet, console_level, console_text, evidence_expired FROM (SELECT timestamp, region, status, duration_ms, stopped_step, error, step_op, step_outcome, step_ms, final_url, title, text_snippet, console_level, console_text, timestamp < now() - toIntervalDay(evidence_days) AS evidence_expired FROM flow_runs WHERE "@,
            Read::FlowSteps { bucket, .. } => "SELECT toUInt16(idx - 1) AS step, argMax(op, ts) AS op, toUInt32(toStartOfInterval(ts, INTERVAL "@ + decimal(bucket as nat) + " SECOND)) AS bucket_ts, avgIf(ms, outcome = 'passed') AS avg_ms, countIf(outcome = 'passed') AS samples, countIf(outcome = 'failed') AS failed FROM (SELECT timestamp AS ts, arrayJoin(arrayEnumerate(step_ms)) AS idx, step_op[idx] AS op, step_outcome[idx] AS outcome, step_ms[idx] AS ms FROM flow_runs WHERE "@,
        }
    }

    /// What stands behind the condition on the org.
    pub open spec fn tail(self) -> Seq<char> {
        match self {
            Read::Results { region } => " AND target_id = ? "@ + region_pred(region) + " AND timestamp >= fromUnixTimestamp(?) AND timestamp < fromUnixTimestamp(?) ORDER BY timestamp DESC LIMIT ? OFFSET ?"@,
            Read::ResultsByRegion => " AND target_id = ? AND timestamp >= fromUnixTimestamp(?) AND timestamp < fromUnixTimestamp(?) ORDER BY timestamp DESC LIMIT ? OFFSET ?"@,
            Read::FailuresByRegion { region } => " AND target_id = ? AND status != 1 "@ + region_pred(region) + " AND timestamp >= fromUnixTimestamp(?) AND timestamp < fromUnixTimestamp(?) ORDER BY timestamp DESC LIMIT ? OFFSET ?"@,
            Read::StatusBreakdown { region } => " "@ + region_pred(region) + " AND timestamp >= fromUnixTimestamp(?) AND timestamp < fromUnixTimestamp(?) GROUP BY target_id"@,
            Read::SummaryCounts { source, region } => " "@ + region_pred(region) + " AND "@ + source.column() + " >= fromUnixTimestamp(?) AND "@ + source.column() + " < fromUnixTimestamp(?)"@,
            Read::SummaryRows { region } => " "@ + region_pred(region) + " AND timestamp >= fromUnixTimestamp(?) AND timestamp < fromUnixTimestamp(?) ORDER BY target_id ASC, timestamp ASC"@,
            Read::Uptime { source, region } => " AND target_id = ? "@ + region_pred(region) + " AND "@ + source.column() + " >= fromUnixTimestamp(?) AND "@ + source.column() + " < fromUnixTimestamp(?)"@,
            Read::DashboardRollup { source, region } => " "@ + region_pred(region) + " AND "@ + source.column() + " >= fromUnixTimestamp(?) AND "@ + source.column() + " < fromUnixTimestamp(?) GROUP BY target_id"@,
            Read::Sparkline { region } => " "@ + region_pred(region) + " AND minute >= fromUnixTimestamp(?) AND minute < fromUnixTimestamp(?) GROUP BY target_id, minute ORDER BY target_id, minute"@,
            Read::LatencyBuckets { source, region, .. } => " AND target_id = ? "@ + region_pred(region) + " AND "@ + source.column() + " >= fromUnixTimestamp(?) AND "@ + source.column() + " < fromUnixTimestamp(?) GROUP BY bucket_ts ORDER BY bucket_ts"@,
            Read::AvailabilityBuckets { source, region, .. } => " AND target_id = ? "@ + region_pred(region) + " AND "@ + source.column() + " >= fromUnixTimestamp(?) AND "@ + source.column() + " < fromUnixTimestamp(?) GROUP BY bucket_ts ORDER BY bucket_ts"@,
            Read::RegionBreakdown => " AND target_id = ? AND minute >= fromUnixTimestamp(?) AND minute < fromUnixTimestamp(?) GROUP BY region ORDER BY region"@,
            Read::LatencyByRegion { source, .. } => " AND target_id = ? AND "@ + source.column() + " >= fromUnixTimestamp(?) AND "@ + source.column() + " < fromUnixTimestamp(?) GROUP BY region, bucket_ts ORDER BY region, bucket_ts"@,
            Read::FleetRibbon { region, .. } => " "@ + region_pred(region) + " AND minute >= fromUnixTimestamp(?) AND minute < fromUnixTimestamp(?) GROUP BY bucket_ts, target_id ) GROUP BY bucket_ts ORDER BY bucket_ts"@,
            Read::PriorPeriod { source, region } => " "@ + region_pred(region) + " AND "@ + source.column() + " >= fromUnixTimestamp(?) AND "@ + source.column() + " < fromUnixTimestamp(?)"@,
            Read::HeartbeatOutput => " AND target_id = ? AND signal = 'fail' AND received_at = fromUnixTimestamp(?) LIMIT 1"@,
            Read::FlowRuns { region, limit } => " AND target_id = ? AND timestamp >= fromUnixTimestamp(?) AND timestamp < fromUnixTimestamp(?) "@ + region_tail(region) + " ORDER BY timestamp DESC LIMIT "@ + decimal(limit as nat) + " UNION DISTINCT SELECT timestamp, region, status, duration_ms, stopped_step, error, step_op, step_outcome, step_ms, final_url, title, text_snippet, console_level, console_text, timestamp < now() - toIntervalDay(evidence_days) AS evidence_expired FROM flow_runs WHERE "@ + "org_id = ?"@ + " AND target_id = ? AND timestamp >= fromUnixTimestamp(?) AND timestamp < fromUnixTimestamp(?) "@ + region_tail(region) + " AND status != 'up' ORDER BY timestamp DESC LIMIT "@ + decimal(limit as nat) + ") ORDER BY timestamp DESC"@,
            Read::FlowSteps { region, .. } => " AND target_id = ? "@ + region_pred(region) + " AND timestamp >= fromUnixTimestamp(?) AND timestamp < fromUnixTimestamp(?)) WHERE outcome != 'skipped' GROUP BY step, bucket_ts ORDER BY step, bucket_ts"@,
        }
    }

    /// The statement of a read.
    pub open spec fn text(self) -> Seq<char> {
        self.head() + "org_id = ?"@ + self.tail()
    }

    fn head_str(self) -> (r: String)
        ensures
            r@ == self.head(),
    {
        match self {
            Read::Results { .. } => {
                let mut s = owned("SELECT target_id, timestamp, status, duration_ms, dns_ms, connect_ms, tls_ms, ttfb_ms, response_code, response_size, error FROM check_results WHERE ");
                s
            },
            Read::ResultsByRegion => {
                let mut s = owned("SELECT region, target_id, timestamp, status, duration_ms, dns_ms, connect_ms, tls_ms, ttfb_ms, response_code, response_size, error FROM check_results WHERE ");
                s
            },
            Read::FailuresByRegion { .. } => {
                let mut s = owned("SELECT region, target_id, timestamp, status, duration_ms, dns_ms, connect_ms, tls_ms, ttfb_ms, response_code, response_size, error FROM check_results WHERE ");
                s
            },
            Read::StatusBreakdown { .. } => {
                let mut s = owned("SELECT argMax(status, timestamp) AS status FROM check_results WHERE ");
                s
            },
            Read::SummaryCounts { source, .. } => {
                let mut s = owned("SELECT countMerge(total_checks) AS total, countIfMerge(up_checks) AS up, avgMerge(avg_duration_ms) AS avg_ms FROM ");
                s.append(source.table_str());
                s.append(" WHERE ");
                s
            },
            Read::SummaryRows { .. } => {
                let mut s = owned("SELECT target_id, timestamp, status, error FROM check_results WHERE ");
                s
            },
            Read::Uptime { source, .. } => {
                let mut s = owned("SELECT countMerge(total_checks) AS total, countIfMerge(up_checks) AS up, countIfMerge(down_checks) AS down, countIfMerge(degraded_checks) AS degraded, countIfMerge(error_checks) AS error FROM ");
                s.append(source.table_str());
                s.append(" WHERE ");
                s
            },
            Read::DashboardRollup { source, .. } => {
                let mut s = owned("SELECT target_id, countMerge(total_checks) AS samples, countIfMerge(up_checks) AS up, avgMerge(avg_duration_ms) AS avg_ms, quantilesMerge(0.5, 0.95)(duration_quantiles) AS quantiles, argMaxMerge(last_status_state) AS last_status, toUInt32(max(");
                s.append(source.column_str());
                s.append(")) AS last_minute_ts FROM ");
                s.append(source.table_str());
                s.append(" WHERE ");
                s
            },
            Read::Sparkline { .. } => {
                let mut s = owned("SELECT target_id, toUInt32(minute) AS bucket_ts, avgMerge(avg_duration_ms) AS avg_ms, countMerge(total_checks) AS checks, countIfMerge(up_checks) AS up FROM check_results_1m WHERE ");
                s
            },
            Read::LatencyBuckets { source, bucket, .. } => {
                let bucket_text = u64_text(bucket as u64);
                let mut s = owned("SELECT toUInt32(toStartOfInterval(");
                s.append(source.column_str());
                s.append(", INTERVAL ");
                s.append(bucket_text.as_str());
                s.append(" SECOND)) AS bucket_ts, quantilesMerge(0.5, 0.95, 0.99)(duration_quantiles) AS quantiles, avgMerge(avg_duration_ms) AS avg, ifNull(avgMerge(avg_dns_ms), 0) AS dns, ifNull(avgMerge(avg_connect_ms), 0) AS connect, ifNull(avgMerge(avg_tls_ms), 0) AS tls, ifNull(avgMerge(avg_ttfb_ms), 0) AS ttfb, countMerge(total_checks) AS samples FROM ");
                s.append(source.table_str());
                s.append(" WHERE ");
                s
            },
            Read::AvailabilityBuckets { source, bucket, .. } => {
                let bucket_text = u64_text(bucket as u64);
                let mut s = owned("SELECT toUInt32(toStartOfInterval(");
                s.append(source.column_str());
                s.append(", INTERVAL ");
                s.append(bucket_text.as_str());
                s.append(" SECOND)) AS bucket_ts, countMerge(total_checks) AS total, countIfMerge(up_checks) AS up FROM ");
                s.append(source.table_str());
                s.append(" WHERE ");
                s
            },
            Read::RegionBreakdown => {
                let mut s = owned("SELECT region, countMerge(total_checks) AS samples, countIfMerge(up_checks) AS up, quantilesMerge(0.5, 0.95, 0.99)(duration_quantiles) AS quantiles, argMaxMerge(last_status_state) AS last_status FROM check_results_1m WHERE ");
                s
            },
            Read::LatencyByRegion { source, bucket } => {
                let bucket_text = u64_text(bucket as u64);
                let mut s = owned("SELECT region, toUInt32(toStartOfInterval(");
                s.append(source.column_str());
                s.append(", INTERVAL ");
                s.append(bucket_text.as_str());
                s.append(" SECOND)) AS bucket_ts, quantilesMerge(0.5, 0.95, 0.99)(duration_quantiles) AS quantiles, avgMerge(avg_duration_ms) AS avg, ifNull(avgMerge(avg_dns_ms), 0) AS dns, ifNull(avgMerge(avg_connect_ms), 0) AS connect, ifNull(avgMerge(avg_tls_ms), 0) AS tls, ifNull(avgMerge(avg_ttfb_ms), 0) AS ttfb, countMerge(total_checks) AS samples FROM ");
                s.append(source.table_str());
                s.append(" WHERE ");
                s
            },
            Read::FleetRibbon { bucket, .. } => {
                let bucket_text = u64_text(bucket as u64);
                let mut s = owned("SELECT bucket_ts, sum(t_samples) AS samples, sum(t_up) AS up, groupUniqArrayIf(target_id, t_samples > t_up) AS down_targets FROM ( SELECT toUInt32(toStartOfInterval(minute, INTERVAL ");
                s.append(bucket_text.as_str());
                s.append(" SECOND)) AS bucket_ts, target_id, countMerge(total_checks) AS t_samples, countIfMerge(up_checks) AS t_up FROM check_results_1m WHERE ");
                s
            },
            Read::PriorPeriod { source, .. } => {
                let mut s = owned("SELECT countMerge(total_checks) AS samples, countIfMerge(up_checks) AS up, avgMerge(avg_duration_ms) AS avg_ms FROM ");
                s.append(source.table_str());
                s.append(" WHERE ");
                s
            },
            Read::HeartbeatOutput => {
                let mut s = owned("SELECT body FROM heartbeat_pings WHERE ");
                s
            },
            Read::FlowRuns { .. } => {
                let mut s = owned("SELECT timestamp, region, status, duration_ms, stopped_step, error, step_op, step_outcome, step_ms, final_url, title, text_snippet, console_level, console_text, evidence_expired FROM (SELECT timestamp, region, status, duration_ms, stopped_step, error, step_op, step_outcome, step_ms, final_url, title, text_snippet, console_level, console_text, timestamp < now() - toIntervalDay(evidence_days) AS evidence_expired FROM flow_runs WHERE ");
                s
            },
            Read::FlowSteps { bucket, .. } => {
                let bucket_text = u64_text(bucket as u64);
                let mut s = owned("SELECT toUInt16(idx - 1) AS step, argMax(op, ts) AS op, toUInt32(toStartOfInterval(ts, INTERVAL ");
                s.append(bucket_text.as_str());
                s.append(" SECOND)) AS bucket_ts, avgIf(ms, outcome = 'passed') AS avg_ms, countIf(outcome = 'passed') AS samples, countIf(outcome = 'failed') AS failed FROM (SELECT timestamp AS ts, arrayJoin(arrayEnumerate(step_ms)) AS idx, step_op[idx] AS op, step_outcome[idx] AS outcome, step_ms[idx] AS ms FROM flow_runs WHERE ");
                s
            },
        }
    }

    fn tail_str(self) -> (r: String)
        ensures
            r@ == self.tail(),
    {
        match self {
            Read::Results { region } => {
                let mut s = owned(" AND target_id = ? ");
                s.append(region_pred_str(region));
                s.append(" AND timestamp >= fromUnixTimestamp(?) AND timestamp < fromUnixTimestamp(?) ORDER BY timestamp DESC LIMIT ? OFFSET ?");
                s
            },
            Read::ResultsByRegion => {
                let mut s = owned(" AND target_id = ? AND timestamp >= fromUnixTimestamp(?) AND timestamp < fromUnixTimestamp(?) ORDER BY timestamp DESC LIMIT ? OFFSET ?");
                s
            },
            Read::FailuresByRegion { region } => {
                let mut s = owned(" AND target_id = ? AND status != 1 ");
                s.append(region_pred_str(region));
                s.append(" AND timestamp >= fromUnixTimestamp(?) AND timestamp < fromUnixTimestamp(?) ORDER BY timestamp DESC LIMIT ? OFFSET ?");
                s
            },
            Read::StatusBreakdown { region } => {
                let mut s = owned(" ");
                s.append(region_pred_str(region));
                s.append(" AND timestamp >= fromUnixTimestamp(?) AND timestamp < fromUnixTimestamp(?) GROUP BY target_id");
                s
            },
            Read::SummaryCounts { source, region } => {
                let mut s = owned(" ");
                s.append(region_pred_str(region));
                s.append(" AND ");
                s.append(source.column_str());
                s.append(" >= fromUnixTimestamp(?) AND ");
                s.append(source.column_str());
                s.append(" < fromUnixTimestamp(?)");
                s
            },
            Read::SummaryRows { region } => {
                let mut s = owned(" ");
                s.append(region_pred_str(region));
                s.append(" AND timestamp >= fromUnixTimestamp(?) AND timestamp < fromUnixTimestamp(?) ORDER BY target_id ASC, timestamp ASC");
                s
            },
            Read::Uptime { source, region } => {
                let mut s = owned(" AND target_id = ? ");
                s.append(region_pred_str(region));
                s.append(" AND ");
                s.append(source.column_str());
                s.append(" >= fromUnixTimestamp(?) AND ");
                s.append(source.column_str());
                s.append(" < fromUnixTimestamp(?)");
                s
            },
            Read::DashboardRollup { source, region } => {
                let mut s = owned(" ");
                s.append(region_pred_str(region));
                s.append(" AND ");
                s.append(source.column_str());
                s.append(" >= fromUnixTimestamp(?) AND ");
                s.append(source.column_str());
                s.append(" < fromUnixTimestamp(?) GROUP BY target_id");
                s
            },
            Read::Sparkline { region } => {
                let mut s = owned(" ");
                s.append(region_pred_str(region));
                s.append(" AND minute >= fromUnixTimestamp(?) AND minute < fromUnixTimestamp(?) GROUP BY target_id, minute ORDER BY target_id, minute");
                s
            },
            Read::LatencyBuckets { source, region, .. } => {
                let mut s = owned(" AND target_id = ? ");
                s.append(region_pred_str(region));
                s.append(" AND ");
                s.append(source.column_str());
                s.append(" >= fromUnixTimestamp(?) AND ");
                s.append(source.column_str());
                s.append(" < fromUnixTimestamp(?) GROUP BY bucket_ts ORDER BY bucket_ts");
                s
            },
            Read::AvailabilityBuckets { source, region, .. } => {
                let mut s = owned(" AND target_id = ? ");
                s.append(region_pred_str(region));
                s.append(" AND ");
                s.append(source.column_str());
                s.append(" >= fromUnixTimestamp(?) AND ");
                s.append(source.column_str());
                s.append(" < fromUnixTimestamp(?) GROUP BY bucket_ts ORDER BY bucket_ts");
                s
            },
            Read::RegionBreakdown => {
                let mut s = owned(" AND target_id = ? AND minute >= fromUnixTimestamp(?) AND minute < fromUnixTimestamp(?) GROUP BY region ORDER BY region");
                s
            },
            Read::LatencyByRegion { source, .. } => {
                let mut s = owned(" AND target_id = ? AND ");
                s.append(source.column_str());
                s.append(" >= fromUnixTimestamp(?) AND ");
                s.append(source.column_str());
                s.append(" < fromUnixTimestamp(?) GROUP BY region, bucket_ts ORDER BY region, bucket_ts");
                s
            },
            Read::FleetRibbon { region, .. } => {
                let mut s = owned(" ");
                s.append(region_pred_str(region));
                s.append(" AND minute >= fromUnixTimestamp(?) AND minute < fromUnixTimestamp(?) GROUP BY bucket_ts, target_id ) GROUP BY bucket_ts ORDER BY bucket_ts");
                s
            },
            Read::PriorPeriod { source, region } => {
                let mut s = owned(" ");
                s.append(region_pred_str(region));
                s.append(" AND ");
                s.append(source.column_str());
                s.append(" >= fromUnixTimestamp(?) AND ");
                s.append(source.column_str());
                s.append(" < fromUnixTimestamp(?)");
                s
            },
            Read::HeartbeatOutput => {
                let mut s = owned(" AND target_id = ? AND signal = 'fail' AND received_at = fromUnixTimestamp(?) LIMIT 1");
                s
            },
            Read::FlowRuns { region, limit } => {
                let limit_text = u64_text(limit);
                let mut s = owned(" AND target_id = ? AND timestamp >= fromUnixTimestamp(?) AND timestamp < fromUnixTimestamp(?) ");
                s.append(region_tail_str(region));
                s.append(" ORDER BY timestamp DESC LIMIT ");
                s.append(limit_text.as_str());
                s.append(" UNION DISTINCT SELECT timestamp, region, status, duration_ms, stopped_step, error, step_op, step_outcome, step_ms, final_url, title, text_snippet, console_level, console_text, timestamp < now() - toIntervalDay(evidence_days) AS evidence_expired FROM flow_runs WHERE ");
                s.append("org_id = ?");
                s.append(" AND target_id = ? AND timestamp >= fromUnixTimestamp(?) AND timestamp < fromUnixTimestamp(?) ");
                s.append(region_tail_str(region));
                s.append(" AND status != 'up' ORDER BY timestamp DESC LIMIT ");
                s.append(limit_text.as_str());
                s.append(") ORDER BY timestamp DESC");
                s
            },
            Read::FlowSteps { region, .. } => {
                let mut s = owned(" AND target_id = ? ");
                s.append(region_pred_str(region));
                s.append(" AND timestamp >= fromUnixTimestamp(?) AND timestamp < fromUnixTimestamp(?)) WHERE outcome != 'skipped' GROUP BY step, bucket_ts ORDER BY step, bucket_ts");
                s
            },
        }
    }

    /// The statement of a read.
    pub fn sql(self) -> (r: String)
        ensures
            r@ == self.text(),
            ({
                let table = |s: Rollup| match s {
                    Rollup::Minute => "check_results_1m"@,
                    Rollup::Hour => "check_results_1h"@,
                };
                let column = |s: Rollup| match s {
                    Rollup::Minute => "minute"@,
                    Rollup::Hour => "hour"@,
                };
                let one_region = |region: bool| if region { "AND region = ?"@ } else { ""@ };
                let in_region = |region: bool| if region { "AND region = ? "@ } else { ""@ };
                match self {
                    Read::Results { region } => r@ == "SELECT target_id, timestamp, status, duration_ms, dns_ms, connect_ms, tls_ms, ttfb_ms, response_code, response_size, error FROM check_results WHERE "@ + "org_id = ?"@ + (" AND target_id = ? "@ + one_region(region) + " AND timestamp >= fromUnixTimestamp(?) AND timestamp < fromUnixTimestamp(?) ORDER BY timestamp DESC LIMIT ? OFFSET ?"@),
                    Read::ResultsByRegion => r@ == "SELECT region, target_id, timestamp, status, duration_ms, dns_ms, connect_ms, tls_ms, ttfb_ms, response_code, response_size, error FROM check_results WHERE "@ + "org_id = ?"@ + " AND target_id = ? AND timestamp >= fromUnixTimestamp(?) AND timestamp < fromUnixTimestamp(?) ORDER BY timestamp DESC LIMIT ? OFFSET ?"@,
                    Read::FailuresByRegion { region } => r@ == "SELECT region, target_id, timestamp, status, duration_ms, dns_ms, connect_ms, tls_ms, ttfb_ms, response_code, response_size, error FROM check_results WHERE "@ + "org_id = ?"@ + (" AND target_id = ? AND status != 1 "@ + one_region(region) + " AND timestamp >= fromUnixTimestamp(?) AND timestamp < fromUnixTimestamp(?) ORDER BY timestamp DESC LIMIT ? OFFSET ?"@),
                    Read::StatusBreakdown { region } => r@ == "SELECT argMax(status, timestamp) AS status FROM check_results WHERE "@ + "org_id = ?"@ + (" "@ + one_region(region) + " AND timestamp >= fromUnixTimestamp(?) AND timestamp < fromUnixTimestamp(?) GROUP BY target_id"@),
                    Read::SummaryCounts { source, region } => r@ == "SELECT countMerge(total_checks) AS total, countIfMerge(up_checks) AS up, avgMerge(avg_duration_ms) AS avg_ms FROM "@ + table(source) + " WHERE "@ + "org_id = ?"@ + (" "@ + one_region(region) + " AND "@ + column(source) + " >= fromUnixTimestamp(?) AND "@ + column(source) + " < fromUnixTimestamp(?)"@),
                    Read::SummaryRows { region } => r@ == "SELECT target_id, timestamp, status, error FROM check_results WHERE "@ + "org_id = ?"@ + (" "@ + one_region(region) + " AND timestamp >= fromUnixTimestamp(?) AND timestamp < fromUnixTimestamp(?) ORDER BY target_id ASC, timestamp ASC"@),
                    Read::Uptime { source, region } => r@ == "SELECT countMerge(total_checks) AS total, countIfMerge(up_checks) AS up, countIfMerge(down_checks) AS down, countIfMerge(degraded_checks) AS degraded, countIfMerge(error_checks) AS error FROM "@ + table(source) + " WHERE "@ + "org_id = ?"@ + (" AND target_id = ? "@ + one_region(region) + " AND "@ + column(source) + " >= fromUnixTimestamp(?) AND "@ + column(source) + " < fromUnixTimestamp(?)"@),
                    Read::DashboardRollup { source, region } => r@ == "SELECT target_id, countMerge(total_checks) AS samples, countIfMerge(up_checks) AS up, avgMerge(avg_duration_ms) AS avg_ms, quantilesMerge(0.5, 0.95)(duration_quantiles) AS quantiles, argMaxMerge(last_status_state) AS last_status, toUInt32(max("@ + column(source) + ")) AS last_minute_ts FROM "@ + table(source) + " WHERE "@ + "org_id = ?"@ + (" "@ + one_region(region) + " AND "@ + column(source) + " >= fromUnixTimestamp(?) AND "@ + column(source) + " < fromUnixTimestamp(?) GROUP BY target_id"@),
                    Read::Sparkline { region } => r@ == "SELECT target_id, toUInt32(minute) AS bucket_ts, avgMerge(avg_duration_ms) AS avg_ms, countMerge(total_checks) AS checks, countIfMerge(up_checks) AS up FROM check_results_1m WHERE "@ + "org_id = ?"@ + (" "@ + one_region(region) + " AND minute >= fromUnixTimestamp(?) AND minute < fromUnixTimestamp(?) GROUP BY target_id, minute ORDER BY target_id, minute"@),
                    Read::LatencyBuckets { source, bucket, region } => r@ == "SELECT toUInt32(toStartOfInterval("@ + column(source) + ", INTERVAL "@ + decimal(bucket as nat) + " SECOND)) AS bucket_ts, quantilesMerge(0.5, 0.95, 0.99)(duration_quantiles) AS quantiles, avgMerge(avg_duration_ms) AS avg, ifNull(avgMerge(avg_dns_ms), 0) AS dns, ifNull(avgMerge(avg_connect_ms), 0) AS connect, ifNull(avgMerge(avg_tls_ms), 0) AS tls, ifNull(avgMerge(avg_ttfb_ms), 0) AS ttfb, countMerge(total_checks) AS samples FROM "@ + table(source) + " WHERE "@ + "org_id = ?"@ + (" AND target_id = ? "@ + one_region(region) + " AND "@ + column(source) + " >= fromUnixTimestamp(?) AND "@ + column(source) + " < fromUnixTimestamp(?) GROUP BY bucket_ts ORDER BY bucket_ts"@),
                    Read::AvailabilityBuckets { source, bucket, region } => r@ == "SELECT toUInt32(toStartOfInterval("@ + column(source) + ", INTERVAL "@ + decimal(bucket as nat) + " SECOND)) AS bucket_ts, countMerge(total_checks) AS total, countIfMerge(up_checks) AS up FROM "@ + table(source) + " WHERE "@ + "org_id = ?"@ + (" AND target_id = ? "@ + one_region(region) + " AND "@ + column(source) + " >= fromUnixTimestamp(?) AND "@ + column(source) + " < fromUnixTimestamp(?) GROUP BY bucket_ts ORDER BY bucket_ts"@),
                    Read::RegionBreakdown => r@ == "SELECT region, countMerge(total_checks) AS samples, countIfMerge(up_checks) AS up, quantilesMerge(0.5, 0.95, 0.99)(duration_quantiles) AS quantiles, argMaxMerge(last_status_state) AS last_status FROM check_results_1m WHERE "@ + "org_id = ?"@ + " AND target_id = ? AND minute >= fromUnixTimestamp(?) AND minute < fromUnixTimestamp(?) GROUP BY region ORDER BY region"@,
                    Read::LatencyByRegion { source, bucket } => r@ == "SELECT region, toUInt32(toStartOfInterval("@ + column(source) + ", INTERVAL "@ + decimal(bucket as nat) + " SECOND)) AS bucket_ts, quantilesMerge(0.5, 0.95, 0.99)(duration_quantiles) AS quantiles, avgMerge(avg_duration_ms) AS avg, ifNull(avgMerge(avg_dns_ms), 0) AS dns, ifNull(avgMerge(avg_connect_ms), 0) AS connect, ifNull(avgMerge(avg_tls_ms), 0) AS tls, ifNull(avgMerge(avg_ttfb_ms), 0) AS ttfb, countMerge(total_checks) AS samples FROM "@ + table(source) + " WHERE "@ + "org_id = ?"@ + (" AND target_id = ? AND "@ + column(source) + " >= fromUnixTimestamp(?) AND "@ + column(source) + " < fromUnixTimestamp(?) GROUP BY region, bucket_ts ORDER BY region, bucket_ts"@),
                    Read::FleetRibbon { bucket, region } => r@ == "SELECT bucket_ts, sum(t_samples) AS samples, sum(t_up) AS up, groupUniqArrayIf(target_id, t_samples > t_up) AS down_targets FROM ( SELECT toUInt32(toStartOfInterval(minute, INTERVAL "@ + decimal(bucket as nat) + " SECOND)) AS bucket_ts, target_id, countMerge(total_checks) AS t_samples, countIfMerge(up_checks) AS t_up FROM check_results_1m WHERE "@ + "org_id = ?"@ + (" "@ + one_region(region) + " AND minute >= fromUnixTimestamp(?) AND minute < fromUnixTimestamp(?) GROUP BY bucket_ts, target_id ) GROUP BY bucket_ts ORDER BY bucket_ts"@),
                    Read::PriorPeriod { source, region } => r@ == "SELECT countMerge(total_checks) AS samples, countIfMerge(up_checks) AS up, avgMerge(avg_duration_ms) AS avg_ms FROM "@ + table(source) + " WHERE "@ + "org_id = ?"@ + (" "@ + one_region(region) + " AND "@ + column(source) + " >= fromUnixTimestamp(?) AND "@ + column(source) + " < fromUnixTimestamp(?)"@),
                    Read::HeartbeatOutput => r@ == "SELECT body FROM heartbeat_pings WHERE "@ + "org_id = ?"@ + " AND target_id = ? AND signal = 'fail' AND received_at = fromUnixTimestamp(?) LIMIT 1"@,
                    Read::FlowRuns { region, limit } => r@ == "SELECT timestamp, region, status, duration_ms, stopped_step, error, step_op, step_outcome, step_ms, final_url, title, text_snippet, console_level, console_text, evidence_expired FROM (SELECT timestamp, region, status, duration_ms, stopped_step, error, step_op, step_outcome, step_ms, final_url, title, text_snippet, console_level, console_text, timestamp < now() - toIntervalDay(evidence_days) AS evidence_expired FROM flow_runs WHERE "@ + "org_id = ?"@ + (" AND target_id = ? AND timestamp >= fromUnixTimestamp(?) AND timestamp < fromUnixTimestamp(?) "@ + in_region(region) + " ORDER BY timestamp DESC LIMIT "@ + decimal(limit as nat) + " UNION DISTINCT SELECT timestamp, region, status, duration_ms, stopped_step, error, step_op, step_outcome, step_ms, final_url, title, text_snippet, console_level, console_text, timestamp < now() - toIntervalDay(evidence_days) AS evidence_expired FROM flow_runs WHERE "@ + "org_id = ?"@ + " AND target_id = ? AND timestamp >= fromUnixTimestamp(?) AND timestamp < fromUnixTimestamp(?) "@ + in_region(region) + " AND status != 'up' ORDER BY timestamp DESC LIMIT "@ + decimal(limit as nat) + ") ORDER BY timestamp DESC"@),
                    Read::FlowSteps { bucket, region } => r@ == "SELECT toUInt16(idx - 1) AS step, argMax(op, ts) AS op, toUInt32(toStartOfInterval(ts, INTERVAL "@ + decimal(bucket as nat) + " SECOND)) AS bucket_ts, avgIf(ms, outcome = 'passed') AS avg_ms, countIf(outcome = 'passed') AS samples, countIf(outcome = 'failed') AS failed FROM (SELECT timestamp AS ts, arrayJoin(arrayEnumerate(step_ms)) AS idx, step_op[idx] AS op, step_outcome[idx] AS outcome, step_ms[idx] AS ms FROM flow_runs WHERE "@ + "org_id = ?"@ + (" AND target_id = ? "@ + one_region(region) + " AND timestamp >= fromUnixTimestamp(?) AND timestamp < fromUnixTimestamp(?)) WHERE outcome != 'skipped' GROUP BY step, bucket_ts ORDER BY step, bucket_ts"@),
                }
            }),
    {
        let mut s = self.head_str();
        s.append("org_id = ?");
        let tail = self.tail_str();
        s.append(tail.as_str());
        s
    }
}

proof fn lemma_holds_middle(a: Seq<char>, b: Seq<char>, c: Seq<char>)
    ensures
        has_substring(a + b + c, b),
{
    let s = a + b + c;
    let i = a.len() as int;
    assert(s.skip(i) =~= b + c);
    assert((b + c).take(b.len() as int) =~= b);
    assert(has_prefix(s.skip(i), b));
}

/// Every read holds the condition on the org, and the read of flow runs, which unites two
/// selections, holds it in the second one too.
pub proof fn law_every_read_is_org_scoped(read: Read)
    ensures
        read.text() == read.head() + "org_id = ?"@ + read.tail(),
        has_substring(read.text(), "org_id = ?"@),
        read matches Read::FlowRuns { .. } ==> has_substring(read.tail(), "org_id = ?"@),
{
    lemma_holds_middle(read.head(), "org_id = ?"@, read.tail());
    if let Read::FlowRuns { region, limit } = read {
        let org = "org_id = ?"@;
        let first = " AND target_id = ? AND timestamp >= fromUnixTimestamp(?) AND timestamp < fromUnixTimestamp(?) "@
            + region_tail(region) + " ORDER BY timestamp DESC LIMIT "@ + decimal(limit as nat)
            + " UNION DISTINCT SELECT timestamp, region, status, duration_ms, stopped_step, error, step_op, step_outcome, step_ms, final_url, title, text_snippet, console_level, console_text, timestamp < now() - toIntervalDay(evidence_days) AS evidence_expired FROM flow_runs WHERE "@;
        let rest = " AND target_id = ? AND timestamp >= fromUnixTimestamp(?) AND timestamp < fromUnixTimestamp(?) "@
            + region_tail(region) + " AND status != 'up' ORDER BY timestamp DESC LIMIT "@
            + decimal(limit as nat) + ") ORDER BY timestamp DESC"@;
        assert(read.tail() =~= first + org + rest);
        lemma_holds_middle(first, org, rest);
    }
}

/// The statement that counts every surviving row of an org in a table.
pub open spec fn count_text(table: Seq<char>) -> Seq<char> {
    "SELECT count() AS n FROM "@ + table + " WHERE org_id = ?"@
}

/// The statement that counts every surviving row of an org in a table.
pub fn count_org_rows_sql(table: &str) -> (r: String)
    ensures
        r@ == count_text(table@),
        r@ == "SELECT count() AS n FROM "@ + table@ + " WHERE org_id = ?"@,
{
    let mut s = owned("SELECT count() AS n FROM ");
    s.append(table);
    s.append(" WHERE org_id = ?");
    s
}

/// Pairs of an org and a target as a list of tuples.
pub open spec fn pairs_text(pairs: Seq<(OrgId, u128)>) -> Seq<char>
    decreases pairs.len(),
{
    if pairs.len() == 0 {
        Seq::empty()
    } else {
        let front = pairs_text(pairs.drop_last());
        let last = "('"@ + uuid_text(pairs.last().0.0) + "','"@ + uuid_text(pairs.last().1) + "')"@;
        if pairs.len() == 1 {
            last
        } else {
            front + ","@ + last
        }
    }
}

fn pairs_str(pairs: &Vec<(OrgId, u128)>) -> (r: String)
    ensures
        r@ == pairs_text(pairs@),
{
    let mut s = String::new();
    let mut i: usize = 0;
    assert(pairs@.take(0) =~= Seq::<(OrgId, u128)>::empty());
    while i < pairs.len()
        invariant
            i <= pairs@.len(),
            s@ == pairs_text(pairs@.take(i as int)),
        decreases pairs.len() - i,
    {
        let ghost before = s@;
        assert(pairs@.take(i + 1).drop_last() =~= pairs@.take(i as int));
        let mut last = owned("('");
        let org_text = uuid_string(pairs[i].0.0);
        last.append(org_text.as_str());
        last.append("','");
        let target_text = uuid_string(pairs[i].1);
        last.append(target_text.as_str());
        last.append("')");
        if i > 0 {
            s.append(",");
        }
        s.append(last.as_str());
        i += 1;
        proof {
            if i == 1 {
                assert(s@ =~= last@);
            }
        }
    }
    assert(pairs@.take(i as int) =~= pairs@);
    s
}

/// The statement that reads the newest results of many targets, at most `limit` per target
/// and region.
pub open spec fn recent_text(pairs: Seq<(OrgId, u128)>, limit: u64) -> Seq<char> {
    "SELECT org_id, region, target_id, timestamp, status, duration_ms, dns_ms, connect_ms, tls_ms, ttfb_ms, response_code, response_size, error FROM check_results WHERE (org_id, target_id) IN ("@
        + pairs_text(pairs)
        + ") AND timestamp >= fromUnixTimestamp(?) AND timestamp < fromUnixTimestamp(?) ORDER BY target_id, region, timestamp DESC LIMIT "@
        + decimal(limit as nat) + " BY target_id, region"@
}

/// The statement that reads the newest results of many targets, or `None` where there are
/// no targets to read.
pub fn recent_results_sql(targets: &Vec<(OrgId, u128)>, limit: u64) -> (r: Option<String>)
    ensures
        match r {
            None => targets@.len() == 0,
            Some(s) => targets@.len() > 0 && s@ == recent_text(targets@, limit),
        },
        r matches Some(s) ==> s@
            == "SELECT org_id, region, target_id, timestamp, status, duration_ms, dns_ms, connect_ms, tls_ms, ttfb_ms, response_code, response_size, error FROM check_results WHERE (org_id, target_id) IN ("@
            + pairs_text(targets@)
            + ") AND timestamp >= fromUnixTimestamp(?) AND timestamp < fromUnixTimestamp(?) ORDER BY target_id, region, timestamp DESC LIMIT "@
            + decimal(limit as nat) + " BY target_id, region"@,
{
    if targets.len() == 0 {
        return None;
    }
    let mut s = owned(
        "SELECT org_id, region, target_id, timestamp, status, duration_ms, dns_ms, connect_ms, tls_ms, ttfb_ms, response_code, response_size, error FROM check_results WHERE (org_id, target_id) IN (",
    );
    let pairs = pairs_str(targets);
    s.append(pairs.as_str());
    s.append(
        ") AND timestamp >= fromUnixTimestamp(?) AND timestamp < fromUnixTimestamp(?) ORDER BY target_id, region, timestamp DESC LIMIT ",
    );
    let limit_text = u64_text(limit);
    s.append(limit_text.as_str());
    s.append(" BY target_id, region");
    Some(s)
}

/// The most raw results that one read returns.
pub fn result_limit(limit: usize) -> (r: u64)
    ensures
        r == (if limit > 10_000 {
            10_000int
        } else {
            limit as int
        }),
{
    if limit > 10_000 {
        10_000
    } else {
        limit as u64
    }
}

/// The most flow runs that one read returns.
pub fn flow_limit(limit: usize) -> (r: u64)
    ensures
        r == (if limit > 500 {
            500int
        } else {
            limit as int
        }),
{
    if limit > 500 {
        500
    } else {
        limit as u64
    }
}

/// The width of a flow's slots: at least a minute.
pub fn flow_bucket(bucket_seconds: u32) -> (r: u32)
    ensures
        r == (if bucket_seconds < 60 {
            60int
        } else {
            bucket_seconds as int
        }),
{
    if bucket_seconds < 60 {
        60
    } else {
        bucket_seconds
    }
}

/// A list of pairs grows by a comma and the pair's tuple; the org comes first in each.
pub proof fn law_pairs_are_listed_in_order(pairs: Seq<(OrgId, u128)>, org: OrgId, target: u128)
    ensures
        pairs_text(seq![(org, target)]) == "('"@ + uuid_text(org.0) + "','"@ + uuid_text(target)
            + "')"@,
        pairs.len() > 0 ==> pairs_text(pairs.push((org, target))) == pairs_text(pairs) + ","@ + (
        "('"@ + uuid_text(org.0) + "','"@ + uuid_text(target) + "')"@),
{
    assert(pairs.push((org, target)).drop_last() =~= pairs);
}

/// The reads of counts by time go to the minute rollup for as long as it is kept, thirty days,
/// and to the hour rollup for what is older: moving the start back never goes from the hour
/// rollup to the minute rollup.
pub proof fn law_older_ranges_read_the_hour_rollup(from: Timestamp, later: Timestamp, now: Timestamp)
    requires
        from.nanos <= later.nanos,
    ensures
        source_of(from, now) == Rollup::Minute ==> source_of(later, now) == Rollup::Minute,
        source_of(now, now) == Rollup::Minute,
        now.nanos - from.nanos == 2_592_000_000_000_000 ==> source_of(from, now)
            == Rollup::Minute,
        now.nanos - from.nanos == 2_592_000_000_000_001 ==> source_of(from, now) == Rollup::Hour,
{
}

} // verus!
