//! Check results in memory, ranges, and the rows of the results database.

use chrono::{DateTime, Duration, TimeZone, Utc};
use status_monitor::domain::{CheckResult, CheckStatus};
use status_monitor::ids::OrgId;
use status_monitor::storage::clickhouse::rows::{
    batch_orgs, batch_rows, breakdown_of, count_fleet_outages, failure_output, fold_series,
    fold_trends, from_unix_secs, id_from_halves, last_minute, prior_window, row_to_result,
    slot_millis, to_unix_secs, CheckResultRow, ConsoleLine, FlowEvidence, FlowRunRecord,
    FlowRunRow, FlowRunView, FlowStepBucket, HeartbeatPingRecord, HeartbeatPingRow,
    MultiResultRow, OwnedResultRow, RegionLatencyRow, RegionResultRow, StepOutcome, StepRow,
    StepTrace, StoredFlowRunRow, VerdictRow,
};
use status_monitor::storage::heartbeats::PingSignal;
use status_monitor::storage::memory::sink::{
    count_outages, percentile, FleetSummary, InMemorySink, LatencyBucket,
};
use status_monitor::storage::org_ttl::{OrgTtlDays, RetentionDays};
use status_monitor::storage::traits::{
    rollup_bucket_secs, ClampedRange, RegionOption, ResultSink, TimeRange, UptimeStats,
};
use status_monitor::time::{floor_div, trunc_div, Timestamp, MAX_SECS, MIN_SECS};

fn ts(t: DateTime<Utc>) -> Timestamp {
    Timestamp::from_parts(t.timestamp(), t.timestamp_subsec_nanos())
}

fn at(y: i32, m: u32, d: u32) -> DateTime<Utc> {
    Utc.with_ymd_and_hms(y, m, d, 0, 0, 0).unwrap()
}

#[test]
fn for_window_narrows_out_of_window_from() {
    let now = at(2026, 5, 1);
    let r = ClampedRange::for_window(
        TimeRange {
            from: ts(now - Duration::try_days(60).unwrap()),
            to: ts(now),
        },
        30,
        ts(now),
    )
    .inner();
    assert_eq!(r.from, ts(now - Duration::try_days(30).unwrap()));
    assert_eq!(r.to, ts(now));
}

#[test]
fn for_window_leaves_in_window_from() {
    let now = at(2026, 5, 1);
    let from = ts(now - Duration::try_days(7).unwrap());
    let r = ClampedRange::for_window(TimeRange { from, to: ts(now) }, 30, ts(now)).inner();
    assert_eq!(r.from, from);
}

#[test]
fn unclamped_preserves_range() {
    let now = at(2026, 5, 1);
    let from = ts(now - Duration::try_days(400).unwrap());
    let r = ClampedRange::unclamped(TimeRange { from, to: ts(now) }).inner();
    assert_eq!(r.from, from);
}

fn up_result(target: u128, base: DateTime<Utc>, offset_s: i64, dur: u32, dns: u16) -> CheckResult {
    CheckResult {
        target_id: target,
        org_id: 0,
        timestamp: ts(base + Duration::seconds(offset_s)),
        status: CheckStatus::Up,
        duration_ms: dur,
        dns_ms: Some(dns),
        connect_ms: Some(10),
        tls_ms: None, // a phase that no sample measured
        ttfb_ms: Some(20),
        response_code: Some(200),
        response_size: None,
        error: None,
    }
}

fn verdict(target: u128, secs: i64, status: CheckStatus, dur: u32) -> CheckResult {
    let mut r = up_result(target, at(2026, 5, 1), secs, dur, 1);
    r.status = status;
    r
}

fn whole_day() -> TimeRange {
    TimeRange { from: ts(at(2026, 5, 1)), to: ts(at(2026, 5, 2)) }
}

#[test]
fn latency_buckets_aggregate_per_slice_and_skip_null_phases() {
    let mut store = InMemorySink::new();
    let t: u128 = 1;
    let base = at(2026, 5, 1);
    // Two samples in slice 0 (0s, 30s), one in slice 1 (60s).
    store
        .write_batch(&vec![
            up_result(t, base, 0, 100, 10),
            up_result(t, base, 30, 200, 30),
            up_result(t, base, 60, 300, 50),
        ])
        .unwrap();
    let range = TimeRange {
        from: ts(base),
        to: ts(base + Duration::seconds(120)),
    };
    let buckets = store.latency_buckets(OrgId(0), t, ClampedRange::unclamped(range), 60);

    assert_eq!(buckets.len(), 2);
    let b0 = &buckets[0];
    assert_eq!(b0.t, (base.timestamp() * 1000) as i128, "t is unix-millis");
    assert_eq!(b0.samples, 2);
    assert_eq!(b0.avg, 150); // (100+200)/2
    assert_eq!(b0.dns, 20); // (10+30)/2
    assert_eq!(b0.tls, 0); // every sample NULL: skipped, finalises to 0
    assert_eq!(buckets[1].samples, 1);
    assert_eq!(buckets[1].p50, 300);
}

#[test]
fn latency_buckets_isolate_target_and_window() {
    let mut store = InMemorySink::new();
    let t: u128 = 1;
    let base = at(2026, 5, 1);
    store
        .write_batch(&vec![
            up_result(t, base, 0, 100, 10),
            up_result(2, base, 0, 100, 10),    // other target
            up_result(t, base, -120, 100, 10), // before window
        ])
        .unwrap();
    let range = TimeRange {
        from: ts(base),
        to: ts(base + Duration::seconds(60)),
    };
    let buckets = store.latency_buckets(OrgId(0), t, ClampedRange::unclamped(range), 60);
    assert_eq!(buckets.len(), 1);
    assert_eq!(buckets[0].samples, 1);
}

#[test]
fn results_page_newest_first() {
    let mut store = InMemorySink::new();
    assert!(store.is_empty());
    let base = at(2026, 5, 1);
    let rows: Vec<CheckResult> = (0..5).map(|i| up_result(1, base, i * 10, i as u32, 1)).collect();
    store.write_batch(&rows).unwrap();
    assert_eq!(store.len(), 5);
    assert_eq!(store.snapshot().len(), 5);
    let range = ClampedRange::unclamped(whole_day());
    let page = store.list_results(OrgId(0), 1, range, 2, 1);
    let durations: Vec<u32> = page.iter().map(|r| r.duration_ms).collect();
    assert_eq!(durations, vec![3, 2]);
    let oldest: Vec<u32> =
        store.rows_for_target(1, whole_day()).iter().map(|r| r.duration_ms).collect();
    assert_eq!(oldest, vec![0, 1, 2, 3, 4]);
}

#[test]
fn a_range_holds_its_start_and_not_its_end() {
    let r = whole_day();
    assert!(r.contains(r.from));
    assert!(!r.contains(r.to));
}

#[test]
fn uptime_counts_each_verdict() {
    let rows = vec![
        verdict(1, 0, CheckStatus::Up, 1),
        verdict(1, 1, CheckStatus::Up, 1),
        verdict(1, 2, CheckStatus::Down, 1),
        verdict(1, 3, CheckStatus::Degraded, 1),
        verdict(1, 4, CheckStatus::Error, 1),
    ];
    let s = UptimeStats::from_results(&rows);
    assert_eq!((s.total, s.up, s.down, s.degraded, s.error), (5, 2, 1, 1, 1));
    let mut store = InMemorySink::new();
    store.write_batch(&rows).unwrap();
    let same = store.uptime(OrgId(0), 1, ClampedRange::unclamped(whole_day()));
    assert_eq!(same.total, 5);
    assert_eq!(same.up, 2);
    assert_eq!(store.uptime(OrgId(0), 2, ClampedRange::unclamped(whole_day())).total, 0);
}

#[test]
fn the_breakdown_takes_each_targets_latest() {
    let mut store = InMemorySink::new();
    store
        .write_batch(&vec![
            verdict(1, 0, CheckStatus::Down, 1),
            verdict(1, 9, CheckStatus::Up, 1),
            verdict(2, 5, CheckStatus::Error, 1),
            verdict(3, 5, CheckStatus::Degraded, 1),
        ])
        .unwrap();
    let b = store.current_status_breakdown(OrgId(0), whole_day());
    assert_eq!((b.up, b.down, b.degraded, b.error), (1, 0, 1, 1));
    assert_eq!(breakdown_of(&vec![1, 1, 2, 3, 4, 99]).up, 2);
}

#[test]
fn the_dashboard_rolls_up_per_target() {
    let mut store = InMemorySink::new();
    store
        .write_batch(&vec![
            verdict(7, 60, CheckStatus::Up, 100),
            verdict(7, 120, CheckStatus::Down, 300),
            verdict(9, 0, CheckStatus::Up, 50),
        ])
        .unwrap();
    let rows = store.dashboard_rollup(OrgId(0), whole_day());
    assert_eq!(rows.len(), 2);
    assert_eq!(rows[0].target_id, 7);
    assert_eq!((rows[0].samples, rows[0].up, rows[0].avg_ms), (2, 1, 200));
    assert_eq!((rows[0].p50_ms, rows[0].p95_ms), (100, 300));
    assert_eq!(rows[0].last_status, CheckStatus::Down);
    assert_eq!(rows[0].last_minute_ts, at(2026, 5, 1).timestamp() + 120);
    let next_day = TimeRange { from: ts(at(2026, 5, 2)), to: ts(at(2026, 5, 3)) };
    let prior = store.prior_period_summary(OrgId(0), next_day);
    assert_eq!((prior.checks_total, prior.checks_up, prior.avg_ms), (3, 2, 150));
}

#[test]
fn ribbons_and_sparklines_fall_into_slots() {
    let mut store = InMemorySink::new();
    store
        .write_batch(&vec![
            verdict(7, 0, CheckStatus::Up, 100),
            verdict(7, 59, CheckStatus::Down, 300),
            verdict(7, 3_600, CheckStatus::Up, 10),
        ])
        .unwrap();
    let day = whole_day();
    let ribbon = store.fleet_ribbon(OrgId(0), day.from, day.to, 60);
    assert_eq!(ribbon.len(), 2);
    assert_eq!((ribbon[0].samples, ribbon[0].up), (2, 1));
    assert_eq!(ribbon[1].bucket_ts, day.from.timestamp() + 3_600);
    let spark = store.dashboard_sparkline(OrgId(0), day.from, day.to);
    assert_eq!(spark.len(), 2);
    assert_eq!((spark[0].sum_ms, spark[0].checks), (400, 2));
}

#[test]
fn outages_are_runs_of_failures() {
    let rows = vec![
        verdict(1, 0, CheckStatus::Up, 1),
        verdict(1, 1, CheckStatus::Down, 1),
        verdict(1, 2, CheckStatus::Error, 1),
        verdict(1, 3, CheckStatus::Up, 1),
        verdict(1, 4, CheckStatus::Down, 1),
    ];
    assert_eq!(count_outages(&rows), 2);
    let mut store = InMemorySink::new();
    store.write_batch(&rows).unwrap();
    let s: FleetSummary = store.last_n_summary(OrgId(0), whole_day());
    assert_eq!((s.checks_total, s.checks_up, s.incidents), (5, 2, 2));
    let fleet: Vec<VerdictRow> = [(1u128, 2i8), (1, 1), (2, 2), (2, 4), (3, 1)]
        .iter()
        .map(|(t, s)| VerdictRow { target_id: *t, status: *s })
        .collect();
    assert_eq!(count_fleet_outages(&fleet), 2);
}

#[test]
fn percentiles_take_the_nearest_rank() {
    let v: Vec<u32> = (1..=100).collect();
    assert_eq!(percentile(&v, 50), 50);
    assert_eq!(percentile(&v, 95), 95);
    assert_eq!(percentile(&v, 99), 99);
    assert_eq!(percentile(&vec![7], 50), 7);
    assert_eq!(percentile(&Vec::new(), 50), 0);
    assert_eq!(percentile(&vec![1, 2, 3], 50), 2);
}

#[test]
fn buckets_are_whole_minutes() {
    assert_eq!(rollup_bucket_secs(0), 60);
    assert_eq!(rollup_bucket_secs(59), 60);
    assert_eq!(rollup_bucket_secs(60), 60);
    assert_eq!(rollup_bucket_secs(61), 120);
    assert_eq!(rollup_bucket_secs(150), 180);
}

#[test]
fn a_region_shows_its_name_or_its_id() {
    let mut r = RegionOption {
        id: "eu-1".to_string(),
        name: " Europe ".to_string(),
        city: "Helsinki".to_string(),
        country_code: Some("FI".to_string()),
        continent: None,
    };
    assert_eq!(r.display_name(), "Europe");
    r.name = " ".to_string();
    assert_eq!(r.display_name(), "eu-1");
    r.name = "eu-1".to_string();
    assert_eq!(r.display_name(), "eu-1");
}

#[test]
fn the_calendar_ends_where_chrono_ends() {
    assert_eq!(DateTime::<Utc>::MIN_UTC.timestamp(), MIN_SECS);
    assert_eq!(DateTime::<Utc>::MAX_UTC.timestamp(), MAX_SECS);
    assert_eq!(floor_div(-1, 1_000), -1);
    assert_eq!(floor_div(1_999, 1_000), 1);
    assert_eq!(trunc_div(-1_999, 1_000), -1);
    let t = ts(at(1969, 12, 31) + Duration::milliseconds(86_399_999));
    assert_eq!(t.timestamp(), -1);
    assert_eq!(t.timestamp_millis(), -1);
}

#[test]
fn the_clock_reads_now() {
    let before = ts(Utc::now());
    let read = status_monitor::time::now();
    let after = ts(Utc::now());
    assert!(before <= read && read <= after);
}

/// A page the background merge has not yet emptied, past its window.
fn stored_run(evidence_expired: u8, stopped_step: Option<u16>) -> StoredFlowRunRow {
    StoredFlowRunRow {
        timestamp: 1_700_000_000,
        region: "eu-helsinki".into(),
        status: 2,
        duration_ms: 3_100,
        stopped_step,
        error: "step 2/2 assert_url: url does not contain \"/secure\"".into(),
        step_op: vec!["fill".into(), "assert_url".into()],
        step_outcome: vec![1, 2],
        step_ms: vec![40, 10_000],
        final_url: "https://app.example.com/login".into(),
        title: "Sign in".into(),
        text_snippet: "Your password is invalid!".into(),
        console_level: Vec::new(),
        console_text: Vec::new(),
        evidence_expired,
    }
}

#[test]
fn a_page_past_its_window_is_dropped_even_before_the_merge_empties_it() {
    let view = FlowRunView::from(stored_run(1, Some(1)));
    assert!(view.evidence.is_none());
    assert!(view.evidence_expired);
    assert_eq!(view.steps.len(), 2, "the trace outlives the page");
}

#[test]
fn a_page_inside_its_window_is_returned() {
    let view = FlowRunView::from(stored_run(0, Some(1)));
    let evidence = view.evidence.expect("still inside the window");
    assert_eq!(
        evidence.text_snippet.as_deref(),
        Some("Your password is invalid!")
    );
    assert!(!view.evidence_expired);
}

#[test]
fn a_run_that_never_reached_a_step_lost_no_page() {
    assert!(!FlowRunView::from(stored_run(1, None)).evidence_expired);
}

fn ttl() -> RetentionDays {
    RetentionDays { row: 30, evidence: 7 }
}

#[test]
fn a_flow_run_reads_back_from_its_row() {
    let record = FlowRunRecord {
        org_id: 1,
        target_id: 2,
        timestamp: Timestamp::from_secs(1_700_000_000),
        status: CheckStatus::Down,
        duration_ms: 12,
        error: Some("boom".to_string()),
        steps: vec![
            StepTrace { op: "goto".to_string(), outcome: StepOutcome::Passed, duration_ms: 5 },
            StepTrace { op: "click".to_string(), outcome: StepOutcome::Failed, duration_ms: 7 },
            StepTrace { op: "fill".to_string(), outcome: StepOutcome::Skipped, duration_ms: 0 },
        ],
        evidence: Some(FlowEvidence {
            final_url: Some("https://x".to_string()),
            title: None,
            text_snippet: None,
            console: vec![ConsoleLine { level: "error".to_string(), text: "no".to_string() }],
        }),
    };
    let row = FlowRunRow::from_record(&record, "eu", ttl());
    assert_eq!(row.stopped_step, Some(1));
    assert_eq!((row.evidence_days, row.ttl_days), (7, 30));
    assert_eq!(row.step_outcome.len(), 3);
    let view = FlowRunView::from(StoredFlowRunRow {
        timestamp: row.timestamp,
        region: row.region,
        status: row.status,
        duration_ms: row.duration_ms,
        stopped_step: row.stopped_step,
        error: row.error,
        step_op: row.step_op,
        step_outcome: row.step_outcome,
        step_ms: row.step_ms,
        final_url: row.final_url,
        title: row.title,
        text_snippet: row.text_snippet,
        console_level: row.console_level,
        console_text: row.console_text,
        evidence_expired: 0,
    });
    assert_eq!(view.timestamp, record.timestamp);
    assert_eq!(view.error.as_deref(), Some("boom"));
    assert_eq!(view.steps[1].outcome, StepOutcome::Failed);
    let evidence = view.evidence.unwrap();
    assert_eq!(evidence.final_url.as_deref(), Some("https://x"));
    assert_eq!(evidence.title, None);
    assert_eq!(evidence.console[0].text, "no");
}

fn owned_row(status: i8) -> OwnedResultRow {
    OwnedResultRow {
        target_id: 5,
        timestamp: 1_700_000_000,
        status,
        duration_ms: 9,
        dns_ms: None,
        connect_ms: Some(1),
        tls_ms: None,
        ttfb_ms: None,
        response_code: Some(500),
        response_size: None,
        error: Some("x".to_string()),
    }
}

#[test]
fn a_result_reads_back_from_its_row() {
    let r = row_to_result(owned_row(2), 77);
    assert_eq!((r.org_id, r.target_id, r.status), (77, 5, CheckStatus::Down));
    let row = CheckResultRow::from_result(&r, "eu", "agent", 30);
    assert_eq!((row.status, row.timestamp, row.ttl_days), (2, 1_700_000_000, 30));
    assert_eq!(row.error, Some("x"));
    let (region, same) =
        RegionResultRow { region: "us".to_string(), result: owned_row(1) }.split(78);
    assert_eq!((region.as_str(), same.org_id, same.status), ("us", 78, CheckStatus::Up));
    let (region, same) =
        MultiResultRow { org_id: 79, region: "ap".to_string(), result: owned_row(3) }.split();
    assert_eq!((region.as_str(), same.org_id, same.status), ("ap", 79, CheckStatus::Degraded));
}

#[test]
fn a_batch_carries_each_orgs_retention() {
    let mut a = row_to_result(owned_row(1), 1);
    a.org_id = 1;
    let b = row_to_result(owned_row(1), 2);
    let c = row_to_result(owned_row(1), 1);
    let results = vec![a, b, c];
    assert_eq!(batch_orgs(&results), vec![1, 2, 1]);
    let mut days = OrgTtlDays::new();
    days.replace(&vec![(2, RetentionDays { row: 365, evidence: 14 })]);
    let each = days.days_for_each(&batch_orgs(&results));
    let rows = batch_rows(&results, &each, "eu", "agent");
    let ttls: Vec<u16> = rows.iter().map(|r| r.ttl_days).collect();
    assert_eq!(ttls, vec![30, 365, 30]);
}

#[test]
fn instants_store_within_32_bits() {
    assert_eq!(to_unix_secs(Timestamp::from_secs(-5)), 0);
    assert_eq!(to_unix_secs(Timestamp::from_secs(5)), 5);
    assert_eq!(from_unix_secs(5), Timestamp::from_secs(5));
    assert_eq!(to_unix_secs(Timestamp::from_secs(1 << 40)), u32::MAX);
}

#[test]
fn a_ping_row_carries_its_body_and_its_windows() {
    let rec = HeartbeatPingRecord {
        org_id: 1,
        target_id: 2,
        received_at: Timestamp::from_secs(60),
        signal: PingSignal::Fail,
        exit_code: Some(3),
        duration_ms: None,
        body: "trace".to_string(),
    };
    let row = HeartbeatPingRow::from_record(&rec, ttl());
    assert_eq!((row.signal, row.exit_code, row.body), (3, Some(3), "trace"));
    assert_eq!((row.evidence_days, row.ttl_days), (7, 30));
    assert_eq!(failure_output(&vec!["first".to_string()]).as_deref(), Some("first"));
    assert_eq!(failure_output(&vec![String::new()]), None);
    assert_eq!(failure_output(&Vec::new()), None);
}

fn bucket(t: i128) -> LatencyBucket {
    LatencyBucket {
        t,
        p50: 1,
        p95: 1,
        p99: 1,
        avg: 1,
        dns: 0,
        connect: 0,
        tls: 0,
        ttfb: 0,
        samples: 1,
    }
}

#[test]
fn series_fold_by_region_and_trends_by_step() {
    let rows = vec![
        RegionLatencyRow { region: "a".to_string(), bucket: bucket(1) },
        RegionLatencyRow { region: "a".to_string(), bucket: bucket(2) },
        RegionLatencyRow { region: "b".to_string(), bucket: bucket(3) },
    ];
    let series = fold_series(rows);
    assert_eq!(series.len(), 2);
    assert_eq!(series[0].region, "a");
    assert_eq!(series[0].buckets.len(), 2);
    assert_eq!(series[1].buckets[0].t, 3);

    let step = |step: u16, op: &str, t: i64| StepRow {
        step,
        op: op.to_string(),
        bucket: FlowStepBucket { t, avg: None, samples: 1, failed: 0 },
    };
    let trends = fold_trends(vec![step(0, "goto", 1), step(0, "goto", 2), step(1, "click", 1)]);
    assert_eq!(trends.len(), 2);
    assert_eq!((trends[0].step, trends[0].buckets.len()), (0, 2));
    assert_eq!(trends[1].op, "click");
}

#[test]
fn small_conversions() {
    assert_eq!(slot_millis(60), 60_000);
    assert_eq!(id_from_halves(1, 2), (1u128 << 64) + 2);
    assert_eq!(last_minute(0), None);
    assert_eq!(last_minute(60), Some(60));
    let day = whole_day();
    let prior = prior_window(day);
    assert_eq!(prior.to, day.from);
    assert_eq!(prior.from, ts(at(2026, 4, 30)));
}
