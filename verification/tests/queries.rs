//! The results database: its client and the statements it is sent.

use status_monitor::ids::OrgId;
use status_monitor::storage::clickhouse::client::{
    build_client, ClickhouseConfig, ClickhouseResultsStore,
};
use status_monitor::storage::clickhouse::queries::{
    count_org_rows_sql, flow_bucket, flow_limit, recent_results_sql, result_limit,
    rollup_source, rollup_source_at, Read, Rollup,
};
use status_monitor::time::Timestamp;
use uuid::Uuid;

fn config(async_insert: bool) -> ClickhouseConfig {
    ClickhouseConfig {
        url: "http://ch.test:8123".into(),
        database: "metrics".into(),
        user: "writer".into(),
        password: "pw".into(),
        async_insert,
    }
}

#[test]
fn a_client_carries_its_configuration() {
    let store = ClickhouseResultsStore::from_client(build_client(&config(true)));
    assert_eq!(store.client().get_setting("async_insert"), Some("1"));
    assert_eq!(store.client().database(), Some("metrics"));
    assert!(format!("{:?}", store.client()).contains("http://ch.test:8123"));
    let plain = build_client(&config(false));
    assert_eq!(plain.get_setting("async_insert"), None);
}

fn reads() -> Vec<Read> {
    vec![
        Read::Results { region: true },
        Read::ResultsByRegion,
        Read::FailuresByRegion { region: false },
        Read::StatusBreakdown { region: true },
        Read::SummaryCounts { source: Rollup::Minute, region: false },
        Read::SummaryRows { region: true },
        Read::Uptime { source: Rollup::Hour, region: true },
        Read::DashboardRollup { source: Rollup::Minute, region: true },
        Read::Sparkline { region: false },
        Read::LatencyBuckets { source: Rollup::Minute, bucket: 60, region: true },
        Read::AvailabilityBuckets { source: Rollup::Hour, bucket: 3_600, region: true },
        Read::RegionBreakdown,
        Read::LatencyByRegion { source: Rollup::Minute, bucket: 60 },
        Read::FleetRibbon { bucket: 120, region: true },
        Read::PriorPeriod { source: Rollup::Minute, region: false },
        Read::HeartbeatOutput,
        Read::FlowRuns { region: true, limit: 20 },
        Read::FlowSteps { bucket: 300, region: true },
    ]
}

#[test]
fn every_read_names_its_org() {
    for r in reads() {
        let sql = r.sql();
        assert!(sql.contains("org_id = ?"), "{sql}");
    }
}

#[test]
fn a_region_adds_its_predicate() {
    let with = Read::Results { region: true }.sql();
    let without = Read::Results { region: false }.sql();
    assert!(with.contains("region = ?"));
    assert!(!without.contains("region = ?"));
    assert!(Read::LatencyBuckets { source: Rollup::Minute, bucket: 180, region: false }
        .sql()
        .contains("180"));
    assert!(Read::FlowRuns { region: false, limit: 20 }.sql().contains("LIMIT 20"));
}

#[test]
fn both_branches_of_the_flow_runs_name_the_org() {
    let sql = Read::FlowRuns { region: true, limit: 20 }.sql();
    let branches: Vec<&str> = sql.split(" UNION DISTINCT ").collect();
    assert_eq!(branches.len(), 2);
    assert!(branches.iter().all(|b| b.contains("FROM flow_runs WHERE org_id = ? AND")));
}

#[test]
fn old_ranges_read_the_hourly_rollup() {
    let now = Timestamp::from_secs(1_700_000_000);
    assert_eq!(rollup_source_at(now.plus_secs(-86_400), now), Rollup::Minute);
    assert_eq!(rollup_source_at(now.plus_secs(-40 * 86_400), now), Rollup::Hour);
    assert_eq!(rollup_source(Timestamp::from_secs(0)), Rollup::Hour);
    assert_ne!(Rollup::Minute.table_str(), Rollup::Hour.table_str());
    assert_ne!(Rollup::Minute.column_str(), Rollup::Hour.column_str());
}

#[test]
fn recent_results_list_their_pairs() {
    assert_eq!(recent_results_sql(&Vec::new(), 5), None);
    let sql = recent_results_sql(&vec![(OrgId(1), 2), (OrgId(3), 4)], 5).unwrap();
    for id in [1u128, 2, 3, 4] {
        assert!(sql.contains(&Uuid::from_u128(id).to_string()), "{sql}");
    }
    assert!(sql.contains("LIMIT 5"));
    assert!(count_org_rows_sql("check_results").contains("check_results"));
}

#[test]
fn limits_are_clamped() {
    assert_eq!(result_limit(usize::MAX), 10_000);
    assert_eq!(result_limit(0), 0);
    assert_eq!(flow_limit(501), 500);
    assert_eq!(flow_limit(20), 20);
    assert_eq!(flow_bucket(0), 60);
    assert_eq!(flow_bucket(300), 300);
}
