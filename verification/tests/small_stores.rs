//! Silence episodes, page assets, domain expiry, retention, disposable domains, partitions
//! and the keyed table beneath some of them.

use status_monitor::ids::{OrgId, StatusPageId};
use status_monitor::storage::admin::{
    region_pull_etag, walk_limit, PublicTargetCursor, MAX_PAGE,
};
use status_monitor::storage::disposable_domains::{chunks, CHUNK};
use status_monitor::storage::domain_expiry_state::InMemoryDomainExpiryStateStore;
use status_monitor::storage::org_ttl::{
    OrgTtlDays, RetentionDays, DEFAULT_EVIDENCE_DAYS, DEFAULT_ROW_DAYS,
};
use status_monitor::storage::page_assets::{content_hash, AssetSlot, InMemoryPageAssetStore};
use status_monitor::storage::partitions::{default_partition_sql, partitioned_tables};
use status_monitor::storage::silence::InMemorySilenceStore;
use status_monitor::table::Table;
use status_monitor::time::Timestamp;

fn t0() -> Timestamp {
    Timestamp::from_secs(1_700_000_000)
}

#[test]
fn a_silence_opens_once_and_resolves_once() {
    let mut store = InMemorySilenceStore::new();
    store.set_unmonitored(vec![(OrgId(1), 10), (OrgId(2), 20)]);
    store.set_total(7);
    assert_eq!(store.enabled_target_count(), 7);
    assert_eq!(store.unmonitored(60).len(), 2);
    assert!(store.live_regions(60).is_empty());

    store.enter(OrgId(1), 10);
    store.mark_notified(OrgId(1), 10);
    store.enter(OrgId(1), 10);
    let open = store.list_open();
    assert_eq!(open.len(), 1);
    assert!(open[0].notified, "a second enter keeps the episode");
    store.enter(OrgId(2), 20);
    assert_eq!(store.open_target_ids_of(OrgId(2)), vec![20]);
    assert_eq!(store.open_target_ids().len(), 2);

    assert!(store.resolve(OrgId(1), 10));
    assert!(!store.resolve(OrgId(1), 10));
    assert_eq!(store.resolved_target_ids(), vec![10]);
}

#[test]
fn an_asset_reads_back_with_its_digest() {
    let mut store = InMemoryPageAssetStore::new();
    let page = StatusPageId(1);
    let meta = store.put(
        OrgId(1),
        page,
        AssetSlot::Logo,
        "image/png",
        &b"abc".to_vec(),
        "{}".to_string(),
        None,
    );
    assert_eq!(meta.byte_size, 3);
    assert_eq!(
        meta.content_hash,
        "ba7816bf8f01cfea414140de5dae2223b00361a396177a9cb410ff61f20015ad"
    );
    assert_eq!(meta.content_hash, content_hash(b"abc"));
    let read = store.get(page, AssetSlot::Logo).unwrap();
    assert_eq!(read.bytes, b"abc");
    assert_eq!(read.content_type, "image/png");
    assert!(store.get(page, AssetSlot::Favicon).is_none());
    assert!(store.get(StatusPageId(2), AssetSlot::Logo).is_none());
    assert_eq!(store.get_meta(OrgId(1), page, AssetSlot::Logo).unwrap().metadata, "{}");
    assert!(store.delete(OrgId(1), page, AssetSlot::Logo, None));
    assert!(!store.delete(OrgId(1), page, AssetSlot::Logo, None));
    assert_ne!(AssetSlot::Logo.as_str(), AssetSlot::Css.as_str());
}

#[test]
fn a_failed_lookup_keeps_the_last_good_expiry() {
    let mut store = InMemoryDomainExpiryStateStore::new();
    assert!(store.record_failure_returning_at(OrgId(1), 2, "x", t0()).is_none());
    let expiry = t0().plus_secs(86_400);
    store.upsert_success_at(OrgId(1), 2, "example.com", expiry, Some("reg"), t0());
    let failed = store
        .record_failure_returning_at(OrgId(1), 2, "timeout", t0().plus_secs(5))
        .unwrap();
    assert_eq!(failed.expiry_at, expiry);
    assert_eq!(failed.last_success_at, t0());
    assert_eq!(failed.last_attempt_at, t0().plus_secs(5));
    assert_eq!(failed.last_error.as_deref(), Some("timeout"));
    assert_eq!(failed.attempts, 1);
    store.upsert_success(OrgId(1), 2, "example.com", expiry, None);
    let good = store.get(OrgId(1), 2).unwrap();
    assert_eq!(good.attempts, 0);
    assert_eq!(good.last_error, None);
    assert!(store.record_failure_returning(OrgId(1), 2, "again").is_some());
    assert!(store.get(OrgId(2), 2).is_none());
}

#[test]
fn an_unknown_org_keeps_the_default_retention() {
    let mut days = OrgTtlDays::new();
    days.replace(&vec![(1, RetentionDays { row: 365, evidence: 14 })]);
    let each = days.days_for_each(&vec![1, 2]);
    assert_eq!((each[0].row, each[0].evidence), (365, 14));
    assert_eq!((each[1].row, each[1].evidence), (DEFAULT_ROW_DAYS, DEFAULT_EVIDENCE_DAYS));
    days.replace(&Vec::new());
    assert_eq!(days.days_for_each(&vec![1])[0].row, DEFAULT_ROW_DAYS);
}

#[test]
fn domains_are_written_in_chunks() {
    let all: Vec<String> = (0..CHUNK + 1).map(|i| format!("d{i}.test")).collect();
    let parts = chunks(&all);
    assert_eq!(parts.len(), 2);
    assert_eq!(parts[0].len(), CHUNK);
    assert_eq!(parts[1], vec![format!("d{CHUNK}.test")]);
    assert!(chunks(&Vec::new()).is_empty());
}

#[test]
fn each_partitioned_table_has_a_default() {
    for t in partitioned_tables() {
        assert!(default_partition_sql(t).contains(t));
    }
}

#[test]
fn an_etag_joins_count_instant_and_digest() {
    let t = Timestamp::from_parts(1_700_000_000, 123_456_789);
    assert_eq!(region_pull_etag(3, Some(t), Some("abc")), "\"3-1700000000123-abc\"");
    assert_eq!(region_pull_etag(0, None, None), "\"0-0-\"");
}

#[test]
fn an_etag_changes_with_each_of_its_parts() {
    let t = Timestamp::from_parts(1_700_000_000, 0);
    let later = Timestamp::from_parts(1_700_000_000, 1_000_000);
    let same = region_pull_etag(1, Some(t), Some("d"));
    assert_eq!(same, region_pull_etag(1, Some(t), Some("d")));
    assert_ne!(same, region_pull_etag(11, Some(t), Some("d")));
    assert_ne!(same, region_pull_etag(1, Some(later), Some("d")));
    assert_ne!(same, region_pull_etag(1, Some(t), Some("e")));
    assert_ne!(region_pull_etag(-1, None, None), region_pull_etag(1, None, None));
}

#[test]
fn the_walk_is_paged() {
    assert_eq!(walk_limit(0), 1);
    assert_eq!(walk_limit(5), 5);
    assert_eq!(walk_limit(usize::MAX), MAX_PAGE as i64);
    let c = PublicTargetCursor::after(OrgId(1), 2);
    assert_eq!((c.org_id, c.target_id), (OrgId(1), 2));
}

#[test]
fn a_table_holds_one_value_per_key() {
    let mut t: Table<u8> = Table::new();
    assert_eq!(t.len(), 0);
    t.insert((1, 2), 7);
    t.insert((1, 2), 8);
    t.insert((2, 2), 9);
    assert_eq!(t.len(), 2);
    assert_eq!(t.get((1, 2)), Some(&8));
    assert_eq!(t.get((3, 3)), None);
}
