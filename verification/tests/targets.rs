//! Targets in memory and in the database's columns.

use status_monitor::domain::WriteSource;
use status_monitor::error::AppError;
use status_monitor::ids::OrgId;
use status_monitor::storage::admin::{EnabledTargetSource, PublicTargetCursor};
use status_monitor::storage::memory::targets::InMemoryTargetStore;
use status_monitor::storage::postgres::{
    assert_default_plan_present, bulk_columns, bulk_create, bulk_room, create_room,
    decode_target_row, list_params, order_clause, prefix_pattern, summary_of, tag_count, BulkStep,
    NewListedTarget, PublicListing, TargetRow,
};
use status_monitor::storage::traits::{TargetFilter, TargetSort};
use status_monitor::target::{materialize, NewTarget, Target, TargetUpdate};
use status_monitor::time::Timestamp;

fn org() -> OrgId {
    OrgId(1)
}

fn t0() -> Timestamp {
    Timestamp::from_secs(1_700_000_000)
}

fn new_target(name: &str, tags: &[&str]) -> NewTarget {
    NewTarget {
        name: name.into(),
        check: r#"{"type":"http"}"#.into(),
        interval_secs: 60,
        enabled: true,
        tags: tags.iter().map(|t| t.to_string()).collect(),
        alerts: "{}".into(),
        group_name: Some("core".into()),
        owner_user_id: Some(5),
    }
}

fn target(id: u128, name: &str, tags: &[&str], secs: i64) -> Target {
    materialize(&new_target(name, tags), WriteSource::Ui, t0().plus_secs(secs), id)
}

fn store() -> InMemoryTargetStore {
    InMemoryTargetStore::from_vec(vec![
        target(3, "Web", &["prod", "eu"], 0),
        target(1, "api", &["prod"], 20),
        target(2, "Db", &[], 10),
    ])
}

fn names(v: &[Target]) -> Vec<&str> {
    v.iter().map(|t| t.name.as_str()).collect()
}

#[test]
fn lists_filter_sort_and_page() {
    let s = store();
    let by_activity = s.list(org(), &TargetFilter::default());
    assert_eq!(names(&by_activity), vec!["api", "Db", "Web"]);
    let f = TargetFilter { sort: TargetSort::Created, limit: Some(2), ..Default::default() };
    assert_eq!(names(&s.list(org(), &f)), vec!["Web", "Db"]);
    let f = TargetFilter { q: Some("WE".into()), ..Default::default() };
    assert_eq!(names(&s.list(org(), &f)), vec!["Web"]);
    let f = TargetFilter { tag: Some("prod".into()), offset: 1, ..Default::default() };
    assert_eq!(names(&s.list(org(), &f)), vec!["Web"]);
    let f = TargetFilter { enabled: Some(false), ..Default::default() };
    assert!(s.list(org(), &f).is_empty());
    let f = TargetFilter { owner: Some(6), ..Default::default() };
    assert!(s.list(org(), &f).is_empty());
    let f = TargetFilter { group: Some("core".into()), limit: Some(0), ..Default::default() };
    assert!(s.list(org(), &f).is_empty());
}

#[test]
fn the_quota_caps_creation() {
    let mut s = InMemoryTargetStore::new();
    let made = s.create_at(org(), &new_target("a", &[]), WriteSource::Api, 1, t0(), 9).unwrap();
    assert_eq!((made.id, made.created_at, made.write_source), (9, t0(), WriteSource::Api));
    match s.create(org(), &new_target("b", &[]), WriteSource::Ui, 1) {
        Err(AppError::QuotaExceeded { current, limit, .. }) => assert_eq!((current, limit), (1, 1)),
        other => panic!("expected a quota error, got {other:?}"),
    }
    let two = vec![new_target("c", &[]), new_target("d", &[])];
    assert!(s.bulk_create(org(), &two, WriteSource::Ui, 2).is_err());
    assert_eq!(s.bulk_create(org(), &two, WriteSource::Ui, 3).unwrap().len(), 2);
    assert_eq!(s.summary(org()).total, 3);
}

#[test]
fn an_update_changes_what_it_names() {
    let mut s = store();
    let update = TargetUpdate {
        name: Some("web2".into()),
        group_name: Some(None),
        ..Default::default()
    };
    let t = s.update_at(org(), 3, update, WriteSource::Api, t0().plus_secs(99)).unwrap();
    assert_eq!(t.name, "web2");
    assert_eq!(t.group_name, None);
    assert_eq!(t.tags, vec!["prod", "eu"]);
    assert_eq!(t.owner_user_id, Some(5));
    assert_eq!((t.updated_at, t.created_at), (t0().plus_secs(99), t0()));
    assert!(s.update(org(), 77, TargetUpdate::default(), WriteSource::Ui).is_none());
    assert_eq!(names(&s.list_updated_since(org(), t0().plus_secs(50))), vec!["web2"]);
}

#[test]
fn bulk_changes_touch_the_known_ids() {
    let mut s = store();
    let at = t0().plus_secs(200);
    assert_eq!(s.set_enabled_at(org(), &vec![1, 99, 3], false, at), vec![3, 1]);
    assert!(!s.get(org(), 1).unwrap().enabled);
    let summary = s.summary(org());
    assert_eq!((summary.total, summary.enabled, summary.disabled), (3, 1, 2));

    s.add_tags_at(org(), &vec![2], &vec!["eu".into(), "eu".into()], at);
    assert_eq!(s.get(org(), 2).unwrap().tags, vec!["eu"]);
    s.remove_tags_at(org(), &vec![3], &vec!["eu".into()], at);
    assert_eq!(s.get(org(), 3).unwrap().tags, vec!["prod"]);
    s.set_group_at(org(), &vec![3], None, at);
    assert_eq!(s.get(org(), 3).unwrap().group_name, None);
    s.set_group(org(), &vec![3], Some("x"));
    assert_eq!(s.get(org(), 3).unwrap().group_name.as_deref(), Some("x"));
    assert_eq!(s.delete_bulk(org(), &vec![2, 99]), vec![2]);
    assert!(s.get(org(), 2).is_none());
    assert!(s.delete(org(), 1));
    assert!(!s.delete(org(), 1));
}

#[test]
fn tags_count_their_occurrences() {
    let s = store();
    let all = s.list_tags(org(), &None, 10);
    assert_eq!((all[0].name.as_str(), all[0].count), ("prod", 2));
    assert_eq!((all[1].name.as_str(), all[1].count), ("eu", 1));
    let some = s.list_tags(org(), &Some("e".into()), 10);
    assert_eq!(some.len(), 1);
    assert_eq!(s.list_tags(org(), &None, 1).len(), 1);
}

#[test]
fn the_public_walk_pages_by_id() {
    let mut s = store();
    s.set_enabled(org(), &vec![2], false);
    let first = s.next_public_status_page(None, 1);
    assert_eq!(first[0].1.id, 1);
    let next = s.next_public_status_page(
        Some(PublicTargetCursor::after(first[0].0, first[0].1.id)),
        10,
    );
    let ids: Vec<u128> = next.iter().map(|e| e.1.id).collect();
    assert_eq!(ids, vec![3]);
    assert_eq!(s.list_all_enabled_targets().len(), 2);
}

fn listing(status: bool) -> PublicListing {
    PublicListing {
        status,
        name: None,
        description: Some("d".into()),
        group: None,
        sort_order: 4,
    }
}

#[test]
fn a_stored_target_decodes() {
    let row = TargetRow {
        id: 1,
        name: "n".into(),
        check: "{}".into(),
        interval_secs: -5,
        enabled: true,
        tags: vec!["a".into()],
        alerts: "{}".into(),
        group_name: None,
        owner_user_id: None,
        listing: listing(true),
        created_at: t0(),
        updated_at: t0(),
    };
    let t = decode_target_row(row);
    assert_eq!(t.interval_secs, 0);
    assert_eq!(t.listing.sort_order, 4);
    assert_eq!(t.tags, vec!["a"]);
}

#[test]
fn list_parameters_are_clamped_and_trimmed() {
    let p = list_params(&TargetFilter::default());
    assert_eq!((p.limit, p.offset), (100, 0));
    assert_eq!(p.q_like, None);
    let f = TargetFilter {
        limit: Some(20_000),
        offset: 3,
        q: Some(" web ".into()),
        group: Some("  ".into()),
        ..Default::default()
    };
    let p = list_params(&f);
    assert_eq!((p.limit, p.offset), (10_000, 3));
    assert_eq!(p.q_like.as_deref(), Some("%web%"));
    assert_eq!(p.group, None);
    assert_eq!(order_clause(TargetSort::Name), "ORDER BY name ASC");
    assert_eq!(prefix_pattern(&Some("pr".into())).as_deref(), Some("pr%"));
    assert_eq!(prefix_pattern(&None), None);
}

#[test]
fn quotas_and_totals() {
    assert!(create_room(9, 10).is_ok());
    assert!(create_room(10, 10).is_err());
    assert!(bulk_room(8, 2, 10).is_ok());
    assert!(matches!(
        bulk_room(8, 3, 10),
        Err(AppError::QuotaExceeded { current: 8, limit: 10, .. })
    ));
    let s = summary_of(5, 3);
    assert_eq!((s.total, s.enabled, s.disabled), (5, 3, 2));
    assert_eq!(tag_count("t".into(), -1).count, 0);
    assert!(assert_default_plan_present(true).is_ok());
    assert!(assert_default_plan_present(false).is_err());
}

#[test]
fn bulk_columns_line_up() {
    let items = vec![
        NewListedTarget { target: new_target("a", &["x"]), listing: listing(true) },
        NewListedTarget { target: new_target("b", &[]), listing: listing(false) },
    ];
    let c = bulk_columns(&items);
    assert_eq!(c.names, vec!["a", "b"]);
    assert_eq!(c.tags, vec![vec!["x".to_string()], vec![]]);
    assert_eq!(c.public_status, vec![true, false]);
    assert_eq!(c.intervals, vec![60, 60]);
    assert!(matches!(bulk_create(&Vec::new(), 5, 0), BulkStep::Nothing));
    assert!(matches!(bulk_create(&items, 5, 6), BulkStep::Refuse(_)));
    assert!(matches!(bulk_create(&items, 5, 7), BulkStep::Insert(c) if c.names.len() == 2));
}
