//! Incident narration, maintenance windows and postmortems.

use status_monitor::domain::{CheckStatus, WriteSource};
use status_monitor::ids::{OrgId, UserId};
use status_monitor::incident::IncidentSeverity;
use status_monitor::storage::incidents::{
    active_cap, page_incidents, parse_status, row_to_active, row_to_incident, ActiveIncidentRow,
    InMemoryIncidentNarrationStore, Incident, IncidentNarrationUpdate, IncidentPage, IncidentRow,
    IncidentStatusPhase, NewIncidentUpdate, UpdateRow,
};
use status_monitor::storage::maintenance::{
    component_change, filter_clause, list_sql, match_filter, ComponentStep,
    InMemoryMaintenanceStore, MaintenanceFilter,
    MaintenanceListQuery, MaintenanceRow, MaintenanceWindowUpdate, NewMaintenanceWindow,
};
use status_monitor::storage::postmortems::{
    row_to_postmortem, ActionItem, InMemoryPostmortemStore, PostmortemRow, PostmortemUpsert,
};
use status_monitor::time::{now, Timestamp};
use uuid::Uuid;

fn org() -> OrgId {
    OrgId(0)
}

fn new_id() -> u128 {
    Uuid::now_v7().as_u128()
}

fn t0() -> Timestamp {
    Timestamp::from_secs(1_700_000_000)
}

fn sample() -> Incident {
    let earlier = now().plus_secs(-15 * 60);
    Incident {
        id: new_id(),
        target_id: new_id(),
        started_at: earlier,
        ended_at: None,
        status: CheckStatus::Down,
        duration_secs: None,
        check_count: 3,
        error_sample: Some("timeout".into()),
        severity: IncidentSeverity::Major,
        public_title: None,
        public_description: None,
        created_at: Some(earlier),
        updated_at: Some(earlier),
        updates: vec![],
    }
}

#[test]
fn patch_narration_overwrites_fields() {
    let mut store = InMemoryIncidentNarrationStore::new();
    let inc = sample();
    let id = inc.id;
    store.seed(inc);
    let patched = store
        .patch_narration(
            org(),
            id,
            IncidentNarrationUpdate {
                public_title: Some(Some("Latency spike".into())),
                public_description: Some(Some("EU".into())),
                severity: Some(IncidentSeverity::Critical),
            },
        )
        .unwrap();
    assert_eq!(patched.public_title.as_deref(), Some("Latency spike"));
    assert_eq!(patched.public_description.as_deref(), Some("EU"));
    assert_eq!(patched.severity, IncidentSeverity::Critical);
}

#[test]
fn patch_narration_with_none_clears_fields() {
    let mut store = InMemoryIncidentNarrationStore::new();
    let mut inc = sample();
    inc.public_title = Some("old".into());
    let id = inc.id;
    store.seed(inc);
    let patched = store
        .patch_narration(
            org(),
            id,
            IncidentNarrationUpdate {
                public_title: Some(None),
                public_description: None,
                severity: None,
            },
        )
        .unwrap();
    assert_eq!(patched.public_title, None);
}

#[test]
fn append_update_records_entry() {
    let mut store = InMemoryIncidentNarrationStore::new();
    let inc = sample();
    let id = inc.id;
    store.seed(inc);
    let entry = store
        .append_update(
            org(),
            id,
            NewIncidentUpdate {
                phase: IncidentStatusPhase::Identified,
                message: "rolling back".into(),
            },
            Some("op@example.com".into()),
        )
        .unwrap();
    assert_eq!(entry.phase, IncidentStatusPhase::Identified);
    let again = store.get(org(), id).unwrap();
    assert_eq!(again.updates.len(), 1);
}

#[test]
fn append_update_for_missing_incident_returns_none() {
    let mut store = InMemoryIncidentNarrationStore::new();
    let res = store.append_update(
        org(),
        new_id(),
        NewIncidentUpdate {
            phase: IncidentStatusPhase::Investigating,
            message: "x".into(),
        },
        None,
    );
    assert!(res.is_none());
}

#[test]
fn a_patch_leaves_what_it_does_not_name() {
    let mut store = InMemoryIncidentNarrationStore::new();
    let mut inc = sample();
    inc.public_title = Some("old".into());
    let id = inc.id;
    store.seed(inc);
    let silent = IncidentNarrationUpdate {
        public_title: None,
        public_description: None,
        severity: None,
    };
    let patched = store.patch_narration_at(org(), id, silent, t0()).unwrap();
    assert_eq!(patched.public_title.as_deref(), Some("old"));
    assert_eq!(patched.severity, IncidentSeverity::Major);
    assert_eq!(patched.updated_at, Some(t0()));
}

#[test]
fn active_incidents_come_oldest_first_with_their_latest_update() {
    let mut store = InMemoryIncidentNarrationStore::new();
    let mut late = sample();
    late.started_at = t0().plus_secs(10);
    let late_id = late.id;
    let mut early = sample();
    early.started_at = t0();
    let early_id = early.id;
    let mut closed = sample();
    closed.ended_at = Some(t0());
    store.seed(late);
    store.seed(early);
    store.seed(closed);
    for message in ["one", "two"] {
        store.append_update(
            org(),
            late_id,
            NewIncidentUpdate { phase: IncidentStatusPhase::Monitoring, message: message.into() },
            None,
        );
    }
    let active = store.list_active(org(), 10);
    assert_eq!(active.len(), 2);
    assert_eq!(active[0].id, early_id);
    assert!(active[0].latest_update.is_none());
    assert_eq!(active[1].latest_update.as_ref().unwrap().message, "two");
    assert_eq!(store.list_active(org(), 1).len(), 1);
}

#[test]
fn incidents_page_latest_first() {
    let at = |secs: i64, ended: bool| {
        let mut i = sample();
        i.started_at = t0().plus_secs(secs);
        i.ended_at = if ended { Some(t0().plus_secs(secs + 1)) } else { None };
        i
    };
    let all = vec![at(0, false), at(20, true), at(10, false)];
    let page = page_incidents(
        all,
        IncidentPage { ongoing_only: true, offset: 0, limit: 1 },
    );
    assert_eq!(page.len(), 1);
    assert_eq!(page[0].started_at, t0().plus_secs(10));
}

#[test]
fn incident_rows_decode() {
    let row = IncidentRow {
        id: 1,
        target_id: 2,
        started_at: t0(),
        ended_at: None,
        severity: "critical".into(),
        status_at_start: "error".into(),
        check_count: -1,
        error_sample: None,
        public_title: None,
        public_description: None,
        duration_secs: Some(-9),
        created_at: t0(),
        updated_at: t0(),
    };
    let updates = vec![UpdateRow {
        posted_at: t0(),
        phase: "resolved".into(),
        message: "done".into(),
    }];
    let i = row_to_incident(row, &updates);
    assert_eq!(i.status, CheckStatus::Error);
    assert_eq!((i.check_count, i.duration_secs), (0, Some(0)));
    assert_eq!(i.updates[0].phase, IncidentStatusPhase::Resolved);
    assert_eq!(parse_status("down"), CheckStatus::Down);

    let active = |phase: Option<&str>| {
        row_to_active(ActiveIncidentRow {
            id: 1,
            target_id: 2,
            target_name: "web".into(),
            severity: "minor".into(),
            started_at: t0(),
            public_title: None,
            update_posted_at: Some(t0()),
            update_phase: phase.map(|p| p.to_string()),
            update_message: Some("m".into()),
        })
    };
    assert!(active(None).latest_update.is_none());
    let with = active(Some("identified")).latest_update.unwrap();
    assert_eq!(with.phase, IncidentStatusPhase::Identified);
    assert_eq!(active_cap(0), 1);
}

#[test]
fn phases_read_back() {
    for p in [
        IncidentStatusPhase::Investigating,
        IncidentStatusPhase::Identified,
        IncidentStatusPhase::Monitoring,
        IncidentStatusPhase::Resolved,
    ] {
        assert_eq!(IncidentStatusPhase::from_db_str(p.as_db_str()), p);
    }
}

fn upcoming() -> NewMaintenanceWindow {
    NewMaintenanceWindow {
        title: "Upgrade".into(),
        description: None,
        starts_at: now().plus_secs(3_600),
        ends_at: now().plus_secs(7_200),
        component_ids: vec![],
    }
}

#[test]
fn create_and_list_roundtrip() {
    let mut store = InMemoryMaintenanceStore::new();
    let mw = store.create(org(), upcoming(), WriteSource::Ui);
    let list = store.list(
        org(),
        MaintenanceListQuery {
            filter: MaintenanceFilter::All,
            limit: 10,
            offset: 0,
        },
    );
    assert_eq!(list.len(), 1);
    assert_eq!(list[0].id, mw.id);
}

#[test]
fn filter_active_excludes_upcoming() {
    let mut store = InMemoryMaintenanceStore::new();
    store.create(org(), upcoming(), WriteSource::Ui);
    let active = store.list(
        org(),
        MaintenanceListQuery {
            filter: MaintenanceFilter::Active,
            limit: 10,
            offset: 0,
        },
    );
    assert!(active.is_empty());
}

#[test]
fn update_replaces_components() {
    let mut store = InMemoryMaintenanceStore::new();
    let mw = store.create(org(), upcoming(), WriteSource::Ui);
    let new_id = new_id();
    let patched = store
        .update(
            org(),
            mw.id,
            MaintenanceWindowUpdate {
                component_ids: Some(vec![new_id]),
                ..Default::default()
            },
            WriteSource::Ui,
        )
        .unwrap();
    assert_eq!(patched.component_ids, vec![new_id]);
}

#[test]
fn existing_target_ids_filters_unknown() {
    let known = new_id();
    let store = InMemoryMaintenanceStore::with_targets(vec![known]);
    let unknown = new_id();
    let got = store.existing_target_ids(org(), &vec![known, unknown]);
    assert_eq!(got, vec![known]);
}

#[test]
fn delete_returns_false_for_unknown() {
    let mut store = InMemoryMaintenanceStore::new();
    assert!(!store.delete(org(), new_id()));
}

#[test]
fn a_window_is_upcoming_active_or_past() {
    let mut store = InMemoryMaintenanceStore::new();
    assert!(store.is_empty());
    let new = NewMaintenanceWindow {
        title: "w".into(),
        description: None,
        starts_at: t0(),
        ends_at: t0().plus_secs(10),
        component_ids: vec![3],
    };
    let w = store.create_at(org(), new, WriteSource::Api, t0(), 5);
    assert_eq!(store.len(), 1);
    let is = |filter, secs| match_filter(&w, filter, t0().plus_secs(secs));
    assert!(is(MaintenanceFilter::Upcoming, -1) && !is(MaintenanceFilter::Active, -1));
    assert!(is(MaintenanceFilter::Active, 0) && !is(MaintenanceFilter::Upcoming, 0));
    assert!(is(MaintenanceFilter::Past, 10) && !is(MaintenanceFilter::Active, 10));
    assert!(is(MaintenanceFilter::All, 0));
    store.register_target(3);
    assert_eq!(store.existing_target_ids(org(), &vec![3, 4]), vec![3]);
    assert!(store.delete(org(), 5));
    assert!(store.get(org(), 5).is_none());
}

#[test]
fn list_queries_carry_their_filter() {
    for f in [MaintenanceFilter::Active, MaintenanceFilter::Upcoming, MaintenanceFilter::Past] {
        let sql = list_sql(f);
        assert!(sql.contains(filter_clause(f)), "{sql}");
        assert!(sql.contains("org_id"));
    }
    assert_ne!(filter_clause(MaintenanceFilter::Active), filter_clause(MaintenanceFilter::Past));
}

#[test]
fn a_maintenance_row_keeps_its_source() {
    let row = MaintenanceRow {
        id: 1,
        title: "t".into(),
        description: Some("d".into()),
        starts_at: t0(),
        ends_at: t0(),
        write_source: "api".into(),
        created_at: t0(),
        updated_at: t0(),
    };
    let w = row.into_window(vec![9]);
    assert_eq!(w.write_source, WriteSource::Api);
    assert_eq!(w.component_ids, vec![9]);
    assert_eq!(WriteSource::from_db(WriteSource::Ui.as_str()), WriteSource::Ui);
}

#[test]
fn upsert_requires_known_incident() {
    let mut store = InMemoryPostmortemStore::new();
    let id = new_id();
    assert!(
        store
            .upsert(org(), id, UserId(new_id()), PostmortemUpsert::default())
            .is_none(),
        "unknown incident yields None"
    );
    store.seed_incident(org(), id);
    let pm = store
        .upsert(
            org(),
            id,
            UserId(new_id()),
            PostmortemUpsert {
                summary: Some("root caused".into()),
                action_items: vec![ActionItem {
                    text: "add alert".into(),
                    owner_user_id: None,
                    done: false,
                }],
                ..Default::default()
            },
        )
        .unwrap();
    assert_eq!(pm.summary.as_deref(), Some("root caused"));
    assert_eq!(pm.action_items.len(), 1);
    assert!(pm.published_at.is_none());
}

#[test]
fn publish_then_unpublish_toggles() {
    let mut store = InMemoryPostmortemStore::new();
    let id = new_id();
    store.seed_incident(org(), id);
    store.upsert(org(), id, UserId(new_id()), PostmortemUpsert::default());
    let p = store.set_published(org(), id, true).unwrap();
    assert!(p.published_at.is_some());
    let p = store.set_published(org(), id, false).unwrap();
    assert!(p.published_at.is_none());
}

#[test]
fn set_published_on_missing_is_none() {
    let mut store = InMemoryPostmortemStore::new();
    assert!(store.set_published(org(), new_id(), true).is_none());
}

#[test]
fn a_second_save_keeps_the_author_and_the_publication() {
    let mut store = InMemoryPostmortemStore::new();
    store.seed_incident(org(), 1);
    store.upsert_at(org(), 1, UserId(7), PostmortemUpsert::default(), t0());
    store.set_published_at(org(), 1, true, t0().plus_secs(1));
    let again = store
        .upsert_at(org(), 1, UserId(8), PostmortemUpsert::default(), t0().plus_secs(2))
        .unwrap();
    assert_eq!(again.author_id, Some(UserId(7)));
    assert_eq!(again.published_at, Some(t0().plus_secs(1)));
    assert_eq!(again.created_at, t0());
    let later = store.set_published_at(org(), 1, true, t0().plus_secs(9)).unwrap();
    assert_eq!(later.published_at, Some(t0().plus_secs(1)), "published once");
    assert!(store.get(OrgId(99), 1).is_none());
}

#[test]
fn a_postmortem_row_without_items_has_none() {
    let row = PostmortemRow {
        incident_id: 1,
        summary: None,
        root_cause: Some("dns".into()),
        impact: None,
        action_items: None,
        author_id: None,
        created_at: t0(),
        updated_at: t0(),
        published_at: None,
    };
    let p = row_to_postmortem(row);
    assert!(p.action_items.is_empty());
    assert_eq!(p.root_cause.as_deref(), Some("dns"));
}

#[test]
fn an_update_keeps_clears_or_replaces_components() {
    assert!(matches!(component_change(&None), ComponentStep::Keep));
    assert!(matches!(component_change(&Some(vec![])), ComponentStep::Clear));
    match component_change(&Some(vec![2, 1, 2])) {
        ComponentStep::Replace(ids) => assert_eq!(ids, vec![2, 1, 2]),
        other => panic!("expected a replacement, got {other:?}"),
    }
}
