//! Incident operations: lifecycle, timeline, paging attempts, and stored rows.

use status_monitor::ids::{OrgId, UserId};
use status_monitor::incident::{
    next_state, ActorType, IncidentEventKind, IncidentOrigin, IncidentSeverity, IncidentState,
    IncidentTransition, IncidentUrgency, IncidentVisibility, NewIncidentNotification,
    NewManualIncident, NotificationReason, NotificationStatus, OpsIncident, TransitionError,
};
use status_monitor::storage::incident_ops::{
    event_kind, resolved_public_message, Actor, InMemoryIncidentOpsStore, IncidentOpsFilter,
    LifecycleOutcome,
};
use status_monitor::storage::incident_rows::{
    assign_event, list_cap, pending_cap, row_to_event, row_to_notif, row_to_ops, row_to_pending, stored_count,
    transition_step, EventRow, NotifRow, OpsIncidentRow, PendingRow, TransitionStep,
};
use status_monitor::time::{now, Timestamp};
use uuid::Uuid;

#[test]
fn resolved_public_message_uses_note_or_default() {
    assert_eq!(
        resolved_public_message(Some("rolled back deploy")),
        "rolled back deploy"
    );
    assert_eq!(
        resolved_public_message(Some("   ")),
        "This incident has been resolved."
    );
    assert_eq!(
        resolved_public_message(None),
        "This incident has been resolved."
    );
}

fn org() -> OrgId {
    OrgId(0)
}

fn new_id() -> u128 {
    Uuid::now_v7().as_u128()
}

fn user() -> UserId {
    UserId(new_id())
}

fn triggered(severity: IncidentSeverity, assigned_to: Option<UserId>) -> OpsIncident {
    let now = now();
    OpsIncident {
        id: new_id(),
        target_id: Some(new_id()),
        title: None,
        state: IncidentState::Triggered,
        severity,
        urgency: IncidentUrgency::High,
        origin: IncidentOrigin::Monitor,
        visibility: IncidentVisibility::Internal,
        paging_enabled: true,
        counts_as_downtime: true,
        started_at: now,
        ended_at: None,
        acknowledged_at: None,
        acknowledged_by: None,
        assigned_to,
        resolved_by: None,
        escalation_policy_id: None,
        escalation_level: 0,
        escalation_round: 0,
        next_escalation_at: Some(now),
        check_count: 2,
        error_sample: Some("boom".into()),
        regions_down: Vec::new(),
        regions_up: Vec::new(),
        created_at: now,
        updated_at: now,
    }
}

fn seed_triggered(store: &mut InMemoryIncidentOpsStore) -> u128 {
    let incident = triggered(IncidentSeverity::Major, None);
    let id = incident.id;
    store.seed(incident);
    id
}

fn unwrap_updated(o: LifecycleOutcome) -> OpsIncident {
    match o {
        LifecycleOutcome::Updated(i) => *i,
        other => panic!("expected Updated, got {other:?}"),
    }
}

#[test]
fn incident_ops_acknowledge_sets_owner_and_stops_escalation() {
    let mut store = InMemoryIncidentOpsStore::new();
    let id = seed_triggered(&mut store);
    let u = user();
    let inc = unwrap_updated(store.acknowledge(org(), id, Actor::User(u), Some("on it".into())));
    assert_eq!(inc.state, IncidentState::Acknowledged);
    assert_eq!(inc.acknowledged_by, Some(u));
    assert!(inc.next_escalation_at.is_none());
    let tl = store.timeline(org(), id);
    assert_eq!(tl.len(), 1);
    assert_eq!(tl[0].kind, IncidentEventKind::Acknowledged);
}

#[test]
fn incident_ops_re_acknowledge_keeps_first_acker() {
    let mut store = InMemoryIncidentOpsStore::new();
    let id = seed_triggered(&mut store);
    let first = user();
    let acked = unwrap_updated(store.acknowledge(org(), id, Actor::User(first), None));
    let first_at = acked.acknowledged_at;
    // A second responder re-acks; ownership + time must not be overwritten.
    let again = unwrap_updated(store.acknowledge(org(), id, Actor::User(user()), None));
    assert_eq!(again.acknowledged_by, Some(first));
    assert_eq!(again.acknowledged_at, first_at);
}

#[test]
fn incident_ops_cannot_acknowledge_resolved() {
    let mut store = InMemoryIncidentOpsStore::new();
    let id = seed_triggered(&mut store);
    store.resolve(org(), id, Actor::User(user()), None);
    let out = store.acknowledge(org(), id, Actor::User(user()), None);
    assert!(matches!(out, LifecycleOutcome::IllegalTransition(_)));
}

#[test]
fn incident_ops_manual_resolve_records_user_auto_resolve_does_not() {
    let mut store = InMemoryIncidentOpsStore::new();
    let id = seed_triggered(&mut store);
    let u = user();
    let inc = unwrap_updated(store.resolve(org(), id, Actor::User(u), None));
    assert_eq!(inc.state, IncidentState::Resolved);
    assert_eq!(inc.resolved_by, Some(u));
    assert!(inc.ended_at.is_some());

    let id2 = seed_triggered(&mut store);
    let inc2 = unwrap_updated(store.auto_resolve(org(), id2));
    assert_eq!(inc2.resolved_by, None);
}

#[test]
fn incident_ops_reopen_resets_resolution_and_ack() {
    let mut store = InMemoryIncidentOpsStore::new();
    let id = seed_triggered(&mut store);
    store.acknowledge(org(), id, Actor::User(user()), None);
    store.resolve(org(), id, Actor::User(user()), None);
    let inc = unwrap_updated(store.reopen(org(), id, Actor::User(user()), None));
    assert_eq!(inc.state, IncidentState::Triggered);
    assert!(inc.ended_at.is_none());
    assert!(inc.acknowledged_by.is_none());
    assert!(inc.resolved_by.is_none());
}

#[test]
fn incident_ops_assign_and_unassign_log_events() {
    let mut store = InMemoryIncidentOpsStore::new();
    let id = seed_triggered(&mut store);
    let u = user();
    let inc = store.assign(org(), id, Some(u), Actor::User(u)).unwrap();
    assert_eq!(inc.assigned_to, Some(u));
    store.assign(org(), id, None, Actor::User(u));
    let tl = store.timeline(org(), id);
    assert_eq!(tl.len(), 2);
    assert_eq!(tl[0].kind, IncidentEventKind::Assigned);
    assert_eq!(tl[1].kind, IncidentEventKind::Unassigned);
}

#[test]
fn incident_ops_add_note_on_missing_incident_is_none() {
    let mut store = InMemoryIncidentOpsStore::new();
    let res = store.add_note(org(), new_id(), Actor::System, "x".into());
    assert!(res.is_none());
}

#[test]
fn incident_ops_list_filters_by_state() {
    let mut store = InMemoryIncidentOpsStore::new();
    let a = seed_triggered(&mut store);
    let _b = seed_triggered(&mut store);
    store.resolve(org(), a, Actor::System, None);
    let triggered = store.list(
        org(),
        IncidentOpsFilter {
            state: Some(IncidentState::Triggered),
            ..Default::default()
        },
    );
    assert_eq!(triggered.len(), 1);
    let resolved = store.list(
        org(),
        IncidentOpsFilter {
            state: Some(IncidentState::Resolved),
            ..Default::default()
        },
    );
    assert_eq!(resolved.len(), 1);
}

#[test]
fn tests_acknowledge_sets_owner_and_stops_escalation() {
    let mut store = InMemoryIncidentOpsStore::new();
    let id = seed_triggered(&mut store);
    let u = user();
    let inc = unwrap_updated(store.acknowledge(org(), id, Actor::User(u), Some("on it".into())));
    assert_eq!(inc.state, IncidentState::Acknowledged);
    assert_eq!(inc.acknowledged_by, Some(u));
    assert!(inc.next_escalation_at.is_none());
    let tl = store.timeline(org(), id);
    assert_eq!(tl.len(), 1);
    assert_eq!(tl[0].kind, IncidentEventKind::Acknowledged);
}

#[test]
fn tests_re_acknowledge_keeps_first_acker() {
    let mut store = InMemoryIncidentOpsStore::new();
    let id = seed_triggered(&mut store);
    let first = user();
    let acked = unwrap_updated(store.acknowledge(org(), id, Actor::User(first), None));
    let first_at = acked.acknowledged_at;
    // A second responder re-acks; ownership + time must not be overwritten.
    let again = unwrap_updated(store.acknowledge(org(), id, Actor::User(user()), None));
    assert_eq!(again.acknowledged_by, Some(first));
    assert_eq!(again.acknowledged_at, first_at);
}

#[test]
fn tests_cannot_acknowledge_resolved() {
    let mut store = InMemoryIncidentOpsStore::new();
    let id = seed_triggered(&mut store);
    store.resolve(org(), id, Actor::User(user()), None);
    let out = store.acknowledge(org(), id, Actor::User(user()), None);
    assert!(matches!(out, LifecycleOutcome::IllegalTransition(_)));
}

#[test]
fn tests_manual_resolve_records_user_auto_resolve_does_not() {
    let mut store = InMemoryIncidentOpsStore::new();
    let id = seed_triggered(&mut store);
    let u = user();
    let inc = unwrap_updated(store.resolve(org(), id, Actor::User(u), None));
    assert_eq!(inc.state, IncidentState::Resolved);
    assert_eq!(inc.resolved_by, Some(u));
    assert!(inc.ended_at.is_some());

    let id2 = seed_triggered(&mut store);
    let inc2 = unwrap_updated(store.auto_resolve(org(), id2));
    assert_eq!(inc2.resolved_by, None);
}

#[test]
fn tests_reopen_resets_resolution_and_ack() {
    let mut store = InMemoryIncidentOpsStore::new();
    let id = seed_triggered(&mut store);
    store.acknowledge(org(), id, Actor::User(user()), None);
    store.resolve(org(), id, Actor::User(user()), None);
    let inc = unwrap_updated(store.reopen(org(), id, Actor::User(user()), None));
    assert_eq!(inc.state, IncidentState::Triggered);
    assert!(inc.ended_at.is_none());
    assert!(inc.acknowledged_by.is_none());
    assert!(inc.resolved_by.is_none());
}

#[test]
fn tests_assign_and_unassign_log_events() {
    let mut store = InMemoryIncidentOpsStore::new();
    let id = seed_triggered(&mut store);
    let u = user();
    let inc = store.assign(org(), id, Some(u), Actor::User(u)).unwrap();
    assert_eq!(inc.assigned_to, Some(u));
    store.assign(org(), id, None, Actor::User(u));
    let tl = store.timeline(org(), id);
    assert_eq!(tl.len(), 2);
    assert_eq!(tl[0].kind, IncidentEventKind::Assigned);
    assert_eq!(tl[1].kind, IncidentEventKind::Unassigned);
}

#[test]
fn tests_add_note_on_missing_incident_is_none() {
    let mut store = InMemoryIncidentOpsStore::new();
    let res = store.add_note(org(), new_id(), Actor::System, "x".into());
    assert!(res.is_none());
}

#[test]
fn tests_list_filters_by_state() {
    let mut store = InMemoryIncidentOpsStore::new();
    let a = seed_triggered(&mut store);
    let _b = seed_triggered(&mut store);
    store.resolve(org(), a, Actor::System, None);
    let triggered = store.list(
        org(),
        IncidentOpsFilter {
            state: Some(IncidentState::Triggered),
            ..Default::default()
        },
    );
    assert_eq!(triggered.len(), 1);
    let resolved = store.list(
        org(),
        IncidentOpsFilter {
            state: Some(IncidentState::Resolved),
            ..Default::default()
        },
    );
    assert_eq!(resolved.len(), 1);
}

#[test]
fn publish_then_unpublish_flips_visibility_and_logs() {
    let mut store = InMemoryIncidentOpsStore::new();
    let id = seed_triggered(&mut store);
    let u = user();
    let pubd = store
        .publish(org(), id, Some("EU outage".into()), None, Actor::User(u))
        .unwrap();
    assert_eq!(pubd.visibility, IncidentVisibility::Public);
    let unpubd = store.unpublish(org(), id, Actor::User(u)).unwrap();
    assert_eq!(unpubd.visibility, IncidentVisibility::Internal);
    let kinds: Vec<_> = store.timeline(org(), id).into_iter().map(|e| e.kind).collect();
    assert!(kinds.contains(&IncidentEventKind::Published));
    assert!(kinds.contains(&IncidentEventKind::Unpublished));
}

#[test]
fn publish_missing_incident_is_none() {
    let mut store = InMemoryIncidentOpsStore::new();
    let res = store.publish(org(), new_id(), None, None, Actor::System);
    assert!(res.is_none());
}

#[test]
fn filters_by_severity_and_assignee_with_counts() {
    let mut store = InMemoryIncidentOpsStore::new();
    let u = user();
    // Two triggered (one critical, mine), one resolved minor.
    let first = triggered(IncidentSeverity::Critical, Some(u));
    let a = first.id;
    store.seed(first);
    seed_triggered(&mut store);
    let third = triggered(IncidentSeverity::Minor, None);
    let c = third.id;
    store.seed(third);
    store.resolve(org(), c, Actor::System, None);

    // Severity filter.
    let crit = store.list(
        org(),
        IncidentOpsFilter {
            severity: Some(IncidentSeverity::Critical),
            ..Default::default()
        },
    );
    assert_eq!(crit.len(), 1);
    assert_eq!(crit[0].id, a);

    // Assignee filter ("mine").
    let mine = store.list(
        org(),
        IncidentOpsFilter {
            assignee: Some(u),
            ..Default::default()
        },
    );
    assert_eq!(mine.len(), 1);
    assert_eq!(mine[0].id, a);

    // counts_by_state ignores the state filter, honours severity/assignee.
    let counts = store.counts_by_state(org(), &IncidentOpsFilter::default());
    assert_eq!(counts.triggered, 2);
    assert_eq!(counts.resolved, 1);
    assert_eq!(counts.total(), 3);

    let mine_counts = store.counts_by_state(
        org(),
        &IncidentOpsFilter {
            assignee: Some(u),
            ..Default::default()
        },
    );
    assert_eq!(mine_counts.triggered, 1);
    assert_eq!(mine_counts.total(), 1);
}

#[test]
fn an_unknown_incident_is_not_found() {
    let mut store = InMemoryIncidentOpsStore::new();
    let out = store.resolve(org(), new_id(), Actor::System, None);
    assert!(matches!(out, LifecycleOutcome::NotFound));
    assert!(store.get(org(), new_id()).is_none());
    assert!(store.assign(org(), new_id(), None, Actor::System).is_none());
}

#[test]
fn an_illegal_transition_names_what_was_asked() {
    let mut store = InMemoryIncidentOpsStore::new();
    let id = seed_triggered(&mut store);
    let out = store.reopen(org(), id, Actor::System, None);
    assert!(matches!(
        out,
        LifecycleOutcome::IllegalTransition(TransitionError {
            from: IncidentState::Triggered,
            transition: IncidentTransition::Reopen,
        })
    ));
    assert!(store.timeline(org(), id).is_empty(), "nothing is logged");
}

#[test]
fn the_state_machine_is_small() {
    let states = [IncidentState::Triggered, IncidentState::Acknowledged, IncidentState::Resolved];
    for s in states {
        let open = s != IncidentState::Resolved;
        assert_eq!(next_state(s, IncidentTransition::Acknowledge).is_ok(), open);
        assert_eq!(next_state(s, IncidentTransition::Resolve).is_ok(), open);
        assert_eq!(next_state(s, IncidentTransition::AutoResolve).is_ok(), open);
        assert_eq!(next_state(s, IncidentTransition::Reopen).is_ok(), !open);
        assert_eq!(IncidentState::from_db_str(s.as_db_str()), s);
    }
    assert_eq!(event_kind(IncidentTransition::AutoResolve), IncidentEventKind::Resolved);
}

#[test]
fn a_declared_incident_is_open_and_logged() {
    let mut store = InMemoryIncidentOpsStore::new();
    let u = user();
    let inc = store.declare(
        org(),
        NewManualIncident {
            target_id: None,
            title: Some("db".into()),
            severity: IncidentSeverity::Critical,
            urgency: IncidentUrgency::Low,
        },
        Actor::Mcp(u),
    );
    assert_eq!(inc.state, IncidentState::Triggered);
    assert_eq!(inc.origin, IncidentOrigin::Manual);
    assert_eq!(inc.title.as_deref(), Some("db"));
    assert_eq!(store.count(org(), None), 1);
    assert_eq!(store.count(org(), Some(IncidentState::Resolved)), 0);
    let tl = store.timeline(org(), inc.id);
    assert_eq!(tl[0].kind, IncidentEventKind::Triggered);
    assert_eq!(tl[0].actor_type, ActorType::Mcp);
    assert_eq!(tl[0].actor_id, Some(u));
    let note = store.add_note(org(), inc.id, Actor::User(u), "hi".into()).unwrap();
    assert_eq!(note.message.as_deref(), Some("hi"));
    store.append_event(org(), inc.id, IncidentEventKind::Escalated, Actor::System, None);
    assert_eq!(store.timeline(org(), inc.id).len(), 3);
}

fn attempt(incident_id: u128, status: NotificationStatus, attempt: i32) -> NewIncidentNotification {
    NewIncidentNotification {
        org: org(),
        incident_id,
        escalation_level: Some(1),
        target_user_id: None,
        channel_id: Some(9),
        transport: "email".into(),
        reason: NotificationReason::Escalated,
        status,
        attempt,
        error: None,
        sent_at: None,
    }
}

#[test]
fn failed_attempts_are_pending_until_they_are_sent() {
    let mut store = InMemoryIncidentOpsStore::new();
    let id = seed_triggered(&mut store);
    let failed = store.record_notification(attempt(id, NotificationStatus::Failed, 1));
    store.record_notification(attempt(id, NotificationStatus::Failed, 5));
    store.record_notification(attempt(id, NotificationStatus::Sent, 1));
    assert_eq!(store.notifications_for(org(), id).len(), 3);
    let pending = store.pending_notifications(10, 5);
    assert_eq!(pending.len(), 1);
    assert_eq!(pending[0].id, failed);
    assert_eq!(pending[0].reason, NotificationReason::Escalated);
    store.mark_notification(org(), failed, NotificationStatus::Sent, 2, None, Some(now()));
    assert!(store.pending_notifications(10, 5).is_empty());
    let sent = store.notifications_for(org(), id);
    assert!(sent.iter().any(|n| n.id == failed && n.attempt == 2 && n.sent_at.is_some()));
}

fn t0() -> Timestamp {
    Timestamp::from_secs(1_700_000_000)
}

#[test]
fn rows_decode_by_name() {
    let row = OpsIncidentRow {
        id: 1,
        target_id: None,
        title: None,
        state: "acknowledged".into(),
        severity: "critical".into(),
        urgency: "high".into(),
        origin: "manual".into(),
        visibility: "public".into(),
        paging_enabled: false,
        counts_as_downtime: true,
        started_at: t0(),
        ended_at: None,
        acknowledged_at: Some(t0()),
        acknowledged_by: Some(UserId(3)),
        assigned_to: None,
        resolved_by: None,
        escalation_policy_id: None,
        escalation_level: 2,
        escalation_round: 1,
        next_escalation_at: None,
        check_count: -4,
        error_sample: None,
        regions_down: vec!["eu".into()],
        regions_up: Vec::new(),
        created_at: t0(),
        updated_at: t0(),
    };
    let i = row_to_ops(row);
    assert_eq!(i.state, IncidentState::Acknowledged);
    assert_eq!(i.severity, IncidentSeverity::Critical);
    assert_eq!(i.urgency, IncidentUrgency::High);
    assert_eq!(i.origin, IncidentOrigin::Manual);
    assert_eq!(i.visibility, IncidentVisibility::Public);
    assert_eq!(i.check_count, 0);
    assert_eq!(i.regions_down, vec!["eu"]);

    let e = row_to_event(EventRow {
        id: 1,
        incident_id: 2,
        occurred_at: t0(),
        kind: "reopened".into(),
        actor_type: "user".into(),
        actor_id: Some(UserId(3)),
        detail: "{}".into(),
        message: None,
    });
    assert_eq!(e.kind, IncidentEventKind::Reopened);
    assert_eq!(e.actor_type, ActorType::User);

    let n = row_to_notif(NotifRow {
        id: 1,
        incident_id: 2,
        escalation_level: None,
        target_user_id: None,
        channel_id: None,
        transport: "slack".into(),
        reason: "resolved".into(),
        status: "failed".into(),
        attempt: 3,
        error: Some("boom".into()),
        created_at: t0(),
        sent_at: None,
    });
    assert_eq!(n.reason, NotificationReason::Resolved);
    assert_eq!(n.status, NotificationStatus::Failed);

    let p = row_to_pending(PendingRow {
        id: 1,
        org_id: 7,
        incident_id: 2,
        channel_id: None,
        transport: "slack".into(),
        reason: "acknowledged".into(),
        attempt: 3,
    });
    assert_eq!(p.org, OrgId(7));
    assert_eq!(p.reason, NotificationReason::Acknowledged);
}

#[test]
fn written_names_read_back() {
    assert_eq!(IncidentUrgency::from_db_str(IncidentUrgency::Low.as_db_str()), IncidentUrgency::Low);
    assert_eq!(
        IncidentEventKind::from_db_str(IncidentEventKind::Unpublished.as_db_str()),
        IncidentEventKind::Unpublished
    );
    assert_eq!(IncidentSeverity::from_db_str("minor"), IncidentSeverity::Minor);
    assert_eq!(ActorType::from_db_str(ActorType::Mcp.as_db_str()), ActorType::Mcp);
}

#[test]
fn a_stored_state_decides_a_transition() {
    assert_eq!(transition_step(None, IncidentTransition::Resolve), TransitionStep::NotFound);
    assert_eq!(
        transition_step(Some("triggered"), IncidentTransition::Resolve),
        TransitionStep::Apply(IncidentEventKind::Resolved)
    );
    assert_eq!(
        transition_step(Some("resolved"), IncidentTransition::Acknowledge),
        TransitionStep::Illegal(TransitionError {
            from: IncidentState::Resolved,
            transition: IncidentTransition::Acknowledge,
        })
    );
    assert_eq!(assign_event(None), IncidentEventKind::Unassigned);
    assert_eq!(assign_event(Some(UserId(1))), IncidentEventKind::Assigned);
}

#[test]
fn pages_and_counts_are_clamped() {
    assert_eq!(list_cap(None), 100);
    assert_eq!(list_cap(Some(0)), 1);
    assert_eq!(list_cap(Some(7)), 7);
    assert_eq!(list_cap(Some(5_000)), 1_000);
    assert_eq!(pending_cap(0), 1);
    assert_eq!(pending_cap(usize::MAX), 1);
    assert_eq!(pending_cap(20), 20);
    assert_eq!(pending_cap(5_000), 1_000);
    assert_eq!(stored_count(-1), 0);
    assert_eq!(stored_count(12), 12);
}
