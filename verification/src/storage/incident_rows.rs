//! Rows of the incident tables: their closed vocabularies, and the records they decode to.

use vstd::prelude::*;

use crate::ids::{OrgId, UserId};
use crate::incident::{
    next_state, successor, ActorType, IncidentEvent, IncidentEventKind, IncidentNotification,
    IncidentOrigin, IncidentSeverity, IncidentState, IncidentTransition, IncidentUrgency,
    IncidentVisibility, NotificationReason, NotificationStatus, OpsIncident, TransitionError,
};
use crate::storage::incident_ops::{event_kind, event_of, PendingNotification};
use crate::storage::incidents::severity_of;
use crate::strings::str_eq;
use crate::time::Timestamp;

verus! {

impl IncidentUrgency {
    /// The urgency as the database writes it.
    pub open spec fn db_name(self) -> Seq<char> {
        match self {
            IncidentUrgency::Low => "low"@,
            IncidentUrgency::High => "high"@,
        }
    }

    /// The urgency that a stored name stands for; the column's domain is closed, and a name
    /// outside it reads as low.
    pub open spec fn of_name(s: Seq<char>) -> IncidentUrgency {
        if s == "high"@ {
            IncidentUrgency::High
        } else {
            IncidentUrgency::Low
        }
    }

    /// The urgency as the database writes it.
    pub fn as_db_str(self) -> (r: &'static str)
        ensures
            r@ == self.db_name(),
            match self {
                IncidentUrgency::Low => r@ == "low"@,
                IncidentUrgency::High => r@ == "high"@,
            },
    {
        match self {
            IncidentUrgency::Low => "low",
            IncidentUrgency::High => "high",
        }
    }

    /// The urgency that a stored name stands for.
    pub fn from_db_str(s: &str) -> (r: IncidentUrgency)
        ensures
            r == IncidentUrgency::of_name(s@),
            r == (if s@ == "high"@ {
                IncidentUrgency::High
            } else {
                IncidentUrgency::Low
            }),
    {
        if str_eq(s, "high") {
            IncidentUrgency::High
        } else {
            IncidentUrgency::Low
        }
    }
}

impl IncidentOrigin {
    /// The origin as the database writes it.
    pub open spec fn db_name(self) -> Seq<char> {
        match self {
            IncidentOrigin::Monitor => "monitor"@,
            IncidentOrigin::Manual => "manual"@,
        }
    }

    /// The origin that a stored name stands for; the column's domain is closed, and a name
    /// outside it reads as monitor.
    pub open spec fn of_name(s: Seq<char>) -> IncidentOrigin {
        if s == "manual"@ {
            IncidentOrigin::Manual
        } else {
            IncidentOrigin::Monitor
        }
    }

    /// The origin as the database writes it.
    pub fn as_db_str(self) -> (r: &'static str)
        ensures
            r@ == self.db_name(),
            match self {
                IncidentOrigin::Monitor => r@ == "monitor"@,
                IncidentOrigin::Manual => r@ == "manual"@,
            },
    {
        match self {
            IncidentOrigin::Monitor => "monitor",
            IncidentOrigin::Manual => "manual",
        }
    }

    /// The origin that a stored name stands for.
    pub fn from_db_str(s: &str) -> (r: IncidentOrigin)
        ensures
            r == IncidentOrigin::of_name(s@),
            r == (if s@ == "manual"@ {
                IncidentOrigin::Manual
            } else {
                IncidentOrigin::Monitor
            }),
    {
        if str_eq(s, "manual") {
            IncidentOrigin::Manual
        } else {
            IncidentOrigin::Monitor
        }
    }
}

impl IncidentVisibility {
    /// The visibility as the database writes it.
    pub open spec fn db_name(self) -> Seq<char> {
        match self {
            IncidentVisibility::Internal => "internal"@,
            IncidentVisibility::Public => "public"@,
        }
    }

    /// The visibility that a stored name stands for; the column's domain is closed, and a name
    /// outside it reads as internal.
    pub open spec fn of_name(s: Seq<char>) -> IncidentVisibility {
        if s == "public"@ {
            IncidentVisibility::Public
        } else {
            IncidentVisibility::Internal
        }
    }

    /// The visibility as the database writes it.
    pub fn as_db_str(self) -> (r: &'static str)
        ensures
            r@ == self.db_name(),
            match self {
                IncidentVisibility::Internal => r@ == "internal"@,
                IncidentVisibility::Public => r@ == "public"@,
            },
    {
        match self {
            IncidentVisibility::Internal => "internal",
            IncidentVisibility::Public => "public",
        }
    }

    /// The visibility that a stored name stands for.
    pub fn from_db_str(s: &str) -> (r: IncidentVisibility)
        ensures
            r == IncidentVisibility::of_name(s@),
            r == (if s@ == "public"@ {
                IncidentVisibility::Public
            } else {
                IncidentVisibility::Internal
            }),
    {
        if str_eq(s, "public") {
            IncidentVisibility::Public
        } else {
            IncidentVisibility::Internal
        }
    }
}

impl ActorType {
    /// The kind of actor as the database writes it.
    pub open spec fn db_name(self) -> Seq<char> {
        match self {
            ActorType::System => "system"@,
            ActorType::User => "user"@,
            ActorType::Mcp => "mcp"@,
        }
    }

    /// The kind of actor that a stored name stands for; the column's domain is closed, and a name
    /// outside it reads as system.
    pub open spec fn of_name(s: Seq<char>) -> ActorType {
        if s == "user"@ {
            ActorType::User
        } else if s == "mcp"@ {
            ActorType::Mcp
        } else {
            ActorType::System
        }
    }

    /// The kind of actor as the database writes it.
    pub fn as_db_str(self) -> (r: &'static str)
        ensures
            r@ == self.db_name(),
            match self {
                ActorType::System => r@ == "system"@,
                ActorType::User => r@ == "user"@,
                ActorType::Mcp => r@ == "mcp"@,
            },
    {
        match self {
            ActorType::System => "system",
            ActorType::User => "user",
            ActorType::Mcp => "mcp",
        }
    }

    /// The kind of actor that a stored name stands for.
    pub fn from_db_str(s: &str) -> (r: ActorType)
        ensures
            r == ActorType::of_name(s@),
            r == (if s@ == "user"@ {
                ActorType::User
            } else if s@ == "mcp"@ {
                ActorType::Mcp
            } else {
                ActorType::System
            }),
    {
        if str_eq(s, "user") {
            ActorType::User
        } else if str_eq(s, "mcp") {
            ActorType::Mcp
        } else {
            ActorType::System
        }
    }
}

impl IncidentEventKind {
    /// The kind of entry as the database writes it.
    pub open spec fn db_name(self) -> Seq<char> {
        match self {
            IncidentEventKind::Triggered => "triggered"@,
            IncidentEventKind::Acknowledged => "acknowledged"@,
            IncidentEventKind::Resolved => "resolved"@,
            IncidentEventKind::Reopened => "reopened"@,
            IncidentEventKind::Assigned => "assigned"@,
            IncidentEventKind::Unassigned => "unassigned"@,
            IncidentEventKind::Note => "note"@,
            IncidentEventKind::Notified => "notified"@,
            IncidentEventKind::Escalated => "escalated"@,
            IncidentEventKind::Published => "published"@,
            IncidentEventKind::Unpublished => "unpublished"@,
        }
    }

    /// The kind of entry that a stored name stands for; the column's domain is closed, and a name
    /// outside it reads as note.
    pub open spec fn of_name(s: Seq<char>) -> IncidentEventKind {
        if s == "triggered"@ {
            IncidentEventKind::Triggered
        } else if s == "acknowledged"@ {
            IncidentEventKind::Acknowledged
        } else if s == "resolved"@ {
            IncidentEventKind::Resolved
        } else if s == "reopened"@ {
            IncidentEventKind::Reopened
        } else if s == "assigned"@ {
            IncidentEventKind::Assigned
        } else if s == "unassigned"@ {
            IncidentEventKind::Unassigned
        } else if s == "notified"@ {
            IncidentEventKind::Notified
        } else if s == "escalated"@ {
            IncidentEventKind::Escalated
        } else if s == "published"@ {
            IncidentEventKind::Published
        } else if s == "unpublished"@ {
            IncidentEventKind::Unpublished
        } else {
            IncidentEventKind::Note
        }
    }

    /// The kind of entry as the database writes it.
    pub fn as_db_str(self) -> (r: &'static str)
        ensures
            r@ == self.db_name(),
            match self {
                IncidentEventKind::Triggered => r@ == "triggered"@,
                IncidentEventKind::Acknowledged => r@ == "acknowledged"@,
                IncidentEventKind::Resolved => r@ == "resolved"@,
                IncidentEventKind::Reopened => r@ == "reopened"@,
                IncidentEventKind::Assigned => r@ == "assigned"@,
                IncidentEventKind::Unassigned => r@ == "unassigned"@,
                IncidentEventKind::Note => r@ == "note"@,
                IncidentEventKind::Notified => r@ == "notified"@,
                IncidentEventKind::Escalated => r@ == "escalated"@,
                IncidentEventKind::Published => r@ == "published"@,
                IncidentEventKind::Unpublished => r@ == "unpublished"@,
            },
    {
        match self {
            IncidentEventKind::Triggered => "triggered",
            IncidentEventKind::Acknowledged => "acknowledged",
            IncidentEventKind::Resolved => "resolved",
            IncidentEventKind::Reopened => "reopened",
            IncidentEventKind::Assigned => "assigned",
            IncidentEventKind::Unassigned => "unassigned",
            IncidentEventKind::Note => "note",
            IncidentEventKind::Notified => "notified",
            IncidentEventKind::Escalated => "escalated",
            IncidentEventKind::Published => "published",
            IncidentEventKind::Unpublished => "unpublished",
        }
    }

    /// The kind of entry that a stored name stands for.
    pub fn from_db_str(s: &str) -> (r: IncidentEventKind)
        ensures
            r == IncidentEventKind::of_name(s@),
            r == (if s@ == "triggered"@ {
                IncidentEventKind::Triggered
            } else if s@ == "acknowledged"@ {
                IncidentEventKind::Acknowledged
            } else if s@ == "resolved"@ {
                IncidentEventKind::Resolved
            } else if s@ == "reopened"@ {
                IncidentEventKind::Reopened
            } else if s@ == "assigned"@ {
                IncidentEventKind::Assigned
            } else if s@ == "unassigned"@ {
                IncidentEventKind::Unassigned
            } else if s@ == "notified"@ {
                IncidentEventKind::Notified
            } else if s@ == "escalated"@ {
                IncidentEventKind::Escalated
            } else if s@ == "published"@ {
                IncidentEventKind::Published
            } else if s@ == "unpublished"@ {
                IncidentEventKind::Unpublished
            } else {
                IncidentEventKind::Note
            }),
    {
        if str_eq(s, "triggered") {
            IncidentEventKind::Triggered
        } else if str_eq(s, "acknowledged") {
            IncidentEventKind::Acknowledged
        } else if str_eq(s, "resolved") {
            IncidentEventKind::Resolved
        } else if str_eq(s, "reopened") {
            IncidentEventKind::Reopened
        } else if str_eq(s, "assigned") {
            IncidentEventKind::Assigned
        } else if str_eq(s, "unassigned") {
            IncidentEventKind::Unassigned
        } else if str_eq(s, "notified") {
            IncidentEventKind::Notified
        } else if str_eq(s, "escalated") {
            IncidentEventKind::Escalated
        } else if str_eq(s, "published") {
            IncidentEventKind::Published
        } else if str_eq(s, "unpublished") {
            IncidentEventKind::Unpublished
        } else {
            IncidentEventKind::Note
        }
    }
}

impl NotificationReason {
    /// The reason as the database writes it.
    pub open spec fn db_name(self) -> Seq<char> {
        match self {
            NotificationReason::Triggered => "triggered"@,
            NotificationReason::Escalated => "escalated"@,
            NotificationReason::Acknowledged => "acknowledged"@,
            NotificationReason::Resolved => "resolved"@,
        }
    }

    /// The reason that a stored name stands for; the column's domain is closed, and a name
    /// outside it reads as triggered.
    pub open spec fn of_name(s: Seq<char>) -> NotificationReason {
        if s == "escalated"@ {
            NotificationReason::Escalated
        } else if s == "acknowledged"@ {
            NotificationReason::Acknowledged
        } else if s == "resolved"@ {
            NotificationReason::Resolved
        } else {
            NotificationReason::Triggered
        }
    }

    /// The reason as the database writes it.
    pub fn as_db_str(self) -> (r: &'static str)
        ensures
            r@ == self.db_name(),
            match self {
                NotificationReason::Triggered => r@ == "triggered"@,
                NotificationReason::Escalated => r@ == "escalated"@,
                NotificationReason::Acknowledged => r@ == "acknowledged"@,
                NotificationReason::Resolved => r@ == "resolved"@,
            },
    {
        match self {
            NotificationReason::Triggered => "triggered",
            NotificationReason::Escalated => "escalated",
            NotificationReason::Acknowledged => "acknowledged",
            NotificationReason::Resolved => "resolved",
        }
    }

    /// The reason that a stored name stands for.
    pub fn from_db_str(s: &str) -> (r: NotificationReason)
        ensures
            r == NotificationReason::of_name(s@),
            r == (if s@ == "escalated"@ {
                NotificationReason::Escalated
            } else if s@ == "acknowledged"@ {
                NotificationReason::Acknowledged
            } else if s@ == "resolved"@ {
                NotificationReason::Resolved
            } else {
                NotificationReason::Triggered
            }),
    {
        if str_eq(s, "escalated") {
            NotificationReason::Escalated
        } else if str_eq(s, "acknowledged") {
            NotificationReason::Acknowledged
        } else if str_eq(s, "resolved") {
            NotificationReason::Resolved
        } else {
            NotificationReason::Triggered
        }
    }
}

impl NotificationStatus {
    /// The status as the database writes it.
    pub open spec fn db_name(self) -> Seq<char> {
        match self {
            NotificationStatus::Queued => "queued"@,
            NotificationStatus::Sent => "sent"@,
            NotificationStatus::Failed => "failed"@,
        }
    }

    /// The status that a stored name stands for; the column's domain is closed, and a name
    /// outside it reads as queued.
    pub open spec fn of_name(s: Seq<char>) -> NotificationStatus {
        if s == "sent"@ {
            NotificationStatus::Sent
        } else if s == "failed"@ {
            NotificationStatus::Failed
        } else {
            NotificationStatus::Queued
        }
    }

    /// The status as the database writes it.
    pub fn as_db_str(self) -> (r: &'static str)
        ensures
            r@ == self.db_name(),
            match self {
                NotificationStatus::Queued => r@ == "queued"@,
                NotificationStatus::Sent => r@ == "sent"@,
                NotificationStatus::Failed => r@ == "failed"@,
            },
    {
        match self {
            NotificationStatus::Queued => "queued",
            NotificationStatus::Sent => "sent",
            NotificationStatus::Failed => "failed",
        }
    }

    /// The status that a stored name stands for.
    pub fn from_db_str(s: &str) -> (r: NotificationStatus)
        ensures
            r == NotificationStatus::of_name(s@),
            r == (if s@ == "sent"@ {
                NotificationStatus::Sent
            } else if s@ == "failed"@ {
                NotificationStatus::Failed
            } else {
                NotificationStatus::Queued
            }),
    {
        if str_eq(s, "sent") {
            NotificationStatus::Sent
        } else if str_eq(s, "failed") {
            NotificationStatus::Failed
        } else {
            NotificationStatus::Queued
        }
    }
}

/// Every name that is written reads back.
pub proof fn law_stored_names_read_back(
    a: IncidentUrgency,
    b: IncidentOrigin,
    c: IncidentVisibility,
    d: ActorType,
    e: IncidentEventKind,
    f: NotificationReason,
    g: NotificationStatus,
)
    ensures
        IncidentUrgency::of_name(a.db_name()) == a,
        IncidentOrigin::of_name(b.db_name()) == b,
        IncidentVisibility::of_name(c.db_name()) == c,
        ActorType::of_name(d.db_name()) == d,
        IncidentEventKind::of_name(e.db_name()) == e,
        NotificationReason::of_name(f.db_name()) == f,
        NotificationStatus::of_name(g.db_name()) == g,
{
    reveal_strlit("acknowledged");
    reveal_strlit("assigned");
    reveal_strlit("escalated");
    reveal_strlit("failed");
    reveal_strlit("high");
    reveal_strlit("internal");
    reveal_strlit("low");
    reveal_strlit("manual");
    reveal_strlit("mcp");
    reveal_strlit("monitor");
    reveal_strlit("note");
    reveal_strlit("notified");
    reveal_strlit("public");
    reveal_strlit("published");
    reveal_strlit("queued");
    reveal_strlit("reopened");
    reveal_strlit("resolved");
    reveal_strlit("sent");
    reveal_strlit("system");
    reveal_strlit("triggered");
    reveal_strlit("unassigned");
    reveal_strlit("unpublished");
    reveal_strlit("user");
    assert("low"@.len() != "high"@.len());
    assert("monitor"@.len() != "manual"@.len());
    assert("internal"@.len() != "public"@.len());
    assert("system"@.len() != "user"@.len());
    assert("system"@.len() != "mcp"@.len());
    assert("user"@.len() != "mcp"@.len());
    assert("triggered"@.len() != "acknowledged"@.len());
    assert("triggered"@.len() != "resolved"@.len());
    assert("triggered"@.len() != "reopened"@.len());
    assert("triggered"@.len() != "assigned"@.len());
    assert("triggered"@.len() != "unassigned"@.len());
    assert("triggered"@.len() != "note"@.len());
    assert("triggered"@.len() != "notified"@.len());
    assert("triggered"@[0] != "escalated"@[0]);
    assert("triggered"@[0] != "published"@[0]);
    assert("triggered"@.len() != "unpublished"@.len());
    assert("acknowledged"@.len() != "resolved"@.len());
    assert("acknowledged"@.len() != "reopened"@.len());
    assert("acknowledged"@.len() != "assigned"@.len());
    assert("acknowledged"@.len() != "unassigned"@.len());
    assert("acknowledged"@.len() != "note"@.len());
    assert("acknowledged"@.len() != "notified"@.len());
    assert("acknowledged"@.len() != "escalated"@.len());
    assert("acknowledged"@.len() != "published"@.len());
    assert("acknowledged"@.len() != "unpublished"@.len());
    assert("resolved"@[2] != "reopened"@[2]);
    assert("resolved"@[0] != "assigned"@[0]);
    assert("resolved"@.len() != "unassigned"@.len());
    assert("resolved"@.len() != "note"@.len());
    assert("resolved"@[0] != "notified"@[0]);
    assert("resolved"@.len() != "escalated"@.len());
    assert("resolved"@.len() != "published"@.len());
    assert("resolved"@.len() != "unpublished"@.len());
    assert("reopened"@[0] != "assigned"@[0]);
    assert("reopened"@.len() != "unassigned"@.len());
    assert("reopened"@.len() != "note"@.len());
    assert("reopened"@[0] != "notified"@[0]);
    assert("reopened"@.len() != "escalated"@.len());
    assert("reopened"@.len() != "published"@.len());
    assert("reopened"@.len() != "unpublished"@.len());
    assert("assigned"@.len() != "unassigned"@.len());
    assert("assigned"@.len() != "note"@.len());
    assert("assigned"@[0] != "notified"@[0]);
    assert("assigned"@.len() != "escalated"@.len());
    assert("assigned"@.len() != "published"@.len());
    assert("assigned"@.len() != "unpublished"@.len());
    assert("unassigned"@.len() != "note"@.len());
    assert("unassigned"@.len() != "notified"@.len());
    assert("unassigned"@.len() != "escalated"@.len());
    assert("unassigned"@.len() != "published"@.len());
    assert("unassigned"@.len() != "unpublished"@.len());
    assert("note"@.len() != "notified"@.len());
    assert("note"@.len() != "escalated"@.len());
    assert("note"@.len() != "published"@.len());
    assert("note"@.len() != "unpublished"@.len());
    assert("notified"@.len() != "escalated"@.len());
    assert("notified"@.len() != "published"@.len());
    assert("notified"@.len() != "unpublished"@.len());
    assert("escalated"@[0] != "published"@[0]);
    assert("escalated"@.len() != "unpublished"@.len());
    assert("published"@.len() != "unpublished"@.len());
    assert("escalated"@.len() != "acknowledged"@.len());
    assert("escalated"@.len() != "resolved"@.len());
    assert("queued"@.len() != "sent"@.len());
    assert("queued"@[0] != "failed"@[0]);
    assert("sent"@.len() != "failed"@.len());
}

/// The state that a stored name stands for.
pub open spec fn state_of(s: Seq<char>) -> IncidentState {
    if s == "acknowledged"@ {
        IncidentState::Acknowledged
    } else if s == "resolved"@ {
        IncidentState::Resolved
    } else {
        IncidentState::Triggered
    }
}

/// An incident's row.
#[derive(Debug)]
pub struct OpsIncidentRow {
    pub id: u128,
    pub target_id: Option<u128>,
    pub title: Option<String>,
    pub state: String,
    pub severity: String,
    pub urgency: String,
    pub origin: String,
    pub visibility: String,
    pub paging_enabled: bool,
    pub counts_as_downtime: bool,
    pub started_at: Timestamp,
    pub ended_at: Option<Timestamp>,
    pub acknowledged_at: Option<Timestamp>,
    pub acknowledged_by: Option<UserId>,
    pub assigned_to: Option<UserId>,
    pub resolved_by: Option<UserId>,
    pub escalation_policy_id: Option<u128>,
    pub escalation_level: i32,
    pub escalation_round: i32,
    pub next_escalation_at: Option<Timestamp>,
    pub check_count: i32,
    pub error_sample: Option<String>,
    pub regions_down: Vec<String>,
    pub regions_up: Vec<String>,
    pub created_at: Timestamp,
    pub updated_at: Timestamp,
}

/// The incident of a row. A negative check count reads as none.
pub fn row_to_ops(r: OpsIncidentRow) -> (i: OpsIncident)
    ensures
        i == (OpsIncident {
            id: r.id,
            target_id: r.target_id,
            title: r.title,
            state: state_of(r.state@),
            severity: severity_of(r.severity@),
            urgency: IncidentUrgency::of_name(r.urgency@),
            origin: IncidentOrigin::of_name(r.origin@),
            visibility: IncidentVisibility::of_name(r.visibility@),
            paging_enabled: r.paging_enabled,
            counts_as_downtime: r.counts_as_downtime,
            started_at: r.started_at,
            ended_at: r.ended_at,
            acknowledged_at: r.acknowledged_at,
            acknowledged_by: r.acknowledged_by,
            assigned_to: r.assigned_to,
            resolved_by: r.resolved_by,
            escalation_policy_id: r.escalation_policy_id,
            escalation_level: r.escalation_level,
            escalation_round: r.escalation_round,
            next_escalation_at: r.next_escalation_at,
            check_count: if r.check_count < 0 {
                0
            } else {
                r.check_count as u64
            },
            error_sample: r.error_sample,
            regions_down: r.regions_down,
            regions_up: r.regions_up,
            created_at: r.created_at,
            updated_at: r.updated_at,
        }),
{
    let state = IncidentState::from_db_str(r.state.as_str());
    let severity = IncidentSeverity::from_db_str(r.severity.as_str());
    let urgency = IncidentUrgency::from_db_str(r.urgency.as_str());
    let origin = IncidentOrigin::from_db_str(r.origin.as_str());
    let visibility = IncidentVisibility::from_db_str(r.visibility.as_str());
    let check_count: u64 = if r.check_count < 0 {
        0
    } else {
        r.check_count as u64
    };
    OpsIncident {
        id: r.id,
        target_id: r.target_id,
        title: r.title,
        state,
        severity,
        urgency,
        origin,
        visibility,
        paging_enabled: r.paging_enabled,
        counts_as_downtime: r.counts_as_downtime,
        started_at: r.started_at,
        ended_at: r.ended_at,
        acknowledged_at: r.acknowledged_at,
        acknowledged_by: r.acknowledged_by,
        assigned_to: r.assigned_to,
        resolved_by: r.resolved_by,
        escalation_policy_id: r.escalation_policy_id,
        escalation_level: r.escalation_level,
        escalation_round: r.escalation_round,
        next_escalation_at: r.next_escalation_at,
        check_count,
        error_sample: r.error_sample,
        regions_down: r.regions_down,
        regions_up: r.regions_up,
        created_at: r.created_at,
        updated_at: r.updated_at,
    }
}

/// A timeline entry's row, its detail as JSON text.
#[derive(Debug)]
pub struct EventRow {
    pub id: u128,
    pub incident_id: u128,
    pub occurred_at: Timestamp,
    pub kind: String,
    pub actor_type: String,
    pub actor_id: Option<UserId>,
    pub detail: String,
    pub message: Option<String>,
}

/// The timeline entry of a row.
pub fn row_to_event(r: EventRow) -> (e: IncidentEvent)
    ensures
        e == (IncidentEvent {
            id: r.id,
            incident_id: r.incident_id,
            occurred_at: r.occurred_at,
            kind: IncidentEventKind::of_name(r.kind@),
            actor_type: ActorType::of_name(r.actor_type@),
            actor_id: r.actor_id,
            detail: r.detail,
            message: r.message,
        }),
{
    let kind = IncidentEventKind::from_db_str(r.kind.as_str());
    let actor_type = ActorType::from_db_str(r.actor_type.as_str());
    IncidentEvent {
        id: r.id,
        incident_id: r.incident_id,
        occurred_at: r.occurred_at,
        kind,
        actor_type,
        actor_id: r.actor_id,
        detail: r.detail,
        message: r.message,
    }
}

/// A paging attempt's row.
#[derive(Debug)]
pub struct NotifRow {
    pub id: u128,
    pub incident_id: u128,
    pub escalation_level: Option<i32>,
    pub target_user_id: Option<UserId>,
    pub channel_id: Option<u128>,
    pub transport: String,
    pub reason: String,
    pub status: String,
    pub attempt: i32,
    pub error: Option<String>,
    pub created_at: Timestamp,
    pub sent_at: Option<Timestamp>,
}

/// The paging attempt of a row.
pub fn row_to_notif(r: NotifRow) -> (n: IncidentNotification)
    ensures
        n == (IncidentNotification {
            id: r.id,
            incident_id: r.incident_id,
            escalation_level: r.escalation_level,
            target_user_id: r.target_user_id,
            channel_id: r.channel_id,
            transport: r.transport,
            reason: NotificationReason::of_name(r.reason@),
            status: NotificationStatus::of_name(r.status@),
            attempt: r.attempt,
            error: r.error,
            created_at: r.created_at,
            sent_at: r.sent_at,
        }),
{
    let reason = NotificationReason::from_db_str(r.reason.as_str());
    let status = NotificationStatus::from_db_str(r.status.as_str());
    IncidentNotification {
        id: r.id,
        incident_id: r.incident_id,
        escalation_level: r.escalation_level,
        target_user_id: r.target_user_id,
        channel_id: r.channel_id,
        transport: r.transport,
        reason,
        status,
        attempt: r.attempt,
        error: r.error,
        created_at: r.created_at,
        sent_at: r.sent_at,
    }
}

/// A failed attempt's row.
#[derive(Debug)]
pub struct PendingRow {
    pub id: u128,
    pub org_id: u128,
    pub incident_id: u128,
    pub channel_id: Option<u128>,
    pub transport: String,
    pub reason: String,
    pub attempt: i32,
}

/// The attempt to repeat of a row.
pub fn row_to_pending(r: PendingRow) -> (p: PendingNotification)
    ensures
        p == (PendingNotification {
            id: r.id,
            org: OrgId(r.org_id),
            incident_id: r.incident_id,
            channel_id: r.channel_id,
            transport: r.transport,
            reason: NotificationReason::of_name(r.reason@),
            attempt: r.attempt,
        }),
{
    let reason = NotificationReason::from_db_str(r.reason.as_str());
    PendingNotification {
        id: r.id,
        org: OrgId(r.org_id),
        incident_id: r.incident_id,
        channel_id: r.channel_id,
        transport: r.transport,
        reason,
        attempt: r.attempt,
    }
}

/// What a requested transition comes to.
#[derive(Debug, Clone, Copy, PartialEq, Eq, Structural)]
pub enum TransitionStep {
    /// The org has no such incident.
    NotFound,
    /// The incident's state does not allow it; nothing is written.
    Illegal(TransitionError),
    /// Write the transition and log this kind of entry with it.
    Apply(IncidentEventKind),
}

/// What a requested transition comes to, from the incident's stored state where there is
/// one.
pub fn transition_step(state: Option<&str>, t: IncidentTransition) -> (r: TransitionStep)
    ensures
        match state {
            None => r is NotFound,
            Some(s) => match successor(state_of(s@), t) {
                Some(_) => r == TransitionStep::Apply(event_of(t)),
                None => r == TransitionStep::Illegal(
                    TransitionError { from: state_of(s@), transition: t },
                ),
            },
        },
{
    match state {
        None => TransitionStep::NotFound,
        Some(s) => {
            let from = IncidentState::from_db_str(s);
            match next_state(from, t) {
                Ok(_) => TransitionStep::Apply(event_kind(t)),
                Err(e) => TransitionStep::Illegal(e),
            }
        },
    }
}

/// The entry that an assignment leaves.
pub fn assign_event(assignee: Option<UserId>) -> (r: IncidentEventKind)
    ensures
        r == (if assignee is Some {
            IncidentEventKind::Assigned
        } else {
            IncidentEventKind::Unassigned
        }),
{
    if assignee.is_some() {
        IncidentEventKind::Assigned
    } else {
        IncidentEventKind::Unassigned
    }
}

/// The page size of a list: a hundred where none is asked for, one at least and a thousand
/// at most.
pub fn list_cap(limit: Option<usize>) -> (r: i64)
    ensures
        r == (match limit {
            None => 100int,
            Some(n) => if n < 1 {
                1int
            } else if n > 1000 {
                1000int
            } else {
                n as int
            },
        }),
{
    match limit {
        None => 100,
        Some(n) => if n < 1 {
            1
        } else if n > 1000 {
            1000
        } else {
            n as i64
        },
    }
}

/// The page size of a walk over attempts to repeat: one at least and a thousand at most. A
/// limit that 64 signed bits do not hold counts as none.
pub fn pending_cap(limit: usize) -> (r: i64)
    ensures
        r == (if limit < 1 || limit > i64::MAX {
            1int
        } else if limit > 1000 {
            1000int
        } else {
            limit as int
        }),
{
    if limit < 1 || limit as u64 > i64::MAX as u64 {
        1
    } else if limit > 1000 {
        1000
    } else {
        limit as i64
    }
}

/// A stored count. A negative one counts as none.
pub fn stored_count(n: i64) -> (r: u64)
    ensures
        r == (if n < 0 {
            0int
        } else {
            n as int
        }),
{
    if n < 0 {
        0
    } else {
        n as u64
    }
}

/// A transition that the stored state allows is written with an entry of its own kind: an
/// acknowledgement, a resolution, by hand or by recovery, or a reopening. A stored name that is
/// neither acknowledged nor resolved is an open incident.
pub proof fn law_a_step_logs_its_kind(name: Seq<char>)
    ensures
        event_of(IncidentTransition::Acknowledge) == IncidentEventKind::Acknowledged,
        event_of(IncidentTransition::Resolve) == IncidentEventKind::Resolved,
        event_of(IncidentTransition::AutoResolve) == IncidentEventKind::Resolved,
        event_of(IncidentTransition::Reopen) == IncidentEventKind::Reopened,
        name == "acknowledged"@ ==> state_of(name) == IncidentState::Acknowledged,
        name == "resolved"@ && name != "acknowledged"@ ==> state_of(name)
            == IncidentState::Resolved,
        name != "resolved"@ && name != "acknowledged"@ ==> state_of(name)
            == IncidentState::Triggered,
{
}

} // verus!
