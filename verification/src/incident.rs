//! Incidents: their states, the transitions between them, and the records that
//! an incident carries.

use vstd::prelude::*;

use crate::ids::{OrgId, UserId};
use crate::strings::{opt_clone, str_eq, views};
use crate::time::Timestamp;

verus! {

/// Where an incident stands.
#[derive(Debug, Clone, Copy, PartialEq, Eq, Structural)]
pub enum IncidentState {
    Triggered,
    Acknowledged,
    Resolved,
}

impl IncidentState {
    pub open spec fn db_name(self) -> Seq<char> {
        match self {
            IncidentState::Triggered => "triggered"@,
            IncidentState::Acknowledged => "acknowledged"@,
            IncidentState::Resolved => "resolved"@,
        }
    }

    pub fn as_db_str(self) -> (r: &'static str)
        ensures
            r@ == self.db_name(),
            match self {
                IncidentState::Triggered => r@ == "triggered"@,
                IncidentState::Acknowledged => r@ == "acknowledged"@,
                IncidentState::Resolved => r@ == "resolved"@,
            },
    {
        match self {
            IncidentState::Triggered => "triggered",
            IncidentState::Acknowledged => "acknowledged",
            IncidentState::Resolved => "resolved",
        }
    }

    /// The state that a stored name stands for; the column's domain is closed,
    /// and a name outside it reads as triggered.
    pub fn from_db_str(s: &str) -> (r: IncidentState)
        ensures
            s@ == "acknowledged"@ ==> r == IncidentState::Acknowledged,
            s@ == "resolved"@ && s@ != "acknowledged"@ ==> r == IncidentState::Resolved,
            s@ != "acknowledged"@ && s@ != "resolved"@ ==> r == IncidentState::Triggered,
    {
        if str_eq(s, "acknowledged") {
            IncidentState::Acknowledged
        } else if str_eq(s, "resolved") {
            IncidentState::Resolved
        } else {
            IncidentState::Triggered
        }
    }
}

/// What is asked of an incident.
#[derive(Debug, Clone, Copy, PartialEq, Eq, Structural)]
pub enum IncidentTransition {
    Acknowledge,
    Resolve,
    AutoResolve,
    Reopen,
}

/// A transition that the state does not allow.
#[derive(Debug, Clone, Copy, PartialEq, Eq, Structural)]
pub struct TransitionError {
    pub from: IncidentState,
    pub transition: IncidentTransition,
}

/// Where a transition leads, if the state allows it: an open incident can be
/// acknowledged (again, without effect on who took it first) and resolved; only
/// a resolved one can be reopened.
pub open spec fn successor(from: IncidentState, t: IncidentTransition) -> Option<IncidentState> {
    match (from, t) {
        (IncidentState::Resolved, IncidentTransition::Reopen) => Some(IncidentState::Triggered),
        (IncidentState::Resolved, _) => None,
        (_, IncidentTransition::Acknowledge) => Some(IncidentState::Acknowledged),
        (_, IncidentTransition::Resolve) => Some(IncidentState::Resolved),
        (_, IncidentTransition::AutoResolve) => Some(IncidentState::Resolved),
        (_, IncidentTransition::Reopen) => None,
    }
}

/// The state machine of an incident's lifecycle.
pub fn next_state(from: IncidentState, t: IncidentTransition) -> (r: Result<
    IncidentState,
    TransitionError,
>)
    ensures
        match r {
            Ok(to) => successor(from, t) == Some(to),
            Err(e) => successor(from, t) is None && e == (TransitionError { from, transition: t }),
        },
{
    match (from, t) {
        (IncidentState::Resolved, IncidentTransition::Reopen) => Ok(IncidentState::Triggered),
        (IncidentState::Resolved, _) => Err(TransitionError { from, transition: t }),
        (_, IncidentTransition::Acknowledge) => Ok(IncidentState::Acknowledged),
        (_, IncidentTransition::Resolve) => Ok(IncidentState::Resolved),
        (_, IncidentTransition::AutoResolve) => Ok(IncidentState::Resolved),
        (_, IncidentTransition::Reopen) => Err(TransitionError { from, transition: t }),
    }
}

#[derive(Debug, Clone, Copy, PartialEq, Eq, Structural)]
pub enum IncidentSeverity {
    Minor,
    Major,
    Critical,
}

impl IncidentSeverity {
    pub open spec fn db_name(self) -> Seq<char> {
        match self {
            IncidentSeverity::Minor => "minor"@,
            IncidentSeverity::Major => "major"@,
            IncidentSeverity::Critical => "critical"@,
        }
    }

    pub fn as_db_str(self) -> (r: &'static str)
        ensures
            r@ == self.db_name(),
            match self {
                IncidentSeverity::Minor => r@ == "minor"@,
                IncidentSeverity::Major => r@ == "major"@,
                IncidentSeverity::Critical => r@ == "critical"@,
            },
    {
        match self {
            IncidentSeverity::Minor => "minor",
            IncidentSeverity::Major => "major",
            IncidentSeverity::Critical => "critical",
        }
    }

    /// The severity that a stored name stands for; the column's domain is closed,
    /// and a name outside it reads as minor.
    pub fn from_db_str(s: &str) -> (r: IncidentSeverity)
        ensures
            s@ == "critical"@ ==> r == IncidentSeverity::Critical,
            s@ == "major"@ && s@ != "critical"@ ==> r == IncidentSeverity::Major,
            s@ != "critical"@ && s@ != "major"@ ==> r == IncidentSeverity::Minor,
    {
        if str_eq(s, "critical") {
            IncidentSeverity::Critical
        } else if str_eq(s, "major") {
            IncidentSeverity::Major
        } else {
            IncidentSeverity::Minor
        }
    }
}

#[derive(Debug, Clone, Copy, PartialEq, Eq, Structural)]
pub enum IncidentUrgency {
    Low,
    High,
}

#[derive(Debug, Clone, Copy, PartialEq, Eq, Structural)]
pub enum IncidentOrigin {
    Monitor,
    Manual,
}

#[derive(Debug, Clone, Copy, PartialEq, Eq, Structural)]
pub enum IncidentVisibility {
    Internal,
    Public,
}

/// What kind of actor did something.
#[derive(Debug, Clone, Copy, PartialEq, Eq, Structural)]
pub enum ActorType {
    System,
    User,
    Mcp,
}

/// What a timeline entry records.
#[derive(Debug, Clone, Copy, PartialEq, Eq, Structural)]
pub enum IncidentEventKind {
    Triggered,
    Acknowledged,
    Resolved,
    Reopened,
    Assigned,
    Unassigned,
    Note,
    Notified,
    Escalated,
    Published,
    Unpublished,
}

/// One entry of an incident's internal timeline.
#[derive(Debug)]
pub struct IncidentEvent {
    pub id: u128,
    pub incident_id: u128,
    pub occurred_at: Timestamp,
    pub kind: IncidentEventKind,
    pub actor_type: ActorType,
    pub actor_id: Option<UserId>,
    /// JSON text.
    pub detail: String,
    pub message: Option<String>,
}

impl Clone for IncidentEvent {
    fn clone(&self) -> (r: Self)
        ensures
            r == *self,
    {
        IncidentEvent {
            id: self.id,
            incident_id: self.incident_id,
            occurred_at: self.occurred_at,
            kind: self.kind,
            actor_type: self.actor_type,
            actor_id: self.actor_id,
            detail: self.detail.clone(),
            message: opt_clone(&self.message),
        }
    }
}

/// Why a page was sent.
#[derive(Debug, Clone, Copy, PartialEq, Eq, Structural)]
pub enum NotificationReason {
    Triggered,
    Escalated,
    Acknowledged,
    Resolved,
}

#[derive(Debug, Clone, Copy, PartialEq, Eq, Structural)]
pub enum NotificationStatus {
    Queued,
    Sent,
    Failed,
}

/// One paging attempt.
#[derive(Debug)]
pub struct IncidentNotification {
    pub id: u128,
    pub incident_id: u128,
    pub escalation_level: Option<i32>,
    pub target_user_id: Option<UserId>,
    pub channel_id: Option<u128>,
    pub transport: String,
    pub reason: NotificationReason,
    pub status: NotificationStatus,
    pub attempt: i32,
    pub error: Option<String>,
    pub created_at: Timestamp,
    pub sent_at: Option<Timestamp>,
}

impl Clone for IncidentNotification {
    fn clone(&self) -> (r: Self)
        ensures
            r == *self,
    {
        IncidentNotification {
            id: self.id,
            incident_id: self.incident_id,
            escalation_level: self.escalation_level,
            target_user_id: self.target_user_id,
            channel_id: self.channel_id,
            transport: self.transport.clone(),
            reason: self.reason,
            status: self.status,
            attempt: self.attempt,
            error: opt_clone(&self.error),
            created_at: self.created_at,
            sent_at: self.sent_at,
        }
    }
}

/// A paging attempt to be recorded.
#[derive(Debug)]
pub struct NewIncidentNotification {
    pub org: OrgId,
    pub incident_id: u128,
    pub escalation_level: Option<i32>,
    pub target_user_id: Option<UserId>,
    pub channel_id: Option<u128>,
    pub transport: String,
    pub reason: NotificationReason,
    pub status: NotificationStatus,
    pub attempt: i32,
    pub error: Option<String>,
    pub sent_at: Option<Timestamp>,
}

/// An incident that a human declares.
#[derive(Debug)]
pub struct NewManualIncident {
    pub target_id: Option<u128>,
    pub title: Option<String>,
    pub severity: IncidentSeverity,
    pub urgency: IncidentUrgency,
}

/// An incident as operations sees it.
#[derive(Debug)]
pub struct OpsIncident {
    pub id: u128,
    pub target_id: Option<u128>,
    pub title: Option<String>,
    pub state: IncidentState,
    pub severity: IncidentSeverity,
    pub urgency: IncidentUrgency,
    pub origin: IncidentOrigin,
    pub visibility: IncidentVisibility,
    pub paging_enabled: bool,
    pub counts_as_downtime: bool,
    pub started_at: Timestamp,
    pub ended_at: Option<Timestamp>,
    pub acknowledged_at: Option<Timestamp>,
    pub acknowledged_by: Option<UserId>,
    pub assigned_to: Option<UserId>,
    pub resolved_by: Option<UserId>,
    pub escalation_policy_id: Option<u128>,
    pub escalation_level: i32,
    pub escalation_round: i32,
    pub next_escalation_at: Option<Timestamp>,
    pub check_count: u64,
    pub error_sample: Option<String>,
    pub regions_down: Vec<String>,
    pub regions_up: Vec<String>,
    pub created_at: Timestamp,
    pub updated_at: Timestamp,
}

impl OpsIncident {
    /// Both hold the same values.
    pub open spec fn same(self, o: OpsIncident) -> bool {
        &&& views(self.regions_down@) == views(o.regions_down@)
        &&& views(self.regions_up@) == views(o.regions_up@)
        &&& self == (OpsIncident {
            regions_down: self.regions_down,
            regions_up: self.regions_up,
            ..o
        })
    }
}

/// Clones of the strings of a vector.
pub fn clone_strings(v: &Vec<String>) -> (out: Vec<String>)
    ensures
        out@ == v@,
{
    crate::collections::clone_all(v)
}

impl Clone for OpsIncident {
    fn clone(&self) -> (r: Self)
        ensures
            r.same(*self),
    {
        OpsIncident {
            id: self.id,
            target_id: self.target_id,
            title: opt_clone(&self.title),
            state: self.state,
            severity: self.severity,
            urgency: self.urgency,
            origin: self.origin,
            visibility: self.visibility,
            paging_enabled: self.paging_enabled,
            counts_as_downtime: self.counts_as_downtime,
            started_at: self.started_at,
            ended_at: self.ended_at,
            acknowledged_at: self.acknowledged_at,
            acknowledged_by: self.acknowledged_by,
            assigned_to: self.assigned_to,
            resolved_by: self.resolved_by,
            escalation_policy_id: self.escalation_policy_id,
            escalation_level: self.escalation_level,
            escalation_round: self.escalation_round,
            next_escalation_at: self.next_escalation_at,
            check_count: self.check_count,
            error_sample: opt_clone(&self.error_sample),
            regions_down: clone_strings(&self.regions_down),
            regions_up: clone_strings(&self.regions_up),
            created_at: self.created_at,
            updated_at: self.updated_at,
        }
    }
}

/// An incident that is open can be acknowledged and resolved, by hand or by recovery, and not
/// reopened; a resolved one can only be reopened, and is triggered again.
pub proof fn law_what_leads_where(from: IncidentState)
    ensures
        from != IncidentState::Resolved ==> {
            &&& successor(from, IncidentTransition::Acknowledge) == Some(
                IncidentState::Acknowledged,
            )
            &&& successor(from, IncidentTransition::Resolve) == Some(IncidentState::Resolved)
            &&& successor(from, IncidentTransition::AutoResolve) == Some(IncidentState::Resolved)
            &&& successor(from, IncidentTransition::Reopen) is None
        },
        successor(IncidentState::Resolved, IncidentTransition::Reopen) == Some(
            IncidentState::Triggered,
        ),
        successor(IncidentState::Resolved, IncidentTransition::Acknowledge) is None,
        successor(IncidentState::Resolved, IncidentTransition::Resolve) is None,
        successor(IncidentState::Resolved, IncidentTransition::AutoResolve) is None,
{
}

/// Two incidents that are the same agree in every field, and in each region that they name.
pub proof fn law_the_same_incident_agrees_in_every_field(a: OpsIncident, b: OpsIncident)
    requires
        a.same(b),
    ensures
        a.id == b.id && a.target_id == b.target_id && a.title == b.title,
        a.state == b.state && a.severity == b.severity && a.urgency == b.urgency,
        a.origin == b.origin && a.visibility == b.visibility,
        a.paging_enabled == b.paging_enabled && a.counts_as_downtime == b.counts_as_downtime,
        a.started_at == b.started_at && a.ended_at == b.ended_at,
        a.acknowledged_at == b.acknowledged_at && a.acknowledged_by == b.acknowledged_by,
        a.assigned_to == b.assigned_to && a.resolved_by == b.resolved_by,
        a.escalation_policy_id == b.escalation_policy_id,
        a.escalation_level == b.escalation_level && a.escalation_round == b.escalation_round,
        a.next_escalation_at == b.next_escalation_at,
        a.check_count == b.check_count && a.error_sample == b.error_sample,
        a.created_at == b.created_at && a.updated_at == b.updated_at,
        a.regions_down@.len() == b.regions_down@.len(),
        a.regions_up@.len() == b.regions_up@.len(),
        forall|i: int|
            0 <= i < a.regions_down@.len() ==> (#[trigger] a.regions_down@[i])@
                == b.regions_down@[i]@,
        forall|i: int|
            0 <= i < a.regions_up@.len() ==> (#[trigger] a.regions_up@[i])@ == b.regions_up@[i]@,
{
    let (da, db) = (views(a.regions_down@), views(b.regions_down@));
    let (ua, ub) = (views(a.regions_up@), views(b.regions_up@));
    assert(da.len() == a.regions_down@.len() && db.len() == b.regions_down@.len());
    assert(ua.len() == a.regions_up@.len() && ub.len() == b.regions_up@.len());
    assert forall|i: int| 0 <= i < a.regions_down@.len() implies (#[trigger] a.regions_down@[i])@
        == b.regions_down@[i]@ by {
        assert(da[i] == db[i]);
    }
    assert forall|i: int| 0 <= i < a.regions_up@.len() implies (#[trigger] a.regions_up@[i])@
        == b.regions_up@[i]@ by {
        assert(ua[i] == ub[i]);
    }
}

} // verus!
