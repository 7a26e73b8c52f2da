//! Operational incident lifecycle.
//!
//! Separate from public narration: this module owns the *internal* operational
//! surface — the state machine (acknowledge / assign / resolve / reopen), the
//! internal activity log, and the read model that backs the operator console.
//! One in-memory store holds one tenant's incidents and matches on id alone; the
//! database filters by org in every statement.

use vstd::prelude::*;

use crate::collections::{
    count_where, derefs, index_where, lemma_filter_members, lemma_index_where, lemma_index_where_is,
    lemma_index_where_none, lemma_listing, lemma_stable_sorted, page_of, page_refs, position,
    select, select_refs, sort_refs, stable_sort, stable_sorted,
};
use crate::ids::{fresh_id, OrgId, UserId};
use crate::incident::{
    next_state, successor, ActorType, IncidentEvent, IncidentEventKind, IncidentNotification,
    IncidentOrigin, IncidentSeverity, IncidentState, IncidentTransition, IncidentVisibility,
    NewIncidentNotification, NewManualIncident, NotificationReason, NotificationStatus, OpsIncident,
    TransitionError,
};
use crate::strings::{opt_str_view, opt_view, owned, trim, trimmed};
use crate::time::{now, Timestamp};

verus! {

/// Who is performing an action.
#[derive(Debug, Clone, Copy, PartialEq, Eq, Structural)]
pub enum Actor {
    System,
    User(UserId),
    Mcp(UserId),
}

impl Actor {
    pub open spec fn kind(self) -> ActorType {
        match self {
            Actor::System => ActorType::System,
            Actor::User(_) => ActorType::User,
            Actor::Mcp(_) => ActorType::Mcp,
        }
    }

    pub open spec fn user(self) -> Option<UserId> {
        match self {
            Actor::System => None,
            Actor::User(u) => Some(u),
            Actor::Mcp(u) => Some(u),
        }
    }

    pub fn actor_type(self) -> (r: ActorType)
        ensures
            r == self.kind(),
    {
        match self {
            Actor::System => ActorType::System,
            Actor::User(_) => ActorType::User,
            Actor::Mcp(_) => ActorType::Mcp,
        }
    }

    pub fn user_id(self) -> (r: Option<UserId>)
        ensures
            r == self.user(),
    {
        match self {
            Actor::System => None,
            Actor::User(u) => Some(u),
            Actor::Mcp(u) => Some(u),
        }
    }
}

/// Result of a lifecycle mutation: distinguishes a missing incident from an
/// illegal transition (which the API layer maps to 409, not 404).
#[derive(Debug)]
pub enum LifecycleOutcome {
    Updated(Box<OpsIncident>),
    NotFound,
    IllegalTransition(TransitionError),
}

/// Filter for the operator incident console.
#[derive(Debug, Clone, Copy, PartialEq, Eq, Structural)]
pub struct IncidentOpsFilter {
    pub state: Option<IncidentState>,
    pub severity: Option<IncidentSeverity>,
    pub assignee: Option<UserId>,
    pub limit: Option<usize>,
    pub offset: usize,
}

impl Default for IncidentOpsFilter {
    fn default() -> (r: Self)
        ensures
            r == (IncidentOpsFilter {
                state: None,
                severity: None,
                assignee: None,
                limit: None,
                offset: 0,
            }),
    {
        IncidentOpsFilter { state: None, severity: None, assignee: None, limit: None, offset: 0 }
    }
}

impl IncidentOpsFilter {
    /// The incident passes the severity and assignee filters.
    pub open spec fn concerns(self, i: OpsIncident) -> bool {
        &&& self.severity matches Some(s) ==> i.severity == s
        &&& self.assignee matches Some(u) ==> i.assigned_to == Some(u)
    }

    /// The incident passes every filter.
    pub open spec fn admits(self) -> spec_fn(OpsIncident) -> bool {
        |i: OpsIncident|
            self.concerns(i) && (self.state matches Some(s) ==> i.state == s)
    }

    fn concerned(&self, i: &OpsIncident) -> (r: bool)
        ensures
            r == self.concerns(*i),
    {
        let severity_ok = match self.severity {
            Some(s) => i.severity == s,
            None => true,
        };
        let assignee_ok = match self.assignee {
            Some(u) => match i.assigned_to {
                Some(a) => a == u,
                None => false,
            },
            None => true,
        };
        severity_ok && assignee_ok
    }

    fn admitted(&self, i: &OpsIncident) -> (r: bool)
        ensures
            r == self.admits()(*i),
    {
        self.concerned(i) && match self.state {
            Some(s) => i.state == s,
            None => true,
        }
    }
}

/// How many incidents stand in each state.
#[derive(Debug, Clone, Copy, PartialEq, Eq, Structural)]
pub struct IncidentStateCounts {
    pub triggered: usize,
    pub acknowledged: usize,
    pub resolved: usize,
}

impl IncidentStateCounts {
    /// Incidents in any state.
    pub fn total(&self) -> (r: u128)
        ensures
            r == self.triggered + self.acknowledged + self.resolved,
    {
        self.triggered as u128 + self.acknowledged as u128 + self.resolved as u128
    }
}

/// A failed paging row the escalation engine should re-attempt. Carries the
/// owning `org` so the engine can re-resolve the incident, monitor, and channel to
/// rebuild the message.
#[derive(Debug)]
pub struct PendingNotification {
    pub id: u128,
    pub org: OrgId,
    pub incident_id: u128,
    pub channel_id: Option<u128>,
    pub transport: String,
    pub reason: NotificationReason,
    pub attempt: i32,
}

/// What the public page says of a resolved incident.
pub open spec fn resolution_text(note: Option<Seq<char>>) -> Seq<char> {
    match note {
        Some(n) if trimmed(n).len() > 0 => n,
        _ => "This incident has been resolved."@,
    }
}

/// What the public page says of a resolved incident: the operator's note where
/// there is one that is not blank.
pub fn resolved_public_message(note: Option<&str>) -> (r: String)
    ensures
        r@ == resolution_text(opt_str_view(note)),
{
    match note {
        Some(n) => {
            let text = trim(n);
            if text.as_str().is_empty() {
                owned("This incident has been resolved.")
            } else {
                owned(n)
            }
        },
        None => owned("This incident has been resolved."),
    }
}

/// An instant that is set stays; one that is not is set now.
pub open spec fn first_of(at: Option<Timestamp>, now: Timestamp) -> Option<Timestamp> {
    match at {
        Some(t) => Some(t),
        None => Some(now),
    }
}

/// What a transition makes of an incident. Re-acknowledging keeps the first acker
/// and ack time, so MTTA and on-call attribution reflect who actually took the
/// page first; reopening forgets resolution, acknowledgement and escalation.
pub open spec fn transitioned(
    i: OpsIncident,
    t: IncidentTransition,
    user: Option<UserId>,
    now: Timestamp,
) -> OpsIncident {
    match t {
        IncidentTransition::Acknowledge => OpsIncident {
            state: IncidentState::Acknowledged,
            acknowledged_at: first_of(i.acknowledged_at, now),
            acknowledged_by: if i.acknowledged_by is Some {
                i.acknowledged_by
            } else {
                user
            },
            next_escalation_at: None,
            updated_at: now,
            ..i
        },
        IncidentTransition::Resolve => OpsIncident {
            state: IncidentState::Resolved,
            ended_at: first_of(i.ended_at, now),
            resolved_by: user,
            next_escalation_at: None,
            updated_at: now,
            ..i
        },
        IncidentTransition::AutoResolve => OpsIncident {
            state: IncidentState::Resolved,
            ended_at: first_of(i.ended_at, now),
            resolved_by: None,
            next_escalation_at: None,
            updated_at: now,
            ..i
        },
        IncidentTransition::Reopen => OpsIncident {
            state: IncidentState::Triggered,
            ended_at: None,
            resolved_by: None,
            acknowledged_at: None,
            acknowledged_by: None,
            escalation_level: 0,
            escalation_round: 0,
            updated_at: now,
            ..i
        },
    }
}

fn set_once(at: Option<Timestamp>, now: Timestamp) -> (r: Option<Timestamp>)
    ensures
        r == first_of(at, now),
{
    match at {
        Some(t) => Some(t),
        None => Some(now),
    }
}

fn mutate(i: &mut OpsIncident, t: IncidentTransition, user: Option<UserId>, now: Timestamp)
    ensures
        *final(i) == transitioned(*old(i), t, user, now),
{
    match t {
        IncidentTransition::Acknowledge => {
            i.state = IncidentState::Acknowledged;
            i.acknowledged_at = set_once(i.acknowledged_at, now);
            if i.acknowledged_by.is_none() {
                i.acknowledged_by = user;
            }
            i.next_escalation_at = None;
        },
        IncidentTransition::Resolve => {
            i.state = IncidentState::Resolved;
            i.ended_at = set_once(i.ended_at, now);
            i.resolved_by = user;
            i.next_escalation_at = None;
        },
        IncidentTransition::AutoResolve => {
            i.state = IncidentState::Resolved;
            i.ended_at = set_once(i.ended_at, now);
            i.resolved_by = None;
            i.next_escalation_at = None;
        },
        IncidentTransition::Reopen => {
            i.state = IncidentState::Triggered;
            i.ended_at = None;
            i.resolved_by = None;
            i.acknowledged_at = None;
            i.acknowledged_by = None;
            i.escalation_level = 0;
            i.escalation_round = 0;
        },
    }
    i.updated_at = now;
}

/// The timeline entry that a transition leaves.
pub open spec fn event_of(t: IncidentTransition) -> IncidentEventKind {
    match t {
        IncidentTransition::Acknowledge => IncidentEventKind::Acknowledged,
        IncidentTransition::Resolve => IncidentEventKind::Resolved,
        IncidentTransition::AutoResolve => IncidentEventKind::Resolved,
        IncidentTransition::Reopen => IncidentEventKind::Reopened,
    }
}

/// The timeline entry that a transition leaves.
pub fn event_kind(t: IncidentTransition) -> (r: IncidentEventKind)
    ensures
        r == event_of(t),
{
    match t {
        IncidentTransition::Acknowledge => IncidentEventKind::Acknowledged,
        IncidentTransition::Resolve => IncidentEventKind::Resolved,
        IncidentTransition::AutoResolve => IncidentEventKind::Resolved,
        IncidentTransition::Reopen => IncidentEventKind::Reopened,
    }
}

/// What the store holds.
pub struct OpsState {
    pub incidents: Seq<OpsIncident>,
    pub events: Seq<IncidentEvent>,
    pub notifications: Seq<(OrgId, IncidentNotification)>,
}

/// `e` records this about an incident.
pub open spec fn records(
    e: IncidentEvent,
    event_id: u128,
    incident_id: u128,
    kind: IncidentEventKind,
    actor: Actor,
    message: Option<Seq<char>>,
    now: Timestamp,
) -> bool {
    &&& e.id == event_id
    &&& e.incident_id == incident_id
    &&& e.occurred_at == now
    &&& e.kind == kind
    &&& e.actor_type == actor.kind()
    &&& e.actor_id == actor.user()
    &&& e.detail@ == "{}"@
    &&& opt_view(e.message) == message
}

/// `after` has one event more than `before`: this one.
pub open spec fn logged(
    before: Seq<IncidentEvent>,
    after: Seq<IncidentEvent>,
    event_id: u128,
    incident_id: u128,
    kind: IncidentEventKind,
    actor: Actor,
    message: Option<Seq<char>>,
    now: Timestamp,
) -> bool {
    &&& after.len() == before.len() + 1
    &&& after.drop_last() == before
    &&& records(after.last(), event_id, incident_id, kind, actor, message, now)
}

/// The incident with this id.
pub open spec fn with_id(id: u128) -> spec_fn(OpsIncident) -> bool {
    |i: OpsIncident| i.id == id
}

/// What asking for a transition does, by what the state machine says of it: a missing
/// incident and an illegal transition change nothing; otherwise the incident moves
/// and the timeline gains one entry.
pub open spec fn lifecycle_step(
    before: OpsState,
    after: OpsState,
    r: LifecycleOutcome,
    id: u128,
    t: IncidentTransition,
    actor: Actor,
    note: Option<Seq<char>>,
    verdict: Result<IncidentState, TransitionError>,
    now: Timestamp,
    event_id: u128,
) -> bool {
    match index_where(before.incidents, with_id(id)) {
        None => r is NotFound && after == before,
        Some(i) => match verdict {
            Err(e) => r == LifecycleOutcome::IllegalTransition(e) && after == before,
            Ok(_) => {
                &&& after.incidents == before.incidents.update(
                    i,
                    transitioned(before.incidents[i], t, actor.user(), now),
                )
                &&& logged(
                    before.events,
                    after.events,
                    event_id,
                    id,
                    event_of(t),
                    actor,
                    note,
                    now,
                )
                &&& after.notifications == before.notifications
                &&& r matches LifecycleOutcome::Updated(u) && u.same(after.incidents[i])
            },
        },
    }
}

/// The verdict that the lifecycle's state machine gives on the first incident with
/// this id.
pub open spec fn verdict_on(incidents: Seq<OpsIncident>, id: u128, t: IncidentTransition) -> Result<
    IncidentState,
    TransitionError,
> {
    let from = incidents[index_where(incidents, with_id(id)).unwrap()].state;
    match successor(from, t) {
        Some(to) => Ok(to),
        None => Err(TransitionError { from, transition: t }),
    }
}

/// `n` is what recording `new` stores.
pub open spec fn is_recorded(
    n: IncidentNotification,
    new: NewIncidentNotification,
    id: u128,
    now: Timestamp,
) -> bool {
    n == (IncidentNotification {
        id,
        incident_id: new.incident_id,
        escalation_level: new.escalation_level,
        target_user_id: new.target_user_id,
        channel_id: new.channel_id,
        transport: new.transport,
        reason: new.reason,
        status: new.status,
        attempt: new.attempt,
        error: new.error,
        created_at: now,
        sent_at: new.sent_at,
    })
}

/// The page failed and may be tried again.
pub open spec fn retriable(max_attempts: i32) -> spec_fn((OrgId, IncidentNotification)) -> bool {
    |n: (OrgId, IncidentNotification)|
        n.1.status == NotificationStatus::Failed && n.1.attempt < max_attempts
}

/// `p` asks for this page to be tried again.
pub open spec fn is_pending_of(p: PendingNotification, n: (OrgId, IncidentNotification)) -> bool {
    p == (PendingNotification {
        id: n.1.id,
        org: n.0,
        incident_id: n.1.incident_id,
        channel_id: n.1.channel_id,
        transport: n.1.transport,
        reason: n.1.reason,
        attempt: n.1.attempt,
    })
}

/// Newest first.
pub open spec fn newest_incident_first() -> spec_fn(OpsIncident, OpsIncident) -> bool {
    |a: OpsIncident, b: OpsIncident| a.started_at.nanos >= b.started_at.nanos
}

/// Oldest first.
pub open spec fn oldest_event_first() -> spec_fn(IncidentEvent, IncidentEvent) -> bool {
    |a: IncidentEvent, b: IncidentEvent| a.occurred_at.nanos <= b.occurred_at.nanos
}

/// The incident that declaring `new` opens.
pub open spec fn declared(
    i: OpsIncident,
    new: NewManualIncident,
    id: u128,
    now: Timestamp,
) -> bool {
    &&& i.regions_down@ == Seq::<String>::empty()
    &&& i.regions_up@ == Seq::<String>::empty()
    &&& i == (OpsIncident {
        id,
        target_id: new.target_id,
        title: new.title,
        state: IncidentState::Triggered,
        severity: new.severity,
        urgency: new.urgency,
        origin: IncidentOrigin::Manual,
        visibility: IncidentVisibility::Internal,
        paging_enabled: true,
        counts_as_downtime: true,
        started_at: now,
        ended_at: None,
        acknowledged_at: None,
        acknowledged_by: None,
        assigned_to: None,
        resolved_by: None,
        escalation_policy_id: None,
        escalation_level: 0,
        escalation_round: 0,
        next_escalation_at: None,
        check_count: 0,
        error_sample: None,
        regions_down: i.regions_down,
        regions_up: i.regions_up,
        created_at: now,
        updated_at: now,
    })
}

/// What declaring an incident does.
pub open spec fn declare_step(
    before: OpsState,
    after: OpsState,
    r: OpsIncident,
    new: NewManualIncident,
    actor: Actor,
    now: Timestamp,
    id: u128,
    event_id: u128,
) -> bool {
    &&& after.incidents.len() == before.incidents.len() + 1
    &&& after.incidents.drop_last() == before.incidents
    &&& declared(after.incidents.last(), new, id, now)
    &&& r.same(after.incidents.last())
    &&& logged(
        before.events,
        after.events,
        event_id,
        id,
        IncidentEventKind::Triggered,
        actor,
        None,
        now,
    )
    &&& after.notifications == before.notifications
}

/// What changing an incident outside its lifecycle does: the incident becomes
/// `change` of itself and the timeline gains one entry.
pub open spec fn edit_step(
    before: OpsState,
    after: OpsState,
    r: Option<OpsIncident>,
    id: u128,
    change: spec_fn(OpsIncident) -> OpsIncident,
    kind: IncidentEventKind,
    actor: Actor,
    now: Timestamp,
    event_id: u128,
) -> bool {
    match index_where(before.incidents, with_id(id)) {
        None => r is None && after == before,
        Some(i) => {
            &&& after.incidents == before.incidents.update(i, change(before.incidents[i]))
            &&& logged(before.events, after.events, event_id, id, kind, actor, None, now)
            &&& after.notifications == before.notifications
            &&& r matches Some(u) && u.same(after.incidents[i])
        },
    }
}

/// The incident with this assignee.
pub open spec fn assigned(assignee: Option<UserId>, now: Timestamp) -> spec_fn(
    OpsIncident,
) -> OpsIncident {
    |i: OpsIncident| OpsIncident { assigned_to: assignee, updated_at: now, ..i }
}

/// The timeline entry that an assignment leaves.
pub open spec fn assign_event(assignee: Option<UserId>) -> IncidentEventKind {
    if assignee is Some {
        IncidentEventKind::Assigned
    } else {
        IncidentEventKind::Unassigned
    }
}

/// The incident with this visibility.
pub open spec fn shown(visibility: IncidentVisibility, now: Timestamp) -> spec_fn(
    OpsIncident,
) -> OpsIncident {
    |i: OpsIncident| OpsIncident { visibility, updated_at: now, ..i }
}

/// What appending a timeline entry does: nothing if the incident is missing.
pub open spec fn append_step(
    before: OpsState,
    after: OpsState,
    id: u128,
    kind: IncidentEventKind,
    actor: Actor,
    message: Option<Seq<char>>,
    now: Timestamp,
    event_id: u128,
) -> bool {
    &&& after.incidents == before.incidents
    &&& after.notifications == before.notifications
    &&& match index_where(before.incidents, with_id(id)) {
        None => after.events == before.events,
        Some(_) => logged(
            before.events,
            after.events,
            event_id,
            id,
            kind,
            actor,
            message,
            now,
        ),
    }
}

/// Incidents in memory.
#[derive(Debug)]
pub struct InMemoryIncidentOpsStore {
    incidents: Vec<OpsIncident>,
    events: Vec<IncidentEvent>,
    notifications: Vec<(OrgId, IncidentNotification)>,
}

impl View for InMemoryIncidentOpsStore {
    type V = OpsState;

    closed spec fn view(&self) -> OpsState {
        OpsState {
            incidents: self.incidents@,
            events: self.events@,
            notifications: self.notifications@,
        }
    }
}

impl InMemoryIncidentOpsStore {
    pub fn new() -> (r: Self)
        ensures
            r@ == (OpsState {
                incidents: Seq::empty(),
                events: Seq::empty(),
                notifications: Seq::empty(),
            }),
    {
        InMemoryIncidentOpsStore {
            incidents: Vec::new(),
            events: Vec::new(),
            notifications: Vec::new(),
        }
    }

    pub fn seed(&mut self, incident: OpsIncident)
        ensures
            final(self)@ == (OpsState {
                incidents: old(self)@.incidents.push(incident),
                ..old(self)@
            }),
    {
        self.incidents.push(incident);
    }

    fn push_event(
        &mut self,
        event_id: u128,
        incident_id: u128,
        kind: IncidentEventKind,
        actor: Actor,
        message: Option<String>,
        now: Timestamp,
    )
        ensures
            final(self)@.incidents == old(self)@.incidents,
            final(self)@.notifications == old(self)@.notifications,
            logged(
                old(self)@.events,
                final(self)@.events,
                event_id,
                incident_id,
                kind,
                actor,
                opt_view(message),
                now,
            ),
    {
        let ghost before = self.events@;
        self.events.push(
            IncidentEvent {
                id: event_id,
                incident_id,
                occurred_at: now,
                kind,
                actor_type: actor.actor_type(),
                actor_id: actor.user_id(),
                detail: owned("{}"),
                message,
            },
        );
        assert(self.events@.drop_last() =~= before);
    }

    fn find(&self, id: u128) -> (r: Option<usize>)
        ensures
            match r {
                Some(i) => index_where(self@.incidents, with_id(id)) == Some(i as int) && i
                    < self@.incidents.len(),
                None => index_where(self@.incidents, with_id(id)) is None,
            },
    {
        let same = |i: &OpsIncident| -> (b: bool)
            ensures
                b == (i.id == id),
        { i.id == id };
        position(&self.incidents, same, Ghost(with_id(id)))
    }

    /// Carries a transition out under the verdict that the caller's state machine
    /// gave on the incident's state.
    pub fn apply(
        &mut self,
        id: u128,
        t: IncidentTransition,
        actor: Actor,
        note: Option<String>,
        verdict: Result<IncidentState, TransitionError>,
        now: Timestamp,
        event_id: u128,
    ) -> (r: LifecycleOutcome)
        ensures
            lifecycle_step(
                old(self)@,
                final(self)@,
                r,
                id,
                t,
                actor,
                opt_view(note),
                verdict,
                now,
                event_id,
            ),
    {
        let Some(i) = self.find(id) else {
            return LifecycleOutcome::NotFound;
        };
        if let Err(e) = verdict {
            return LifecycleOutcome::IllegalTransition(e);
        }
        mutate(&mut self.incidents[i], t, actor.user_id(), now);
        let updated = self.incidents[i].clone();
        self.push_event(event_id, id, event_kind(t), actor, note, now);
        LifecycleOutcome::Updated(Box::new(updated))
    }

    /// Asks for a transition at `now`; the state machine decides.
    pub fn transition_at(
        &mut self,
        id: u128,
        t: IncidentTransition,
        actor: Actor,
        note: Option<String>,
        now: Timestamp,
        event_id: u128,
    ) -> (r: LifecycleOutcome)
        ensures
            lifecycle_step(
                old(self)@,
                final(self)@,
                r,
                id,
                t,
                actor,
                opt_view(note),
                verdict_on(old(self)@.incidents, id, t),
                now,
                event_id,
            ),
    {
        let Some(i) = self.find(id) else {
            return LifecycleOutcome::NotFound;
        };
        let verdict = next_state(self.incidents[i].state, t);
        self.apply(id, t, actor, note, verdict, now, event_id)
    }

    fn transition(
        &mut self,
        id: u128,
        t: IncidentTransition,
        actor: Actor,
        note: Option<String>,
    ) -> (r: LifecycleOutcome)
        ensures
            exists|at: Timestamp, event_id: u128|
                at.wf() && #[trigger] lifecycle_step(
                    old(self)@,
                    final(self)@,
                    r,
                    id,
                    t,
                    actor,
                    opt_view(note),
                    verdict_on(old(self)@.incidents, id, t),
                    at,
                    event_id,
                ),
    {
        let at = now();
        let event_id: u128 = fresh_id();
        self.transition_at(id, t, actor, note, at, event_id)
    }

    /// Takes the page.
    pub fn acknowledge(&mut self, _org: OrgId, id: u128, actor: Actor, note: Option<String>) -> (r:
        LifecycleOutcome)
        ensures
            exists|at: Timestamp, event_id: u128|
                at.wf() && #[trigger] lifecycle_step(
                    old(self)@,
                    final(self)@,
                    r,
                    id,
                    IncidentTransition::Acknowledge,
                    actor,
                    opt_view(note),
                    verdict_on(old(self)@.incidents, id, IncidentTransition::Acknowledge),
                    at,
                    event_id,
                ),
    {
        self.transition(id, IncidentTransition::Acknowledge, actor, note)
    }

    /// Manual resolve by a human (`resolved_by` = the actor's user).
    pub fn resolve(&mut self, _org: OrgId, id: u128, actor: Actor, note: Option<String>) -> (r:
        LifecycleOutcome)
        ensures
            exists|at: Timestamp, event_id: u128|
                at.wf() && #[trigger] lifecycle_step(
                    old(self)@,
                    final(self)@,
                    r,
                    id,
                    IncidentTransition::Resolve,
                    actor,
                    opt_view(note),
                    verdict_on(old(self)@.incidents, id, IncidentTransition::Resolve),
                    at,
                    event_id,
                ),
    {
        self.transition(id, IncidentTransition::Resolve, actor, note)
    }

    /// Recovery detected by the writer (no `resolved_by`, actor = system).
    pub fn auto_resolve(&mut self, _org: OrgId, id: u128) -> (r: LifecycleOutcome)
        ensures
            exists|at: Timestamp, event_id: u128|
                at.wf() && #[trigger] lifecycle_step(
                    old(self)@,
                    final(self)@,
                    r,
                    id,
                    IncidentTransition::AutoResolve,
                    Actor::System,
                    None,
                    verdict_on(old(self)@.incidents, id, IncidentTransition::AutoResolve),
                    at,
                    event_id,
                ),
    {
        self.transition(id, IncidentTransition::AutoResolve, Actor::System, None)
    }

    /// Opens a resolved incident again.
    pub fn reopen(&mut self, _org: OrgId, id: u128, actor: Actor, note: Option<String>) -> (r:
        LifecycleOutcome)
        ensures
            exists|at: Timestamp, event_id: u128|
                at.wf() && #[trigger] lifecycle_step(
                    old(self)@,
                    final(self)@,
                    r,
                    id,
                    IncidentTransition::Reopen,
                    actor,
                    opt_view(note),
                    verdict_on(old(self)@.incidents, id, IncidentTransition::Reopen),
                    at,
                    event_id,
                ),
    {
        self.transition(id, IncidentTransition::Reopen, actor, note)
    }

    pub fn get(&self, _org: OrgId, id: u128) -> (r: Option<OpsIncident>)
        ensures
            match index_where(self@.incidents, with_id(id)) {
                Some(i) => r matches Some(x) && x.same(self@.incidents[i]),
                None => r is None,
            },
    {
        match self.find(id) {
            Some(i) => Some(self.incidents[i].clone()),
            None => None,
        }
    }

    /// One page of the incidents that the filter admits, newest first.
    pub fn list(&self, _org: OrgId, filter: IncidentOpsFilter) -> (out: Vec<OpsIncident>)
        ensures
            ({
                let all = page_of(
                    stable_sorted(
                        self@.incidents.filter(filter.admits()),
                        newest_incident_first(),
                    ),
                    filter.offset as nat,
                    (match filter.limit {
                        Some(n) => n as nat,
                        None => 100nat,
                    }),
                );
                &&& out@.len() == all.len()
                &&& forall|i: int| 0 <= i < out@.len() ==> (#[trigger] out@[i]).same(all[i])
            }),
    {
        let passes = |i: &OpsIncident| -> (b: bool)
            ensures
                b == filter.admits()(*i),
        { filter.admitted(i) };
        let hits = select_refs(&self.incidents, passes, Ghost(filter.admits()));
        let le = |a: &OpsIncident, b: &OpsIncident| -> (r: bool)
            ensures
                r == (a.started_at.nanos >= b.started_at.nanos),
        { a.started_at.nanos >= b.started_at.nanos };
        let sorted = sort_refs(hits, le, Ghost(newest_incident_first()));
        let limit: usize = match filter.limit {
            Some(n) => n,
            None => 100,
        };
        let shown = page_refs(sorted, filter.offset, limit);
        let ghost all = derefs(shown@);
        let mut out: Vec<OpsIncident> = Vec::new();
        let mut k: usize = 0;
        while k < shown.len()
            invariant
                k <= shown@.len(),
                out@.len() == k,
                all == derefs(shown@),
                forall|i: int| 0 <= i < k ==> (#[trigger] out@[i]).same(all[i]),
            decreases shown.len() - k,
        {
            assert(all[k as int] == *shown@[k as int]);
            let item: &OpsIncident = shown[k];
            out.push(item.clone());
            k += 1;
        }
        out
    }

    /// How many incidents have this state; all without one.
    pub fn count(&self, _org: OrgId, state: Option<IncidentState>) -> (n: usize)
        ensures
            n == self@.incidents.filter(
                |i: OpsIncident| state matches Some(s) ==> i.state == s,
            ).len(),
    {
        let hit = |i: &OpsIncident| -> (b: bool)
            ensures
                b == (state matches Some(s) ==> i.state == s),
        {
            match state {
                Some(s) => i.state == s,
                None => true,
            }
        };
        count_where(
            &self.incidents,
            hit,
            Ghost(|i: OpsIncident| state matches Some(s) ==> i.state == s),
        )
    }

    fn count_state(&self, filter: &IncidentOpsFilter, state: IncidentState) -> (n: usize)
        ensures
            n == self@.incidents.filter(
                |i: OpsIncident| filter.concerns(i) && i.state == state,
            ).len(),
    {
        let hit = |i: &OpsIncident| -> (b: bool)
            ensures
                b == (filter.concerns(*i) && i.state == state),
        { filter.concerned(i) && i.state == state };
        count_where(
            &self.incidents,
            hit,
            Ghost(|i: OpsIncident| filter.concerns(i) && i.state == state),
        )
    }

    /// How many incidents stand in each state, whatever state the filter asks for;
    /// its severity and assignee hold.
    pub fn counts_by_state(&self, _org: OrgId, filter: &IncidentOpsFilter) -> (r:
        IncidentStateCounts)
        ensures
            r.triggered == self@.incidents.filter(
                |i: OpsIncident| filter.concerns(i) && i.state == IncidentState::Triggered,
            ).len(),
            r.acknowledged == self@.incidents.filter(
                |i: OpsIncident| filter.concerns(i) && i.state == IncidentState::Acknowledged,
            ).len(),
            r.resolved == self@.incidents.filter(
                |i: OpsIncident| filter.concerns(i) && i.state == IncidentState::Resolved,
            ).len(),
    {
        IncidentStateCounts {
            triggered: self.count_state(filter, IncidentState::Triggered),
            acknowledged: self.count_state(filter, IncidentState::Acknowledged),
            resolved: self.count_state(filter, IncidentState::Resolved),
        }
    }

    /// Opens an incident at `now` under the id `id`.
    pub fn declare_at(
        &mut self,
        new: NewManualIncident,
        actor: Actor,
        now: Timestamp,
        id: u128,
        event_id: u128,
    ) -> (r: OpsIncident)
        ensures
            declare_step(old(self)@, final(self)@, r, new, actor, now, id, event_id),
    {
        let ghost before = self.incidents@;
        let incident = OpsIncident {
            id,
            target_id: new.target_id,
            title: new.title,
            state: IncidentState::Triggered,
            severity: new.severity,
            urgency: new.urgency,
            origin: IncidentOrigin::Manual,
            visibility: IncidentVisibility::Internal,
            paging_enabled: true,
            counts_as_downtime: true,
            started_at: now,
            ended_at: None,
            acknowledged_at: None,
            acknowledged_by: None,
            assigned_to: None,
            resolved_by: None,
            escalation_policy_id: None,
            escalation_level: 0,
            escalation_round: 0,
            next_escalation_at: None,
            check_count: 0,
            error_sample: None,
            regions_down: Vec::new(),
            regions_up: Vec::new(),
            created_at: now,
            updated_at: now,
        };
        let shown = incident.clone();
        self.incidents.push(incident);
        assert(self.incidents@.drop_last() =~= before);
        self.push_event(event_id, id, IncidentEventKind::Triggered, actor, None, now);
        shown
    }

    /// Opens an incident that a human declares.
    pub fn declare(&mut self, _org: OrgId, new: NewManualIncident, actor: Actor) -> (r: OpsIncident)
        ensures
            exists|at: Timestamp, id: u128, event_id: u128|
                at.wf() && #[trigger] declare_step(
                    old(self)@,
                    final(self)@,
                    r,
                    new,
                    actor,
                    at,
                    id,
                    event_id,
                ),
    {
        let at = now();
        let id: u128 = fresh_id();
        let event_id: u128 = fresh_id();
        self.declare_at(new, actor, at, id, event_id)
    }

    /// Gives the incident an assignee at `now`, or takes it away.
    pub fn assign_at(
        &mut self,
        id: u128,
        assignee: Option<UserId>,
        actor: Actor,
        now: Timestamp,
        event_id: u128,
    ) -> (r: Option<OpsIncident>)
        ensures
            edit_step(
                old(self)@,
                final(self)@,
                r,
                id,
                assigned(assignee, now),
                assign_event(assignee),
                actor,
                now,
                event_id,
            ),
    {
        let Some(i) = self.find(id) else {
            return None;
        };
        self.incidents[i].assigned_to = assignee;
        self.incidents[i].updated_at = now;
        assert(self.incidents@ =~= old(self)@.incidents.update(
            i as int,
            assigned(assignee, now)(old(self)@.incidents[i as int]),
        ));
        let updated = self.incidents[i].clone();
        let kind = if assignee.is_some() {
            IncidentEventKind::Assigned
        } else {
            IncidentEventKind::Unassigned
        };
        self.push_event(event_id, id, kind, actor, None, now);
        Some(updated)
    }

    /// Gives the incident an assignee, or takes it away.
    pub fn assign(&mut self, _org: OrgId, id: u128, assignee: Option<UserId>, actor: Actor) -> (r:
        Option<OpsIncident>)
        ensures
            exists|at: Timestamp, event_id: u128|
                at.wf() && #[trigger] edit_step(
                    old(self)@,
                    final(self)@,
                    r,
                    id,
                    assigned(assignee, at),
                    assign_event(assignee),
                    actor,
                    at,
                    event_id,
                ),
    {
        let at = now();
        let event_id: u128 = fresh_id();
        self.assign_at(id, assignee, actor, at, event_id)
    }

    /// Shows the incident in public at `now`, or hides it.
    pub fn set_visibility_at(
        &mut self,
        id: u128,
        visibility: IncidentVisibility,
        actor: Actor,
        now: Timestamp,
        event_id: u128,
    ) -> (r: Option<OpsIncident>)
        ensures
            edit_step(
                old(self)@,
                final(self)@,
                r,
                id,
                shown(visibility, now),
                if visibility == IncidentVisibility::Public {
                    IncidentEventKind::Published
                } else {
                    IncidentEventKind::Unpublished
                },
                actor,
                now,
                event_id,
            ),
    {
        let Some(i) = self.find(id) else {
            return None;
        };
        self.incidents[i].visibility = visibility;
        self.incidents[i].updated_at = now;
        assert(self.incidents@ =~= old(self)@.incidents.update(
            i as int,
            shown(visibility, now)(old(self)@.incidents[i as int]),
        ));
        let updated = self.incidents[i].clone();
        let kind = match visibility {
            IncidentVisibility::Public => IncidentEventKind::Published,
            IncidentVisibility::Internal => IncidentEventKind::Unpublished,
        };
        self.push_event(event_id, id, kind, actor, None, now);
        Some(updated)
    }

    /// Shows the incident in public. The public title and description belong to the
    /// incident's narration, not to this record.
    pub fn publish(
        &mut self,
        _org: OrgId,
        id: u128,
        _public_title: Option<String>,
        _public_description: Option<String>,
        actor: Actor,
    ) -> (r: Option<OpsIncident>)
        ensures
            exists|at: Timestamp, event_id: u128|
                at.wf() && #[trigger] edit_step(
                    old(self)@,
                    final(self)@,
                    r,
                    id,
                    shown(IncidentVisibility::Public, at),
                    IncidentEventKind::Published,
                    actor,
                    at,
                    event_id,
                ),
    {
        let at = now();
        let event_id: u128 = fresh_id();
        self.set_visibility_at(id, IncidentVisibility::Public, actor, at, event_id)
    }

    /// Hides the incident from the public.
    pub fn unpublish(&mut self, _org: OrgId, id: u128, actor: Actor) -> (r: Option<OpsIncident>)
        ensures
            exists|at: Timestamp, event_id: u128|
                at.wf() && #[trigger] edit_step(
                    old(self)@,
                    final(self)@,
                    r,
                    id,
                    shown(IncidentVisibility::Internal, at),
                    IncidentEventKind::Unpublished,
                    actor,
                    at,
                    event_id,
                ),
    {
        let at = now();
        let event_id: u128 = fresh_id();
        self.set_visibility_at(id, IncidentVisibility::Internal, actor, at, event_id)
    }

    /// Appends one timeline entry at `now` outside a lifecycle transition.
    pub fn append_event_at(
        &mut self,
        id: u128,
        kind: IncidentEventKind,
        actor: Actor,
        message: Option<String>,
        now: Timestamp,
        event_id: u128,
    ) -> (r: bool)
        ensures
            append_step(
                old(self)@,
                final(self)@,
                id,
                kind,
                actor,
                opt_view(message),
                now,
                event_id,
            ),
            r == (index_where(old(self)@.incidents, with_id(id)) is Some),
    {
        if self.find(id).is_none() {
            return false;
        }
        self.push_event(event_id, id, kind, actor, message, now);
        true
    }

    /// Append one internal timeline entry outside a lifecycle transition (e.g.
    /// the escalation engine logging a `notified`/`escalated` event). A missing
    /// incident gets none.
    pub fn append_event(
        &mut self,
        _org: OrgId,
        id: u128,
        kind: IncidentEventKind,
        actor: Actor,
        message: Option<String>,
    )
        ensures
            exists|at: Timestamp, event_id: u128|
                at.wf() && #[trigger] append_step(
                    old(self)@,
                    final(self)@,
                    id,
                    kind,
                    actor,
                    opt_view(message),
                    at,
                    event_id,
                ),
    {
        let at = now();
        let event_id: u128 = fresh_id();
        self.append_event_at(id, kind, actor, message, at, event_id);
    }

    /// Appends a note; `None` = no such incident.
    pub fn add_note(&mut self, _org: OrgId, id: u128, actor: Actor, message: String) -> (r: Option<
        IncidentEvent,
    >)
        ensures
            exists|at: Timestamp, event_id: u128|
                at.wf() && #[trigger] append_step(
                    old(self)@,
                    final(self)@,
                    id,
                    IncidentEventKind::Note,
                    actor,
                    Some(message@),
                    at,
                    event_id,
                ),
            match index_where(old(self)@.incidents, with_id(id)) {
                Some(_) => r == Some(final(self)@.events.last()),
                None => r is None,
            },
    {
        let at = now();
        let event_id: u128 = fresh_id();
        if self.append_event_at(id, IncidentEventKind::Note, actor, Some(message), at, event_id) {
            Some(self.events[self.events.len() - 1].clone())
        } else {
            None
        }
    }

    /// The incident's timeline, oldest first.
    pub fn timeline(&self, _org: OrgId, id: u128) -> (out: Vec<IncidentEvent>)
        ensures
            out@ == stable_sorted(
                self@.events.filter(|e: IncidentEvent| e.incident_id == id),
                oldest_event_first(),
            ),
    {
        let mine = |e: &IncidentEvent| -> (b: bool)
            ensures
                b == (e.incident_id == id),
        { e.incident_id == id };
        let hits = select(&self.events, mine, Ghost(|e: IncidentEvent| e.incident_id == id));
        let le = |a: &IncidentEvent, b: &IncidentEvent| -> (r: bool)
            ensures
                r == (a.occurred_at.nanos <= b.occurred_at.nanos),
        { a.occurred_at.nanos <= b.occurred_at.nanos };
        stable_sort(hits, le, Ghost(oldest_event_first()))
    }

    /// Every paging-log row for an incident — the engine reads these to dedup
    /// (never page the same channel+reason twice) before sending.
    pub fn notifications_for(&self, _org: OrgId, id: u128) -> (out: Vec<IncidentNotification>)
        ensures
            out@ == self@.notifications.filter(
                |n: (OrgId, IncidentNotification)| n.1.incident_id == id,
            ).map_values(|n: (OrgId, IncidentNotification)| n.1),
    {
        let mine = |n: &(OrgId, IncidentNotification)| -> (b: bool)
            ensures
                b == (n.1.incident_id == id),
        { n.1.incident_id == id };
        let hits = select_refs(
            &self.notifications,
            mine,
            Ghost(|n: (OrgId, IncidentNotification)| n.1.incident_id == id),
        );
        let ghost all = derefs(hits@);
        let mut out: Vec<IncidentNotification> = Vec::new();
        let mut i: usize = 0;
        while i < hits.len()
            invariant
                i <= hits@.len(),
                all == derefs(hits@),
                out@ == all.take(i as int).map_values(
                    |n: (OrgId, IncidentNotification)| n.1,
                ),
            decreases hits.len() - i,
        {
            assert(all[i as int] == *hits@[i as int]);
            out.push(hits[i].1.clone());
            i += 1;
            assert(out@ =~= all.take(i as int).map_values(
                |n: (OrgId, IncidentNotification)| n.1,
            ));
        }
        assert(all.take(i as int) =~= all);
        out
    }

    /// Persists one paging attempt at `now` under the id `id`.
    pub fn record_notification_at(&mut self, n: NewIncidentNotification, now: Timestamp, id: u128)
        ensures
            final(self)@.incidents == old(self)@.incidents,
            final(self)@.events == old(self)@.events,
            final(self)@.notifications.len() == old(self)@.notifications.len() + 1,
            final(self)@.notifications.drop_last() == old(self)@.notifications,
            final(self)@.notifications.last().0 == n.org,
            is_recorded(final(self)@.notifications.last().1, n, id, now),
    {
        let ghost before = self.notifications@;
        let row = IncidentNotification {
            id,
            incident_id: n.incident_id,
            escalation_level: n.escalation_level,
            target_user_id: n.target_user_id,
            channel_id: n.channel_id,
            transport: n.transport,
            reason: n.reason,
            status: n.status,
            attempt: n.attempt,
            error: n.error,
            created_at: now,
            sent_at: n.sent_at,
        };
        self.notifications.push((n.org, row));
        assert(self.notifications@.drop_last() =~= before);
    }

    /// Persist one paging attempt. Returns the new row id.
    pub fn record_notification(&mut self, n: NewIncidentNotification) -> (id: u128)
        ensures
            final(self)@.incidents == old(self)@.incidents,
            final(self)@.events == old(self)@.events,
            final(self)@.notifications.len() == old(self)@.notifications.len() + 1,
            final(self)@.notifications.drop_last() == old(self)@.notifications,
            final(self)@.notifications.last().0 == n.org,
            exists|at: Timestamp|
                at.wf() && #[trigger] is_recorded(
                    final(self)@.notifications.last().1,
                    n,
                    id,
                    at,
                ),
    {
        let at = now();
        let id: u128 = fresh_id();
        self.record_notification_at(n, at, id);
        id
    }

    /// Cross-org failed pages still under the attempt cap, oldest first — the
    /// engine's retry sweep.
    pub fn pending_notifications(&self, limit: usize, max_attempts: i32) -> (out: Vec<
        PendingNotification,
    >)
        ensures
            ({
                let all = page_of(
                    self@.notifications.filter(retriable(max_attempts)),
                    0,
                    limit as nat,
                );
                &&& out@.len() == all.len()
                &&& forall|i: int|
                    0 <= i < out@.len() ==> is_pending_of(#[trigger] out@[i], all[i])
            }),
    {
        let failed = |n: &(OrgId, IncidentNotification)| -> (b: bool)
            ensures
                b == retriable(max_attempts)(*n),
        { n.1.status == NotificationStatus::Failed && n.1.attempt < max_attempts };
        let hits = select_refs(&self.notifications, failed, Ghost(retriable(max_attempts)));
        let first = page_refs(hits, 0, limit);
        let ghost all = derefs(first@);
        let mut out: Vec<PendingNotification> = Vec::new();
        let mut i: usize = 0;
        while i < first.len()
            invariant
                i <= first@.len(),
                all == derefs(first@),
                out@.len() == i,
                forall|k: int| 0 <= k < i ==> is_pending_of(#[trigger] out@[k], all[k]),
            decreases first.len() - i,
        {
            assert(all[i as int] == *first@[i as int]);
            let n = first[i];
            out.push(
                PendingNotification {
                    id: n.1.id,
                    org: n.0,
                    incident_id: n.1.incident_id,
                    channel_id: n.1.channel_id,
                    transport: n.1.transport.clone(),
                    reason: n.1.reason,
                    attempt: n.1.attempt,
                },
            );
            i += 1;
        }
        out
    }

    /// Update a paging row after a delivery attempt. Scoped to the row's org.
    pub fn mark_notification(
        &mut self,
        org: OrgId,
        id: u128,
        status: NotificationStatus,
        attempt: i32,
        error: Option<String>,
        sent_at: Option<Timestamp>,
    )
        ensures
            final(self)@ == (match index_where(
                old(self)@.notifications,
                |n: (OrgId, IncidentNotification)| n.0 == org && n.1.id == id,
            ) {
                Some(i) => OpsState {
                    notifications: old(self)@.notifications.update(
                        i,
                        (
                            old(self)@.notifications[i].0,
                            IncidentNotification {
                                status,
                                attempt,
                                error,
                                sent_at,
                                ..old(self)@.notifications[i].1
                            },
                        ),
                    ),
                    ..old(self)@
                },
                None => old(self)@,
            }),
    {
        let mine = |n: &(OrgId, IncidentNotification)| -> (b: bool)
            ensures
                b == (n.0 == org && n.1.id == id),
        { n.0 == org && n.1.id == id };
        if let Some(i) = position(
            &self.notifications,
            mine,
            Ghost(|n: (OrgId, IncidentNotification)| n.0 == org && n.1.id == id),
        ) {
            self.notifications[i].1.status = status;
            self.notifications[i].1.attempt = attempt;
            self.notifications[i].1.error = error;
            self.notifications[i].1.sent_at = sent_at;
            assert(self.notifications@ =~= old(self)@.notifications.update(
                i as int,
                (
                    old(self)@.notifications[i as int].0,
                    IncidentNotification {
                        status,
                        attempt,
                        error,
                        sent_at,
                        ..old(self)@.notifications[i as int].1
                    },
                ),
            ));
        }
    }
}

/// Re-acknowledging keeps who took the page first and when.
pub proof fn law_reacknowledge_keeps_the_first(
    i: OpsIncident,
    first: Option<UserId>,
    second: Option<UserId>,
    at: Timestamp,
    later: Timestamp,
)
    requires
        first is Some,
        i.acknowledged_by is None,
        i.acknowledged_at is None,
    ensures
        ({
            let acked = transitioned(i, IncidentTransition::Acknowledge, first, at);
            let again = transitioned(acked, IncidentTransition::Acknowledge, second, later);
            &&& again.acknowledged_by == first
            &&& again.acknowledged_at == Some(at)
            &&& again.state == IncidentState::Acknowledged
        }),
{
}

/// Every transition leads to the state that the state machine names.
pub proof fn law_transition_follows_the_machine(
    i: OpsIncident,
    t: IncidentTransition,
    user: Option<UserId>,
    now: Timestamp,
)
    requires
        successor(i.state, t) is Some,
    ensures
        successor(i.state, t) == Some(transitioned(i, t, user, now).state),
{
}

/// An incident that is acknowledged or resolved is not escalated further.
pub proof fn law_taken_incidents_stop_escalating(
    i: OpsIncident,
    t: IncidentTransition,
    user: Option<UserId>,
    now: Timestamp,
)
    requires
        t != IncidentTransition::Reopen,
    ensures
        transitioned(i, t, user, now).next_escalation_at is None,
{
}

/// Reopening a resolved incident leaves no trace of who acknowledged or resolved
/// it, and it can be acknowledged and resolved anew.
pub proof fn law_reopen_starts_over(i: OpsIncident, user: Option<UserId>, now: Timestamp)
    ensures
        ({
            let r = transitioned(i, IncidentTransition::Reopen, user, now);
            &&& r.ended_at is None
            &&& r.resolved_by is None
            &&& r.acknowledged_at is None
            &&& r.acknowledged_by is None
            &&& r.escalation_level == 0
            &&& r.escalation_round == 0
            &&& successor(r.state, IncidentTransition::Acknowledge) is Some
            &&& successor(r.state, IncidentTransition::Resolve) is Some
        }),
{
}

/// A resolved incident cannot be acknowledged.
pub proof fn law_resolved_cannot_be_acknowledged(
    i: OpsIncident,
    t: IncidentTransition,
    user: Option<UserId>,
    now: Timestamp,
)
    requires
        t == IncidentTransition::Resolve || t == IncidentTransition::AutoResolve,
    ensures
        successor(transitioned(i, t, user, now).state, IncidentTransition::Acknowledge) is None,
{
}

/// Publishing and unpublishing again leaves everything but the time of the last
/// change as it was.
pub proof fn law_unpublish_undoes_publish(i: OpsIncident, at: Timestamp, later: Timestamp)
    requires
        i.visibility == IncidentVisibility::Internal,
    ensures
        shown(IncidentVisibility::Internal, later)(shown(IncidentVisibility::Public, at)(i)) == (
        OpsIncident { updated_at: later, ..i }),
{
}

/// What a transition sets, and that it sets nothing else. Resolving, by hand or by recovery,
/// ends an incident at that instant unless it has ended; acknowledging keeps an earlier
/// acknowledgement; reopening takes end, resolution, acknowledgement and escalation back.
pub proof fn law_what_a_transition_sets(
    i: OpsIncident,
    user: Option<UserId>,
    now: Timestamp,
    t: IncidentTransition,
)
    ensures
        ({
            let a = transitioned(i, t, user, now);
            let resolves = t == IncidentTransition::Resolve || t == IncidentTransition::AutoResolve;
            let acks = t == IncidentTransition::Acknowledge;
            let reopens = t == IncidentTransition::Reopen;
            &&& a.updated_at == now
            &&& resolves ==> a.state == IncidentState::Resolved
            &&& resolves && i.ended_at is None ==> a.ended_at == Some(now)
            &&& !reopens && i.ended_at is Some ==> a.ended_at == i.ended_at
            &&& acks ==> a.state == IncidentState::Acknowledged && a.ended_at == i.ended_at
            &&& acks && i.acknowledged_at is None ==> a.acknowledged_at == Some(now)
            &&& acks && i.acknowledged_by is None ==> a.acknowledged_by == user
            &&& !reopens && i.acknowledged_at is Some ==> a.acknowledged_at == i.acknowledged_at
            &&& !reopens && i.acknowledged_by is Some ==> a.acknowledged_by == i.acknowledged_by
            &&& resolves ==> a.acknowledged_at == i.acknowledged_at && a.acknowledged_by
                == i.acknowledged_by
            &&& t == IncidentTransition::Resolve ==> a.resolved_by == user
            &&& t == IncidentTransition::AutoResolve ==> a.resolved_by is None
            &&& acks ==> a.resolved_by == i.resolved_by
            &&& reopens ==> a.state == IncidentState::Triggered && a.ended_at is None
                && a.resolved_by is None && a.acknowledged_at is None && a.acknowledged_by is None
                && a.escalation_level == 0 && a.escalation_round == 0 && a.next_escalation_at
                == i.next_escalation_at
            &&& !reopens ==> a.next_escalation_at is None && a.escalation_level
                == i.escalation_level && a.escalation_round == i.escalation_round
            &&& a.id == i.id && a.target_id == i.target_id && a.title == i.title
            &&& a.severity == i.severity && a.urgency == i.urgency && a.origin == i.origin
            &&& a.visibility == i.visibility && a.assigned_to == i.assigned_to
            &&& a.paging_enabled == i.paging_enabled && a.counts_as_downtime
                == i.counts_as_downtime
            &&& a.started_at == i.started_at && a.created_at == i.created_at
            &&& a.escalation_policy_id == i.escalation_policy_id
            &&& a.check_count == i.check_count && a.error_sample == i.error_sample
            &&& a.regions_down == i.regions_down && a.regions_up == i.regions_up
        }),
{
}

/// An incident is resolved only while it is open and reopened only while it is resolved. A
/// transition that the state forbids changes nothing and says which; one that it allows
/// changes the incident asked for and no other, and leaves exactly one entry in the timeline:
/// who did what, when, with which note.
pub proof fn law_a_transition_is_legal_and_logged(
    before: OpsState,
    after: OpsState,
    r: LifecycleOutcome,
    id: u128,
    t: IncidentTransition,
    actor: Actor,
    note: Option<Seq<char>>,
    now: Timestamp,
    event_id: u128,
    i: int,
)
    requires
        lifecycle_step(
            before,
            after,
            r,
            id,
            t,
            actor,
            note,
            verdict_on(before.incidents, id, t),
            now,
            event_id,
        ),
        0 <= i < before.incidents.len(),
        before.incidents[i].id == id,
        forall|j: int| 0 <= j < i ==> (#[trigger] before.incidents[j]).id != id,
    ensures
        ({
            let from = before.incidents[i].state;
            let legal = (from == IncidentState::Resolved) == (t == IncidentTransition::Reopen);
            &&& !legal ==> after == before && r == LifecycleOutcome::IllegalTransition(
                TransitionError { from, transition: t },
            )
            &&& legal ==> {
                &&& r matches LifecycleOutcome::Updated(u) && u.same(after.incidents[i])
                &&& after.incidents.len() == before.incidents.len()
                &&& forall|j: int|
                    0 <= j < before.incidents.len() && j != i ==> #[trigger] after.incidents[j]
                        == before.incidents[j]
                &&& after.incidents[i] == transitioned(before.incidents[i], t, actor.user(), now)
                &&& after.notifications == before.notifications
                &&& after.events.len() == before.events.len() + 1
                &&& forall|j: int|
                    0 <= j < before.events.len() ==> #[trigger] after.events[j] == before.events[j]
                &&& after.events.last().incident_id == id
                &&& after.events.last().occurred_at == now
                &&& after.events.last().id == event_id
                &&& opt_view(after.events.last().message) == note
                &&& t == IncidentTransition::Acknowledge ==> after.events.last().kind
                    == IncidentEventKind::Acknowledged
                &&& t == IncidentTransition::Resolve || t == IncidentTransition::AutoResolve
                    ==> after.events.last().kind == IncidentEventKind::Resolved
                &&& t == IncidentTransition::Reopen ==> after.events.last().kind
                    == IncidentEventKind::Reopened
                &&& match actor {
                    Actor::System => after.events.last().actor_type == ActorType::System
                        && after.events.last().actor_id is None,
                    Actor::User(u) => after.events.last().actor_type == ActorType::User
                        && after.events.last().actor_id == Some(u),
                    Actor::Mcp(u) => after.events.last().actor_type == ActorType::Mcp
                        && after.events.last().actor_id == Some(u),
                }
            }
        }),
{
    lemma_index_where_is(before.incidents, with_id(id), i);
    assert forall|j: int| 0 <= j < before.events.len() && after.events.len() == before.events.len()
        + 1 && after.events.drop_last() == before.events implies #[trigger] after.events[j]
        == before.events[j] by {
        assert(after.events.drop_last()[j] == after.events[j]);
    }
}

/// A transition, an edit or an entry for an id that no incident has changes nothing.
pub proof fn law_a_missing_incident_is_left_alone(
    before: OpsState,
    after: OpsState,
    r: LifecycleOutcome,
    edited: Option<OpsIncident>,
    id: u128,
    t: IncidentTransition,
    actor: Actor,
    note: Option<Seq<char>>,
    change: spec_fn(OpsIncident) -> OpsIncident,
    kind: IncidentEventKind,
    now: Timestamp,
    event_id: u128,
)
    requires
        forall|j: int| 0 <= j < before.incidents.len() ==> (#[trigger] before.incidents[j]).id != id,
    ensures
        lifecycle_step(
            before,
            after,
            r,
            id,
            t,
            actor,
            note,
            verdict_on(before.incidents, id, t),
            now,
            event_id,
        ) ==> after == before && r is NotFound,
        edit_step(before, after, edited, id, change, kind, actor, now, event_id) ==> after == before
            && edited is None,
        append_step(before, after, id, kind, actor, note, now, event_id) ==> after.incidents
            == before.incidents && after.events == before.events && after.notifications
            == before.notifications,
{
    lemma_index_where_none(before.incidents, with_id(id));
}

/// Assigning sets the assignee and publishing the visibility of the incident asked for, and
/// nothing else of it or of any other; each leaves one entry of its kind.
pub proof fn law_an_edit_changes_what_it_names(
    before: OpsState,
    after: OpsState,
    r: Option<OpsIncident>,
    id: u128,
    assignee: Option<UserId>,
    visibility: IncidentVisibility,
    assigns: bool,
    kind: IncidentEventKind,
    actor: Actor,
    now: Timestamp,
    event_id: u128,
    i: int,
)
    requires
        edit_step(
            before,
            after,
            r,
            id,
            if assigns {
                assigned(assignee, now)
            } else {
                shown(visibility, now)
            },
            kind,
            actor,
            now,
            event_id,
        ),
        0 <= i < before.incidents.len(),
        before.incidents[i].id == id,
        forall|j: int| 0 <= j < i ==> (#[trigger] before.incidents[j]).id != id,
    ensures
        ({
            let (b, a) = (before.incidents[i], after.incidents[i]);
            &&& assigns ==> a == (OpsIncident { assigned_to: assignee, updated_at: now, ..b })
            &&& !assigns ==> a == (OpsIncident { visibility, updated_at: now, ..b })
            &&& r matches Some(u) && u.same(a)
            &&& after.incidents.len() == before.incidents.len()
            &&& forall|j: int|
                0 <= j < before.incidents.len() && j != i ==> #[trigger] after.incidents[j]
                    == before.incidents[j]
            &&& after.notifications == before.notifications
            &&& after.events.len() == before.events.len() + 1
            &&& after.events.drop_last() == before.events
            &&& after.events.last().kind == kind
            &&& after.events.last().incident_id == id
            &&& after.events.last().occurred_at == now
        }),
        assign_event(assignee) == (match assignee {
            Some(_) => IncidentEventKind::Assigned,
            None => IncidentEventKind::Unassigned,
        }),
{
    lemma_index_where_is(before.incidents, with_id(id), i);
}

/// A declared incident is a manual, internal one that is triggered at that instant, with
/// what was asked for; it joins the others, and its timeline begins with one entry.
pub proof fn law_a_declared_incident_begins_now(
    before: OpsState,
    after: OpsState,
    r: OpsIncident,
    new: NewManualIncident,
    actor: Actor,
    now: Timestamp,
    id: u128,
    event_id: u128,
)
    requires
        declare_step(before, after, r, new, actor, now, id, event_id),
    ensures
        ({
            let i = after.incidents.last();
            &&& after.incidents == before.incidents.push(i)
            &&& r.same(i)
            &&& i.id == id && i.target_id == new.target_id && i.title == new.title
            &&& i.severity == new.severity && i.urgency == new.urgency
            &&& i.state == IncidentState::Triggered
            &&& i.origin == IncidentOrigin::Manual
            &&& i.visibility == IncidentVisibility::Internal
            &&& i.started_at == now && i.created_at == now && i.updated_at == now
            &&& i.ended_at is None && i.resolved_by is None && i.assigned_to is None
            &&& i.acknowledged_at is None && i.acknowledged_by is None
            &&& i.next_escalation_at is None && i.escalation_level == 0 && i.escalation_round == 0
            &&& after.events.drop_last() == before.events
            &&& after.events.last().kind == IncidentEventKind::Triggered
            &&& after.events.last().incident_id == id
            &&& after.events.last().occurred_at == now
            &&& after.events.last().message is None
            &&& after.notifications == before.notifications
        }),
{
    assert(after.incidents =~= before.incidents.push(after.incidents.last()));
}

/// The console lists the incidents of the state, severity and assignee asked for, all of
/// them before paging, latest start first.
pub proof fn law_the_console_lists_what_is_asked_for(
    s: Seq<OpsIncident>,
    f: IncidentOpsFilter,
    x: OpsIncident,
    limit: nat,
)
    ensures
        ({
            let all = stable_sorted(s.filter(f.admits()), newest_incident_first());
            let out = page_of(all, f.offset as nat, limit);
            &&& all.contains(x) <==> {
                &&& s.contains(x)
                &&& f.state matches Some(v) ==> x.state == v
                &&& f.severity matches Some(v) ==> x.severity == v
                &&& f.assignee matches Some(v) ==> x.assigned_to == Some(v)
            }
            &&& out.len() <= limit
            &&& forall|i: int| 0 <= i < out.len() ==> #[trigger] out[i] == all[f.offset + i]
            &&& forall|i: int, j: int|
                0 <= i < j < out.len() ==> (#[trigger] out[i]).started_at.nanos >= (
                #[trigger] out[j]).started_at.nanos
        }),
{
    lemma_listing(s, f.admits(), newest_incident_first(), f.offset as nat, limit);
}

/// A timeline holds the incident's entries, all of them, oldest first.
pub proof fn law_a_timeline_is_chronological(events: Seq<IncidentEvent>, id: u128, x: IncidentEvent)
    ensures
        ({
            let out = stable_sorted(
                events.filter(|e: IncidentEvent| e.incident_id == id),
                oldest_event_first(),
            );
            &&& out.contains(x) <==> events.contains(x) && x.incident_id == id
            &&& forall|i: int, j: int|
                0 <= i < j < out.len() ==> (#[trigger] out[i]).occurred_at.nanos <= (
                #[trigger] out[j]).occurred_at.nanos
        }),
{
    let p = |e: IncidentEvent| e.incident_id == id;
    lemma_listing(events, p, oldest_event_first(), 0, events.len());
    let out = stable_sorted(events.filter(p), oldest_event_first());
    lemma_stable_sorted(events.filter(p), oldest_event_first());
}

/// The retry sweep takes the pages that failed with attempts left, and asks for each as it
/// was recorded.
pub proof fn law_the_sweep_takes_failed_pages(
    log: Seq<(OrgId, IncidentNotification)>,
    max_attempts: i32,
    x: (OrgId, IncidentNotification),
    p: PendingNotification,
)
    ensures
        log.filter(retriable(max_attempts)).contains(x) <==> log.contains(x) && x.1.status
            == NotificationStatus::Failed && x.1.attempt < max_attempts,
        is_pending_of(p, x) ==> p.id == x.1.id && p.org == x.0 && p.incident_id == x.1.incident_id
            && p.channel_id == x.1.channel_id && p.transport == x.1.transport && p.reason
            == x.1.reason && p.attempt == x.1.attempt,
{
    lemma_filter_members(log, retriable(max_attempts));
}

/// A recorded page is what was asked to be recorded, under its own id and instant.
pub proof fn law_a_page_is_recorded_as_given(
    n: IncidentNotification,
    new: NewIncidentNotification,
    id: u128,
    now: Timestamp,
)
    requires
        is_recorded(n, new, id, now),
    ensures
        n.id == id && n.created_at == now,
        n.incident_id == new.incident_id && n.escalation_level == new.escalation_level,
        n.target_user_id == new.target_user_id && n.channel_id == new.channel_id,
        n.transport == new.transport && n.reason == new.reason && n.status == new.status,
        n.attempt == new.attempt && n.error == new.error && n.sent_at == new.sent_at,
{
}

/// The public page shows the operator's note word for word where it is not blank, and a
/// fixed sentence otherwise.
pub proof fn law_a_blank_note_is_replaced(note: Seq<char>)
    ensures
        trimmed(note).len() > 0 ==> resolution_text(Some(note)) == note,
        trimmed(note).len() == 0 ==> resolution_text(Some(note))
            == "This incident has been resolved."@,
        resolution_text(None) == "This incident has been resolved."@,
{
}

/// An entry that is appended for an incident is the last of the log: of the kind, by the actor,
/// with the message and at the instant given, without detail. Nothing else changes.
pub proof fn law_an_entry_is_appended_as_given(
    before: OpsState,
    after: OpsState,
    id: u128,
    kind: IncidentEventKind,
    actor: Actor,
    message: Option<Seq<char>>,
    now: Timestamp,
    event_id: u128,
    i: int,
)
    requires
        append_step(before, after, id, kind, actor, message, now, event_id),
        0 <= i < before.incidents.len(),
        before.incidents[i].id == id,
    ensures
        after.incidents == before.incidents,
        after.notifications == before.notifications,
        after.events == before.events.push(after.events.last()),
        ({
            let e = after.events.last();
            &&& e.id == event_id && e.incident_id == id && e.occurred_at == now && e.kind == kind
            &&& e.detail@ == "{}"@ && opt_view(e.message) == message
            &&& match actor {
                Actor::System => e.actor_type == ActorType::System && e.actor_id is None,
                Actor::User(u) => e.actor_type == ActorType::User && e.actor_id == Some(u),
                Actor::Mcp(u) => e.actor_type == ActorType::Mcp && e.actor_id == Some(u),
            }
        }),
{
    lemma_index_where(before.incidents, with_id(id));
    if index_where(before.incidents, with_id(id)) is None {
        assert(!with_id(id)(before.incidents[i]));
    }
    assert(after.events =~= before.events.push(after.events.last()));
}

/// What is logged with an edit or a declaration says who did it and under which id it is
/// logged; it carries no message and no detail.
pub proof fn law_edits_and_declarations_say_who(
    before: OpsState,
    after: OpsState,
    r: Option<OpsIncident>,
    declared_now: OpsIncident,
    new: NewManualIncident,
    id: u128,
    change: spec_fn(OpsIncident) -> OpsIncident,
    kind: IncidentEventKind,
    actor: Actor,
    now: Timestamp,
    event_id: u128,
)
    requires
        edit_step(before, after, r, id, change, kind, actor, now, event_id) && r is Some
            || declare_step(before, after, declared_now, new, actor, now, id, event_id),
    ensures
        ({
            let e = after.events.last();
            &&& after.events == before.events.push(e)
            &&& e.id == event_id && e.incident_id == id && e.occurred_at == now
            &&& e.detail@ == "{}"@ && e.message is None
            &&& match actor {
                Actor::System => e.actor_type == ActorType::System && e.actor_id is None,
                Actor::User(u) => e.actor_type == ActorType::User && e.actor_id == Some(u),
                Actor::Mcp(u) => e.actor_type == ActorType::Mcp && e.actor_id == Some(u),
            }
        }),
{
    assert(after.events =~= before.events.push(after.events.last()));
}

/// A declared incident pages and counts as downtime; nothing has been checked or has failed
/// yet, no region is named and no policy escalates it.
pub proof fn law_a_declared_incident_starts_clean(
    before: OpsState,
    after: OpsState,
    r: OpsIncident,
    new: NewManualIncident,
    actor: Actor,
    now: Timestamp,
    id: u128,
    event_id: u128,
)
    requires
        declare_step(before, after, r, new, actor, now, id, event_id),
    ensures
        after.incidents.last().paging_enabled,
        after.incidents.last().counts_as_downtime,
        after.incidents.last().check_count == 0,
        after.incidents.last().error_sample is None,
        after.incidents.last().escalation_policy_id is None,
        after.incidents.last().regions_down@.len() == 0,
        after.incidents.last().regions_up@.len() == 0,
{
}

/// The counts by state look past the state asked for: an incident counts under its own state
/// where it has the severity and the assignee asked for.
pub proof fn law_counts_look_past_the_state(
    s: Seq<OpsIncident>,
    f: IncidentOpsFilter,
    state: IncidentState,
)
    ensures
        s.filter(|i: OpsIncident| f.concerns(i) && i.state == state).len() == s.filter(
            |i: OpsIncident|
                i.state == state && (f.severity matches Some(v) ==> i.severity == v) && (
                f.assignee matches Some(u) ==> i.assigned_to == Some(u)),
        ).len(),
{
    assert((|i: OpsIncident| f.concerns(i) && i.state == state) =~= (|i: OpsIncident|
        i.state == state && (f.severity matches Some(v) ==> i.severity == v) && (
        f.assignee matches Some(u) ==> i.assigned_to == Some(u))));
}

} // verus!
