//! Operator narration of incidents: public titles, descriptions and the log of public
//! updates.

use vstd::prelude::*;

use crate::collections::{
    derefs, index_where, is_sorted, lemma_filter_members, lemma_index_where, lemma_index_where_is,
    lemma_index_where_none, lemma_listing, lemma_stable_sorted, page_of, page_refs, position,
    retain, select_refs, sort_refs, stable_sort, stable_sorted,
};
use crate::domain::CheckStatus;
use crate::ids::OrgId;
use crate::incident::IncidentSeverity;
use crate::strings::{opt_clone, str_eq};
use crate::time::{now, Timestamp};

verus! {

/// Where the handling of an incident stands.
#[derive(Debug, Clone, Copy, PartialEq, Eq, Structural)]
pub enum IncidentStatusPhase {
    Investigating,
    Identified,
    Monitoring,
    Resolved,
}

impl IncidentStatusPhase {
    /// The phase as the database writes it.
    pub open spec fn db_name(self) -> Seq<char> {
        match self {
            IncidentStatusPhase::Investigating => "investigating"@,
            IncidentStatusPhase::Identified => "identified"@,
            IncidentStatusPhase::Monitoring => "monitoring"@,
            IncidentStatusPhase::Resolved => "resolved"@,
        }
    }

    /// The phase that a stored name stands for.
    pub open spec fn of_name(s: Seq<char>) -> IncidentStatusPhase {
        if s == "identified"@ {
            IncidentStatusPhase::Identified
        } else if s == "monitoring"@ {
            IncidentStatusPhase::Monitoring
        } else if s == "resolved"@ {
            IncidentStatusPhase::Resolved
        } else {
            IncidentStatusPhase::Investigating
        }
    }

    /// The phase as the database writes it.
    pub fn as_db_str(self) -> (r: &'static str)
        ensures
            r@ == self.db_name(),
            match self {
                IncidentStatusPhase::Investigating => r@ == "investigating"@,
                IncidentStatusPhase::Identified => r@ == "identified"@,
                IncidentStatusPhase::Monitoring => r@ == "monitoring"@,
                IncidentStatusPhase::Resolved => r@ == "resolved"@,
            },
    {
        match self {
            IncidentStatusPhase::Investigating => "investigating",
            IncidentStatusPhase::Identified => "identified",
            IncidentStatusPhase::Monitoring => "monitoring",
            IncidentStatusPhase::Resolved => "resolved",
        }
    }

    /// The phase that a stored name stands for.
    pub fn from_db_str(s: &str) -> (r: IncidentStatusPhase)
        ensures
            r == IncidentStatusPhase::of_name(s@),
            r == (if s@ == "identified"@ {
                IncidentStatusPhase::Identified
            } else if s@ == "monitoring"@ {
                IncidentStatusPhase::Monitoring
            } else if s@ == "resolved"@ {
                IncidentStatusPhase::Resolved
            } else {
                IncidentStatusPhase::Investigating
            }),
    {
        if str_eq(s, "identified") {
            IncidentStatusPhase::Identified
        } else if str_eq(s, "monitoring") {
            IncidentStatusPhase::Monitoring
        } else if str_eq(s, "resolved") {
            IncidentStatusPhase::Resolved
        } else {
            IncidentStatusPhase::Investigating
        }
    }
}

/// A written phase reads back.
pub proof fn law_phase_round_trip(p: IncidentStatusPhase)
    ensures
        IncidentStatusPhase::of_name(p.db_name()) == p,
{
    reveal_strlit("investigating");
    reveal_strlit("identified");
    reveal_strlit("monitoring");
    reveal_strlit("resolved");
    assert("identified"@[0] == 'i' && "monitoring"@[0] == 'm');
    assert("identified"@.len() != "investigating"@.len());
    assert("resolved"@.len() != "identified"@.len());
    assert("resolved"@.len() != "investigating"@.len());
    assert("monitoring"@.len() != "investigating"@.len());
    assert("monitoring"@.len() != "resolved"@.len());
}

/// One entry of an incident's public log.
#[derive(Debug)]
pub struct PublicIncidentUpdate {
    pub posted_at: Timestamp,
    pub phase: IncidentStatusPhase,
    pub message: String,
}

impl Clone for PublicIncidentUpdate {
    fn clone(&self) -> (r: Self)
        ensures
            r == *self,
    {
        PublicIncidentUpdate {
            posted_at: self.posted_at,
            phase: self.phase,
            message: self.message.clone(),
        }
    }
}

/// An entry to be posted.
#[derive(Debug)]
pub struct NewIncidentUpdate {
    pub phase: IncidentStatusPhase,
    pub message: String,
}

/// A change of an incident's narration: `None` leaves a field, `Some(None)` clears it.
#[derive(Debug)]
pub struct IncidentNarrationUpdate {
    pub public_title: Option<Option<String>>,
    pub public_description: Option<Option<String>>,
    pub severity: Option<IncidentSeverity>,
}

/// An incident with its public log.
#[derive(Debug)]
pub struct Incident {
    pub id: u128,
    pub target_id: u128,
    pub started_at: Timestamp,
    pub ended_at: Option<Timestamp>,
    pub status: CheckStatus,
    pub duration_secs: Option<u64>,
    pub check_count: u64,
    pub error_sample: Option<String>,
    pub severity: IncidentSeverity,
    pub public_title: Option<String>,
    pub public_description: Option<String>,
    pub created_at: Option<Timestamp>,
    pub updated_at: Option<Timestamp>,
    pub updates: Vec<PublicIncidentUpdate>,
}

/// What an incident says.
pub ghost struct IncidentView {
    pub id: u128,
    pub target_id: u128,
    pub started_at: Timestamp,
    pub ended_at: Option<Timestamp>,
    pub status: CheckStatus,
    pub duration_secs: Option<u64>,
    pub check_count: u64,
    pub error_sample: Option<String>,
    pub severity: IncidentSeverity,
    pub public_title: Option<String>,
    pub public_description: Option<String>,
    pub created_at: Option<Timestamp>,
    pub updated_at: Option<Timestamp>,
    pub updates: Seq<PublicIncidentUpdate>,
}

impl View for Incident {
    type V = IncidentView;

    open spec fn view(&self) -> IncidentView {
        IncidentView {
            id: self.id,
            target_id: self.target_id,
            started_at: self.started_at,
            ended_at: self.ended_at,
            status: self.status,
            duration_secs: self.duration_secs,
            check_count: self.check_count,
            error_sample: self.error_sample,
            severity: self.severity,
            public_title: self.public_title,
            public_description: self.public_description,
            created_at: self.created_at,
            updated_at: self.updated_at,
            updates: self.updates@,
        }
    }
}

impl Clone for Incident {
    fn clone(&self) -> (r: Self)
        ensures
            r@ == self@,
    {
        Incident {
            id: self.id,
            target_id: self.target_id,
            started_at: self.started_at,
            ended_at: self.ended_at,
            status: self.status,
            duration_secs: self.duration_secs,
            check_count: self.check_count,
            error_sample: opt_clone(&self.error_sample),
            severity: self.severity,
            public_title: opt_clone(&self.public_title),
            public_description: opt_clone(&self.public_description),
            created_at: self.created_at,
            updated_at: self.updated_at,
            updates: clone_updates(&self.updates),
        }
    }
}

fn clone_updates(v: &Vec<PublicIncidentUpdate>) -> (out: Vec<PublicIncidentUpdate>)
    ensures
        out@ == v@,
{
    crate::collections::clone_all(v)
}

/// One open incident with its target's name and its latest update.
#[derive(Debug)]
pub struct ActiveIncident {
    pub id: u128,
    pub target_id: u128,
    pub target_name: String,
    pub severity: IncidentSeverity,
    pub started_at: Timestamp,
    pub public_title: Option<String>,
    pub latest_update: Option<PublicIncidentUpdate>,
}

/// The verdict that a stored word stands for: an incident starts at an outage, so
/// anything but the other two words reads as down.
pub open spec fn status_of(s: Seq<char>) -> CheckStatus {
    if s == "degraded"@ {
        CheckStatus::Degraded
    } else if s == "error"@ {
        CheckStatus::Error
    } else {
        CheckStatus::Down
    }
}

/// The verdict that a stored word stands for.
pub fn parse_status(s: &str) -> (r: CheckStatus)
    ensures
        r == status_of(s@),
        r == (if s@ == "degraded"@ {
            CheckStatus::Degraded
        } else if s@ == "error"@ {
            CheckStatus::Error
        } else {
            CheckStatus::Down
        }),
{
    if str_eq(s, "degraded") {
        CheckStatus::Degraded
    } else if str_eq(s, "error") {
        CheckStatus::Error
    } else {
        CheckStatus::Down
    }
}

/// An incident's row.
#[derive(Debug)]
pub struct IncidentRow {
    pub id: u128,
    pub target_id: u128,
    pub started_at: Timestamp,
    pub ended_at: Option<Timestamp>,
    pub severity: String,
    pub status_at_start: String,
    pub check_count: i32,
    pub error_sample: Option<String>,
    pub public_title: Option<String>,
    pub public_description: Option<String>,
    pub duration_secs: Option<i32>,
    pub created_at: Timestamp,
    pub updated_at: Timestamp,
}

/// A public update's row.
#[derive(Debug)]
pub struct UpdateRow {
    pub posted_at: Timestamp,
    pub phase: String,
    pub message: String,
}

/// The entry of an update row.
pub open spec fn entry_of(u: UpdateRow) -> PublicIncidentUpdate {
    PublicIncidentUpdate {
        posted_at: u.posted_at,
        phase: IncidentStatusPhase::of_name(u.phase@),
        message: u.message,
    }
}

/// The severity that a stored name stands for.
pub open spec fn severity_of(s: Seq<char>) -> IncidentSeverity {
    if s == "critical"@ {
        IncidentSeverity::Critical
    } else if s == "major"@ {
        IncidentSeverity::Major
    } else {
        IncidentSeverity::Minor
    }
}

/// A stored count, where a negative one counts as none.
pub open spec fn at_least_zero(n: i32) -> u64 {
    if n < 0 {
        0
    } else {
        n as u64
    }
}

fn non_negative(n: i32) -> (r: u64)
    ensures
        r == at_least_zero(n),
{
    if n < 0 {
        0
    } else {
        n as u64
    }
}

/// The incident of a row and its update rows.
pub open spec fn incident_of(row: IncidentRow, updates: Seq<UpdateRow>) -> IncidentView {
    IncidentView {
        id: row.id,
        target_id: row.target_id,
        started_at: row.started_at,
        ended_at: row.ended_at,
        status: status_of(row.status_at_start@),
        duration_secs: match row.duration_secs {
            Some(d) => Some(at_least_zero(d)),
            None => None,
        },
        check_count: at_least_zero(row.check_count),
        error_sample: row.error_sample,
        severity: severity_of(row.severity@),
        public_title: row.public_title,
        public_description: row.public_description,
        created_at: Some(row.created_at),
        updated_at: Some(row.updated_at),
        updates: updates.map_values(|u: UpdateRow| entry_of(u)),
    }
}

/// The incident of a row and its update rows.
pub fn row_to_incident(row: IncidentRow, updates: &Vec<UpdateRow>) -> (r: Incident)
    ensures
        r@ == incident_of(row, updates@),
{
    let mut log: Vec<PublicIncidentUpdate> = Vec::new();
    let mut i: usize = 0;
    while i < updates.len()
        invariant
            i <= updates@.len(),
            log@ == updates@.take(i as int).map_values(|u: UpdateRow| entry_of(u)),
        decreases updates.len() - i,
    {
        let u = &updates[i];
        log.push(
            PublicIncidentUpdate {
                posted_at: u.posted_at,
                phase: IncidentStatusPhase::from_db_str(u.phase.as_str()),
                message: u.message.clone(),
            },
        );
        i += 1;
        assert(log@ =~= updates@.take(i as int).map_values(|u: UpdateRow| entry_of(u)));
    }
    assert(updates@.take(i as int) =~= updates@);
    let status = parse_status(row.status_at_start.as_str());
    let severity = IncidentSeverity::from_db_str(row.severity.as_str());
    let duration_secs = match row.duration_secs {
        Some(d) => Some(non_negative(d)),
        None => None,
    };
    Incident {
        id: row.id,
        target_id: row.target_id,
        started_at: row.started_at,
        ended_at: row.ended_at,
        status,
        duration_secs,
        check_count: non_negative(row.check_count),
        error_sample: row.error_sample,
        severity,
        public_title: row.public_title,
        public_description: row.public_description,
        created_at: Some(row.created_at),
        updated_at: Some(row.updated_at),
        updates: log,
    }
}

/// An open incident's row, joined with its latest update where there is one.
#[derive(Debug)]
pub struct ActiveIncidentRow {
    pub id: u128,
    pub target_id: u128,
    pub target_name: String,
    pub severity: String,
    pub started_at: Timestamp,
    pub public_title: Option<String>,
    pub update_posted_at: Option<Timestamp>,
    pub update_phase: Option<String>,
    pub update_message: Option<String>,
}

/// The open incident of a row: it has a latest update only where the row holds all of
/// one.
pub fn row_to_active(r: ActiveIncidentRow) -> (a: ActiveIncident)
    ensures
        a == (ActiveIncident {
            id: r.id,
            target_id: r.target_id,
            target_name: r.target_name,
            severity: severity_of(r.severity@),
            started_at: r.started_at,
            public_title: r.public_title,
            latest_update: match (r.update_posted_at, r.update_phase, r.update_message) {
                (Some(posted_at), Some(phase), Some(message)) => Some(
                    PublicIncidentUpdate {
                        posted_at,
                        phase: IncidentStatusPhase::of_name(phase@),
                        message,
                    },
                ),
                _ => None,
            },
        }),
{
    let severity = IncidentSeverity::from_db_str(r.severity.as_str());
    let latest_update = match (r.update_posted_at, r.update_phase, r.update_message) {
        (Some(posted_at), Some(phase), Some(message)) => {
            let phase = IncidentStatusPhase::from_db_str(phase.as_str());
            Some(PublicIncidentUpdate { posted_at, phase, message })
        },
        _ => None,
    };
    ActiveIncident {
        id: r.id,
        target_id: r.target_id,
        target_name: r.target_name,
        severity,
        started_at: r.started_at,
        public_title: r.public_title,
        latest_update,
    }
}

/// How many open incidents one read may return.
pub fn active_cap(limit: usize) -> (r: i64)
    ensures
        r == (if limit < 1 {
            1int
        } else if limit > 1000 {
            1000int
        } else {
            limit as int
        }),
{
    if limit < 1 {
        1
    } else if limit > 1000 {
        1000
    } else {
        limit as i64
    }
}

/// Which of a target's incidents a list holds.
#[derive(Debug, Clone, Copy, PartialEq, Eq, Structural)]
pub struct IncidentPage {
    pub ongoing_only: bool,
    pub offset: usize,
    pub limit: usize,
}

/// The incident belongs on the list.
pub open spec fn on_list(ongoing_only: bool) -> spec_fn(Incident) -> bool {
    |i: Incident| ongoing_only ==> i.ended_at is None
}

/// Latest start first.
pub open spec fn latest_first() -> spec_fn(Incident, Incident) -> bool {
    |a: Incident, b: Incident| a.started_at.nanos >= b.started_at.nanos
}

/// One page of a target's incidents, latest start first.
pub fn page_incidents(incidents: Vec<Incident>, query: IncidentPage) -> (out: Vec<Incident>)
    ensures
        out@ == page_of(
            stable_sorted(incidents@.filter(on_list(query.ongoing_only)), latest_first()),
            query.offset as nat,
            query.limit as nat,
        ),
{
    let mut incidents = incidents;
    let keep = |i: &Incident| -> (b: bool)
        ensures
            b == (query.ongoing_only ==> i.ended_at is None),
    { !query.ongoing_only || i.ended_at.is_none() };
    retain(&mut incidents, keep, Ghost(on_list(query.ongoing_only)));
    let le = |a: &Incident, b: &Incident| -> (r: bool)
        ensures
            r == (a.started_at.nanos >= b.started_at.nanos),
    { a.started_at.nanos >= b.started_at.nanos };
    let sorted = stable_sort(incidents, le, Ghost(latest_first()));
    crate::collections::page(sorted, query.offset, query.limit)
}

/// The incident has this id.
pub open spec fn has_id(id: u128) -> spec_fn(Incident) -> bool {
    |i: Incident| i.id == id
}

/// The incident is open.
pub open spec fn is_open() -> spec_fn(Incident) -> bool {
    |i: Incident| i.ended_at is None
}

/// Earliest start first.
pub open spec fn earliest_first() -> spec_fn(Incident, Incident) -> bool {
    |a: Incident, b: Incident| a.started_at.nanos <= b.started_at.nanos
}

/// An incident after a change of its narration.
pub open spec fn narrated(
    i: IncidentView,
    update: IncidentNarrationUpdate,
    now: Timestamp,
) -> IncidentView {
    IncidentView {
        public_title: match update.public_title {
            Some(t) => t,
            None => i.public_title,
        },
        public_description: match update.public_description {
            Some(d) => d,
            None => i.public_description,
        },
        severity: match update.severity {
            Some(s) => s,
            None => i.severity,
        },
        updated_at: Some(now),
        ..i
    }
}

/// An incident after an entry was posted to its log.
pub open spec fn posted(i: IncidentView, entry: PublicIncidentUpdate) -> IncidentView {
    IncidentView {
        updates: i.updates.push(entry),
        updated_at: Some(entry.posted_at),
        ..i
    }
}

/// Only the incident at `i` may differ.
pub open spec fn only_changes(before: Seq<Incident>, after: Seq<Incident>, i: int) -> bool {
    after.len() == before.len() && forall|j: int|
        0 <= j < before.len() && j != i ==> #[trigger] after[j] == before[j]
}

/// What changing an incident's narration does and returns.
pub open spec fn patched(
    before: Seq<Incident>,
    after: Seq<Incident>,
    r: Option<Incident>,
    id: u128,
    update: IncidentNarrationUpdate,
    now: Timestamp,
) -> bool {
    match index_where(before, has_id(id)) {
        None => after == before && r is None,
        Some(i) => {
            &&& only_changes(before, after, i)
            &&& after[i]@ == narrated(before[i]@, update, now)
            &&& r matches Some(x)
            &&& x@ == after[i]@
        },
    }
}

/// What posting an update does and returns.
pub open spec fn appended(
    before: Seq<Incident>,
    after: Seq<Incident>,
    r: Option<PublicIncidentUpdate>,
    id: u128,
    new: NewIncidentUpdate,
    now: Timestamp,
) -> bool {
    match index_where(before, has_id(id)) {
        None => after == before && r is None,
        Some(i) => {
            let entry = PublicIncidentUpdate {
                posted_at: now,
                phase: new.phase,
                message: new.message,
            };
            &&& only_changes(before, after, i)
            &&& after[i]@ == posted(before[i]@, entry)
            &&& r == Some(entry)
        },
    }
}

/// The banner entry of an open incident. The store knows no target names.
pub open spec fn shows(a: ActiveIncident, i: Incident) -> bool {
    &&& a.id == i.id
    &&& a.target_id == i.target_id
    &&& a.target_name@ == Seq::<char>::empty()
    &&& a.severity == i.severity
    &&& a.started_at == i.started_at
    &&& a.public_title == i.public_title
    &&& a.latest_update == (if i.updates@.len() == 0 {
        None
    } else {
        Some(i.updates@.last())
    })
}

/// Incidents in memory, of one org.
#[derive(Debug)]
pub struct InMemoryIncidentNarrationStore {
    incidents: Vec<Incident>,
}

impl View for InMemoryIncidentNarrationStore {
    type V = Seq<Incident>;

    closed spec fn view(&self) -> Seq<Incident> {
        self.incidents@
    }
}

impl InMemoryIncidentNarrationStore {
    pub fn new() -> (r: Self)
        ensures
            r@ == Seq::<Incident>::empty(),
    {
        InMemoryIncidentNarrationStore { incidents: Vec::new() }
    }

    pub fn seed(&mut self, incident: Incident)
        ensures
            final(self)@ == old(self)@.push(incident),
    {
        self.incidents.push(incident);
    }

    fn find(&self, id: u128) -> (r: Option<usize>)
        ensures
            match r {
                Some(i) => index_where(self@, has_id(id)) == Some(i as int) && i < self@.len(),
                None => index_where(self@, has_id(id)) is None,
            },
    {
        let same = |i: &Incident| -> (b: bool)
            ensures
                b == (i.id == id),
        { i.id == id };
        position(&self.incidents, same, Ghost(has_id(id)))
    }

    /// The incident with this id.
    pub fn get(&self, _org: OrgId, id: u128) -> (r: Option<Incident>)
        ensures
            match index_where(self@, has_id(id)) {
                Some(i) => r matches Some(x) && x@ == self@[i]@,
                None => r is None,
            },
    {
        match self.find(id) {
            Some(i) => Some(self.incidents[i].clone()),
            None => None,
        }
    }

    /// Changes an incident's narration at `now`.
    pub fn patch_narration_at(
        &mut self,
        _org: OrgId,
        id: u128,
        update: IncidentNarrationUpdate,
        now: Timestamp,
    ) -> (r: Option<Incident>)
        ensures
            patched(old(self)@, final(self)@, r, id, update, now),
    {
        let Some(i) = self.find(id) else {
            return None;
        };
        let mut inc = self.incidents[i].clone();
        if let Some(t) = update.public_title {
            inc.public_title = t;
        }
        if let Some(d) = update.public_description {
            inc.public_description = d;
        }
        if let Some(s) = update.severity {
            inc.severity = s;
        }
        inc.updated_at = Some(now);
        let shown = inc.clone();
        self.incidents[i] = inc;
        Some(shown)
    }

    /// Changes an incident's narration now.
    pub fn patch_narration(&mut self, org: OrgId, id: u128, update: IncidentNarrationUpdate) -> (r:
        Option<Incident>)
        ensures
            exists|t: Timestamp|
                t.wf() && #[trigger] patched(old(self)@, final(self)@, r, id, update, t),
    {
        let t = now();
        self.patch_narration_at(org, id, update, t)
    }

    /// Posts an update at `now`.
    pub fn append_update_at(
        &mut self,
        _org: OrgId,
        incident_id: u128,
        new: NewIncidentUpdate,
        _author: Option<String>,
        now: Timestamp,
    ) -> (r: Option<PublicIncidentUpdate>)
        ensures
            appended(old(self)@, final(self)@, r, incident_id, new, now),
    {
        let Some(i) = self.find(incident_id) else {
            return None;
        };
        let entry = PublicIncidentUpdate { posted_at: now, phase: new.phase, message: new.message };
        let mut inc = self.incidents[i].clone();
        inc.updates.push(entry.clone());
        inc.updated_at = Some(now);
        self.incidents[i] = inc;
        Some(entry)
    }

    /// Posts an update now.
    pub fn append_update(
        &mut self,
        org: OrgId,
        incident_id: u128,
        new: NewIncidentUpdate,
        author: Option<String>,
    ) -> (r: Option<PublicIncidentUpdate>)
        ensures
            exists|t: Timestamp|
                t.wf() && #[trigger] appended(old(self)@, final(self)@, r, incident_id, new, t),
    {
        let t = now();
        self.append_update_at(org, incident_id, new, author, t)
    }

    /// Open incidents, earliest start first, at most `limit` of them.
    pub fn list_active(&self, _org: OrgId, limit: usize) -> (out: Vec<ActiveIncident>)
        ensures
            ({
                let open = page_of(
                    stable_sorted(self@.filter(is_open()), earliest_first()),
                    0,
                    limit as nat,
                );
                &&& out@.len() == open.len()
                &&& forall|k: int| 0 <= k < out@.len() ==> shows(#[trigger] out@[k], open[k])
            }),
    {
        let hit = |i: &Incident| -> (b: bool)
            ensures
                b == (i.ended_at is None),
        { i.ended_at.is_none() };
        let hits = select_refs(&self.incidents, hit, Ghost(is_open()));
        let le = |a: &Incident, b: &Incident| -> (r: bool)
            ensures
                r == (a.started_at.nanos <= b.started_at.nanos),
        { a.started_at.nanos <= b.started_at.nanos };
        let sorted = sort_refs(hits, le, Ghost(earliest_first()));
        let open = page_refs(sorted, 0, limit);
        let ghost all = derefs(open@);
        let mut out: Vec<ActiveIncident> = Vec::new();
        let mut k: usize = 0;
        while k < open.len()
            invariant
                k <= open@.len(),
                all == derefs(open@),
                out@.len() == k,
                forall|j: int| 0 <= j < k ==> shows(#[trigger] out@[j], all[j]),
            decreases open.len() - k,
        {
            assert(all[k as int] == *open@[k as int]);
            let i = open[k];
            let n: usize = i.updates.len();
            let latest_update = if n == 0 {
                None
            } else {
                Some(i.updates[n - 1].clone())
            };
            out.push(
                ActiveIncident {
                    id: i.id,
                    target_id: i.target_id,
                    target_name: String::new(),
                    severity: i.severity,
                    started_at: i.started_at,
                    public_title: opt_clone(&i.public_title),
                    latest_update,
                },
            );
            k += 1;
        }
        out
    }
}

/// Posting updates only ever adds to the end of an incident's log.
pub proof fn law_log_is_append_only(
    before: Seq<Incident>,
    after: Seq<Incident>,
    r: Option<PublicIncidentUpdate>,
    id: u128,
    new: NewIncidentUpdate,
    now: Timestamp,
    j: int,
)
    requires
        appended(before, after, r, id, new, now),
        0 <= j < before.len(),
    ensures
        after.len() == before.len(),
        after[j].updates@.len() >= before[j].updates@.len(),
        after[j].updates@.take(before[j].updates@.len() as int) == before[j].updates@,
{
    lemma_index_where(before, has_id(id));
    let n = before[j].updates@.len() as int;
    match index_where(before, has_id(id)) {
        Some(i) if i == j => {
            assert(after[j]@.updates == before[j]@.updates.push(r->Some_0));
            assert(after[j].updates@.take(n) =~= before[j].updates@);
        },
        _ => {
            assert(after[j].updates@.take(n) =~= before[j].updates@);
        },
    }
}

/// A field that a narration change leaves out stays; one that it names is set or
/// cleared. The log does not change.
pub proof fn law_narration_touches_what_it_names(
    i: IncidentView,
    update: IncidentNarrationUpdate,
    now: Timestamp,
)
    ensures
        update.public_title is None ==> narrated(i, update, now).public_title == i.public_title,
        update.public_title == Some(None::<String>) ==> narrated(i, update, now).public_title
            is None,
        update.public_description is None ==> narrated(i, update, now).public_description
            == i.public_description,
        update.severity is None ==> narrated(i, update, now).severity == i.severity,
        narrated(i, update, now).updates == i.updates,
        narrated(i, update, now).started_at == i.started_at,
        narrated(i, update, now).ended_at == i.ended_at,
{
}

/// A page of incidents is in order of their start, latest first; with `ongoing_only`
/// none of them has ended.
pub proof fn law_incident_page_is_ordered(s: Seq<Incident>, q: IncidentPage)
    ensures
        ({
            let out = page_of(
                stable_sorted(s.filter(on_list(q.ongoing_only)), latest_first()),
                q.offset as nat,
                q.limit as nat,
            );
            &&& out.len() <= q.limit
            &&& is_sorted(out, latest_first())
            &&& q.ongoing_only ==> forall|k: int|
                0 <= k < out.len() ==> (#[trigger] out[k]).ended_at is None
        }),
{
    broadcast use vstd::seq_lib::group_to_multiset_ensures;

    let kept = s.filter(on_list(q.ongoing_only));
    let sorted = stable_sorted(kept, latest_first());
    lemma_stable_sorted(kept, latest_first());
    lemma_filter_members(s, on_list(q.ongoing_only));
    let out = page_of(sorted, q.offset as nat, q.limit as nat);
    assert forall|a: int, b: int| 0 <= a < b < out.len() implies (latest_first())(
        #[trigger] out[a],
        #[trigger] out[b],
    ) by {
        assert((latest_first())(sorted[q.offset + a], sorted[q.offset + b]));
    }
    if q.ongoing_only {
        assert forall|k: int| 0 <= k < out.len() implies (#[trigger] out[k]).ended_at is None by {
            let x = sorted[q.offset + k];
            assert(out[k] == x);
            assert(sorted.contains(x));
            assert(sorted.to_multiset().count(x) > 0);
            assert(kept.to_multiset().count(x) > 0);
            assert(kept.contains(x));
            assert(on_list(true)(x));
        }
    }
}

/// A change of narration reaches the incident with the id and no other: what it names is set,
/// cleared included, and the rest of the incident stays.
pub proof fn law_a_narration_changes_what_it_names(
    before: Seq<Incident>,
    after: Seq<Incident>,
    r: Option<Incident>,
    id: u128,
    update: IncidentNarrationUpdate,
    now: Timestamp,
    i: int,
)
    requires
        patched(before, after, r, id, update, now),
        0 <= i <= before.len(),
        forall|j: int| 0 <= j < i ==> (#[trigger] before[j]).id != id,
        i < before.len() ==> before[i].id == id,
    ensures
        i == before.len() ==> r is None && after == before,
        i < before.len() ==> {
            let (a, b) = (after[i]@, before[i]@);
            &&& r matches Some(x)
            &&& x@ == a
            &&& after.len() == before.len()
            &&& update.public_title is None ==> a.public_title == b.public_title
            &&& update.public_title matches Some(t) ==> a.public_title == t
            &&& update.public_description is None ==> a.public_description
                == b.public_description
            &&& update.public_description matches Some(d) ==> a.public_description == d
            &&& update.severity is None ==> a.severity == b.severity
            &&& update.severity matches Some(s) ==> a.severity == s
            &&& a.updated_at == Some(now)
            &&& a.id == id && a.target_id == b.target_id
            &&& a.started_at == b.started_at && a.ended_at == b.ended_at
            &&& a.status == b.status && a.duration_secs == b.duration_secs
            &&& a.check_count == b.check_count && a.error_sample == b.error_sample
            &&& a.created_at == b.created_at && a.updates == b.updates
            &&& forall|j: int|
                0 <= j < before.len() && j != i ==> #[trigger] after[j] == before[j]
        },
{
    if i < before.len() {
        lemma_index_where_is(before, has_id(id), i);
    } else {
        lemma_index_where_none(before, has_id(id));
    }
}

/// A posted update is the last of the log of the incident with the id, stamped with the time;
/// the rest of the incident and every other incident stay.
pub proof fn law_a_posted_update_ends_the_log(
    before: Seq<Incident>,
    after: Seq<Incident>,
    r: Option<PublicIncidentUpdate>,
    id: u128,
    new: NewIncidentUpdate,
    now: Timestamp,
    i: int,
)
    requires
        appended(before, after, r, id, new, now),
        0 <= i <= before.len(),
        forall|j: int| 0 <= j < i ==> (#[trigger] before[j]).id != id,
        i < before.len() ==> before[i].id == id,
    ensures
        i == before.len() ==> r is None && after == before,
        i < before.len() ==> {
            let (a, b) = (after[i]@, before[i]@);
            &&& r matches Some(u)
            &&& u.posted_at == now && u.phase == new.phase && u.message == new.message
            &&& after.len() == before.len()
            &&& a.updates == b.updates.push(u)
            &&& a.updated_at == Some(now)
            &&& a.id == id && a.target_id == b.target_id
            &&& a.started_at == b.started_at && a.ended_at == b.ended_at
            &&& a.status == b.status && a.duration_secs == b.duration_secs
            &&& a.check_count == b.check_count && a.error_sample == b.error_sample
            &&& a.severity == b.severity && a.public_title == b.public_title
            &&& a.public_description == b.public_description && a.created_at == b.created_at
            &&& forall|j: int|
                0 <= j < before.len() && j != i ==> #[trigger] after[j] == before[j]
        },
{
    if i < before.len() {
        lemma_index_where_is(before, has_id(id), i);
    } else {
        lemma_index_where_none(before, has_id(id));
    }
}

/// What an incident says is what it holds, field by field.
pub proof fn law_an_incident_says_what_it_holds(x: Incident)
    ensures
        x@.id == x.id && x@.target_id == x.target_id,
        x@.started_at == x.started_at && x@.ended_at == x.ended_at,
        x@.status == x.status && x@.duration_secs == x.duration_secs,
        x@.check_count == x.check_count && x@.error_sample == x.error_sample,
        x@.severity == x.severity && x@.public_title == x.public_title,
        x@.public_description == x.public_description,
        x@.created_at == x.created_at && x@.updated_at == x.updated_at,
        x@.updates == x.updates@,
{
}

/// An incident is found by its id.
pub proof fn law_an_incident_is_found_by_id(s: Seq<Incident>, id: u128, i: int)
    requires
        0 <= i <= s.len(),
        forall|j: int| 0 <= j < i ==> (#[trigger] s[j]).id != id,
        i < s.len() ==> s[i].id == id,
    ensures
        index_where(s, has_id(id)) == (if i < s.len() {
            Some(i)
        } else {
            None
        }),
{
    if i < s.len() {
        lemma_index_where_is(s, has_id(id), i);
    } else {
        lemma_index_where_none(s, has_id(id));
    }
}

/// The incident of a row carries what the row holds: its words read as what they stand for,
/// and a negative number reads as none. Its log has one entry for each update row, in order.
pub proof fn law_a_row_reads_as_its_incident(row: IncidentRow, updates: Seq<UpdateRow>, k: int)
    requires
        0 <= k < updates.len(),
    ensures
        ({
            let i = incident_of(row, updates);
            &&& i.id == row.id && i.target_id == row.target_id
            &&& i.started_at == row.started_at && i.ended_at == row.ended_at
            &&& row.status_at_start@ == "degraded"@ ==> i.status == CheckStatus::Degraded
            &&& row.status_at_start@ == "error"@ && row.status_at_start@ != "degraded"@ ==> i.status
                == CheckStatus::Error
            &&& row.status_at_start@ != "error"@ && row.status_at_start@ != "degraded"@ ==> i.status
                == CheckStatus::Down
            &&& row.severity@ == "critical"@ ==> i.severity == IncidentSeverity::Critical
            &&& row.severity@ == "major"@ && row.severity@ != "critical"@ ==> i.severity
                == IncidentSeverity::Major
            &&& row.severity@ != "major"@ && row.severity@ != "critical"@ ==> i.severity
                == IncidentSeverity::Minor
            &&& row.duration_secs is None ==> i.duration_secs is None
            &&& row.duration_secs matches Some(d) ==> (i.duration_secs matches Some(n) && n == (
            if d < 0 {
                0int
            } else {
                d as int
            }))
            &&& i.check_count == (if row.check_count < 0 {
                0int
            } else {
                row.check_count as int
            })
            &&& i.error_sample == row.error_sample
            &&& i.public_title == row.public_title
            &&& i.public_description == row.public_description
            &&& i.created_at == Some(row.created_at) && i.updated_at == Some(row.updated_at)
            &&& i.updates.len() == updates.len()
            &&& i.updates[k].posted_at == updates[k].posted_at
            &&& i.updates[k].message == updates[k].message
            &&& i.updates[k].phase == IncidentStatusPhase::of_name(updates[k].phase@)
        }),
{
}

/// A list of a target's incidents holds all of them or the open ones, as asked, and the banner
/// the open ones; the list starts with the latest, the banner with the earliest.
pub proof fn law_lists_hold_what_is_asked_for(
    s: Seq<Incident>,
    ongoing_only: bool,
    limit: nat,
    x: Incident,
)
    ensures
        stable_sorted(s.filter(on_list(ongoing_only)), latest_first()).contains(x) <==> s.contains(
            x,
        ) && (ongoing_only ==> x.ended_at is None),
        stable_sorted(s.filter(is_open()), earliest_first()).contains(x) <==> s.contains(x)
            && x.ended_at is None,
        ({
            let out = page_of(
                stable_sorted(s.filter(on_list(ongoing_only)), latest_first()),
                0,
                limit,
            );
            forall|i: int, j: int|
                0 <= i < j < out.len() ==> (#[trigger] out[i]).started_at.nanos >= (
                #[trigger] out[j]).started_at.nanos
        }),
        ({
            let out = page_of(stable_sorted(s.filter(is_open()), earliest_first()), 0, limit);
            &&& out.len() <= limit
            &&& forall|i: int, j: int|
                0 <= i < j < out.len() ==> (#[trigger] out[i]).started_at.nanos <= (
                #[trigger] out[j]).started_at.nanos
        }),
{
    lemma_listing(s, on_list(ongoing_only), latest_first(), 0, limit);
    lemma_listing(s, is_open(), earliest_first(), 0, limit);
    let late = page_of(stable_sorted(s.filter(on_list(ongoing_only)), latest_first()), 0, limit);
    let early = page_of(stable_sorted(s.filter(is_open()), earliest_first()), 0, limit);
    assert forall|i: int, j: int| 0 <= i < j < late.len() implies (
    #[trigger] late[i]).started_at.nanos >= (#[trigger] late[j]).started_at.nanos by {
        assert((latest_first())(late[i], late[j]));
    }
    assert forall|i: int, j: int| 0 <= i < j < early.len() implies (
    #[trigger] early[i]).started_at.nanos <= (#[trigger] early[j]).started_at.nanos by {
        assert((earliest_first())(early[i], early[j]));
    }
}

/// The banner shows an incident with its severity, start and title, and the last update of its
/// log where there is one.
pub proof fn law_the_banner_shows_the_last_update(a: ActiveIncident, i: Incident)
    requires
        shows(a, i),
    ensures
        a.id == i.id && a.target_id == i.target_id && a.severity == i.severity,
        a.started_at == i.started_at && a.public_title == i.public_title,
        i.updates@.len() == 0 ==> a.latest_update is None,
        i.updates@.len() > 0 ==> a.latest_update == Some(i.updates@[i.updates@.len() - 1]),
        a.target_name@.len() == 0,
{
}

} // verus!
