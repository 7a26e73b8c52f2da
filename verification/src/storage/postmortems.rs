//! One retrospective document per incident. Every method takes the caller's org, and a
//! document can only be attached to an incident of that org.

use vstd::prelude::*;

use crate::collections::{
    clone_all, index_where, lemma_index_where, lemma_index_where_is, lemma_index_where_none,
    position,
};
use crate::ids::{OrgId, UserId};
use crate::strings::opt_clone;
use crate::time::{now, Timestamp};

verus! {

/// A follow-up of an incident.
#[derive(Debug)]
pub struct ActionItem {
    pub text: String,
    pub owner_user_id: Option<u128>,
    pub done: bool,
}

impl Clone for ActionItem {
    fn clone(&self) -> (r: Self)
        ensures
            r == *self,
    {
        ActionItem {
            text: self.text.clone(),
            owner_user_id: self.owner_user_id,
            done: self.done,
        }
    }
}

/// A retrospective document.
#[derive(Debug)]
pub struct IncidentPostmortem {
    pub incident_id: u128,
    pub summary: Option<String>,
    pub root_cause: Option<String>,
    pub impact: Option<String>,
    pub action_items: Vec<ActionItem>,
    pub author_id: Option<UserId>,
    pub created_at: Timestamp,
    pub updated_at: Timestamp,
    pub published_at: Option<Timestamp>,
}

/// What a document says.
pub ghost struct PostmortemView {
    pub incident_id: u128,
    pub summary: Option<String>,
    pub root_cause: Option<String>,
    pub impact: Option<String>,
    pub action_items: Seq<ActionItem>,
    pub author_id: Option<UserId>,
    pub created_at: Timestamp,
    pub updated_at: Timestamp,
    pub published_at: Option<Timestamp>,
}

impl View for IncidentPostmortem {
    type V = PostmortemView;

    open spec fn view(&self) -> PostmortemView {
        PostmortemView {
            incident_id: self.incident_id,
            summary: self.summary,
            root_cause: self.root_cause,
            impact: self.impact,
            action_items: self.action_items@,
            author_id: self.author_id,
            created_at: self.created_at,
            updated_at: self.updated_at,
            published_at: self.published_at,
        }
    }
}

fn clone_items(v: &Vec<ActionItem>) -> (out: Vec<ActionItem>)
    ensures
        out@ == v@,
{
    clone_all(v)
}

impl Clone for IncidentPostmortem {
    fn clone(&self) -> (r: Self)
        ensures
            r@ == self@,
    {
        IncidentPostmortem {
            incident_id: self.incident_id,
            summary: opt_clone(&self.summary),
            root_cause: opt_clone(&self.root_cause),
            impact: opt_clone(&self.impact),
            action_items: clone_items(&self.action_items),
            author_id: self.author_id,
            created_at: self.created_at,
            updated_at: self.updated_at,
            published_at: self.published_at,
        }
    }
}

/// What a save sets.
#[derive(Debug)]
pub struct PostmortemUpsert {
    pub summary: Option<String>,
    pub root_cause: Option<String>,
    pub impact: Option<String>,
    pub action_items: Vec<ActionItem>,
}

impl Default for PostmortemUpsert {
    fn default() -> (r: Self)
        ensures
            r.summary is None,
            r.root_cause is None,
            r.impact is None,
            r.action_items@ == Seq::<ActionItem>::empty(),
    {
        PostmortemUpsert { summary: None, root_cause: None, impact: None, action_items: Vec::new() }
    }
}

/// A document's row, where `action_items` is what decoding its stored list gave.
#[derive(Debug)]
pub struct PostmortemRow {
    pub incident_id: u128,
    pub summary: Option<String>,
    pub root_cause: Option<String>,
    pub impact: Option<String>,
    pub action_items: Option<Vec<ActionItem>>,
    pub author_id: Option<UserId>,
    pub created_at: Timestamp,
    pub updated_at: Timestamp,
    pub published_at: Option<Timestamp>,
}

/// The document of a row. A malformed stored list degrades to an empty one rather than
/// failing the whole read.
pub fn row_to_postmortem(r: PostmortemRow) -> (p: IncidentPostmortem)
    ensures
        p@ == (PostmortemView {
            incident_id: r.incident_id,
            summary: r.summary,
            root_cause: r.root_cause,
            impact: r.impact,
            action_items: match r.action_items {
                Some(v) => v@,
                None => Seq::empty(),
            },
            author_id: r.author_id,
            created_at: r.created_at,
            updated_at: r.updated_at,
            published_at: r.published_at,
        }),
{
    let action_items = match r.action_items {
        Some(v) => v,
        None => Vec::new(),
    };
    IncidentPostmortem {
        incident_id: r.incident_id,
        summary: r.summary,
        root_cause: r.root_cause,
        impact: r.impact,
        action_items,
        author_id: r.author_id,
        created_at: r.created_at,
        updated_at: r.updated_at,
        published_at: r.published_at,
    }
}

/// A document and its org.
#[derive(Debug)]
pub struct StoredPostmortem {
    pub org: OrgId,
    pub doc: IncidentPostmortem,
}

/// The document is the org's of this incident.
pub open spec fn about(org: OrgId, incident_id: u128) -> spec_fn(StoredPostmortem) -> bool {
    |s: StoredPostmortem| s.org == org && s.doc.incident_id == incident_id
}

/// Only the document at `i` may differ, and it stays the org's.
pub open spec fn only_changes(
    before: Seq<StoredPostmortem>,
    after: Seq<StoredPostmortem>,
    i: int,
) -> bool {
    &&& after.len() == before.len()
    &&& forall|j: int| 0 <= j < before.len() && j != i ==> #[trigger] after[j] == before[j]
    &&& after[i].org == before[i].org
}

/// A document after a later save.
pub open spec fn resaved(p: PostmortemView, fields: PostmortemUpsert, now: Timestamp) -> PostmortemView {
    PostmortemView {
        summary: fields.summary,
        root_cause: fields.root_cause,
        impact: fields.impact,
        action_items: fields.action_items@,
        updated_at: now,
        ..p
    }
}

/// A document at its first save.
pub open spec fn first_saved(
    incident_id: u128,
    author: UserId,
    fields: PostmortemUpsert,
    now: Timestamp,
) -> PostmortemView {
    PostmortemView {
        incident_id,
        summary: fields.summary,
        root_cause: fields.root_cause,
        impact: fields.impact,
        action_items: fields.action_items@,
        author_id: Some(author),
        created_at: now,
        updated_at: now,
        published_at: None,
    }
}

/// What a save does and returns, where `known` says whether the org has the incident.
pub open spec fn upserted(
    before: Seq<StoredPostmortem>,
    after: Seq<StoredPostmortem>,
    r: Option<IncidentPostmortem>,
    known: bool,
    org: OrgId,
    incident_id: u128,
    author: UserId,
    fields: PostmortemUpsert,
    now: Timestamp,
) -> bool {
    if !known {
        after == before && r is None
    } else {
        match index_where(before, about(org, incident_id)) {
            Some(i) => {
                &&& only_changes(before, after, i)
                &&& after[i].doc@ == resaved(before[i].doc@, fields, now)
                &&& r matches Some(p)
                &&& p@ == after[i].doc@
            },
            None => {
                &&& after.len() == before.len() + 1
                &&& after.drop_last() == before
                &&& after.last().org == org
                &&& after.last().doc@ == first_saved(incident_id, author, fields, now)
                &&& r matches Some(p)
                &&& p@ == after.last().doc@
            },
        }
    }
}

/// A document after its published flag was set.
pub open spec fn flagged(p: PostmortemView, publish: bool, now: Timestamp) -> PostmortemView {
    PostmortemView {
        published_at: if !publish {
            None
        } else if p.published_at is Some {
            p.published_at
        } else {
            Some(now)
        },
        updated_at: now,
        ..p
    }
}

/// What setting the published flag does and returns.
pub open spec fn published(
    before: Seq<StoredPostmortem>,
    after: Seq<StoredPostmortem>,
    r: Option<IncidentPostmortem>,
    org: OrgId,
    incident_id: u128,
    publish: bool,
    now: Timestamp,
) -> bool {
    match index_where(before, about(org, incident_id)) {
        None => after == before && r is None,
        Some(i) => {
            &&& only_changes(before, after, i)
            &&& after[i].doc@ == flagged(before[i].doc@, publish, now)
            &&& r matches Some(p)
            &&& p@ == after[i].doc@
        },
    }
}

/// Documents in memory, and the incidents they may be attached to.
#[derive(Debug)]
pub struct InMemoryPostmortemStore {
    inner: Vec<StoredPostmortem>,
    known: Vec<(OrgId, u128)>,
}

impl View for InMemoryPostmortemStore {
    type V = Seq<StoredPostmortem>;

    closed spec fn view(&self) -> Seq<StoredPostmortem> {
        self.inner@
    }
}

impl InMemoryPostmortemStore {
    /// The incidents that a document may be attached to.
    pub closed spec fn incidents(self) -> Seq<(OrgId, u128)> {
        self.known@
    }

    pub fn new() -> (r: Self)
        ensures
            r@ == Seq::<StoredPostmortem>::empty(),
            r.incidents() == Seq::<(OrgId, u128)>::empty(),
    {
        InMemoryPostmortemStore { inner: Vec::new(), known: Vec::new() }
    }

    /// Registers an incident so that a save accepts it.
    pub fn seed_incident(&mut self, org: OrgId, incident_id: u128)
        ensures
            final(self)@ == old(self)@,
            final(self).incidents() == old(self).incidents().push((org, incident_id)),
    {
        self.known.push((org, incident_id));
    }

    fn find(&self, org: OrgId, incident_id: u128) -> (r: Option<usize>)
        ensures
            match r {
                Some(i) => index_where(self@, about(org, incident_id)) == Some(i as int) && i
                    < self@.len(),
                None => index_where(self@, about(org, incident_id)) is None,
            },
    {
        let same = |s: &StoredPostmortem| -> (b: bool)
            ensures
                b == (s.org == org && s.doc.incident_id == incident_id),
        { s.org == org && s.doc.incident_id == incident_id };
        position(&self.inner, same, Ghost(about(org, incident_id)))
    }

    fn knows(&self, org: OrgId, incident_id: u128) -> (r: bool)
        ensures
            r == self.incidents().contains((org, incident_id)),
    {
        let mut i: usize = 0;
        while i < self.known.len()
            invariant
                i <= self.known@.len(),
                forall|j: int| 0 <= j < i ==> self.known@[j] != (org, incident_id),
            decreases self.known.len() - i,
        {
            if self.known[i].0 == org && self.known[i].1 == incident_id {
                assert(self.known@[i as int] == (org, incident_id));
                return true;
            }
            i += 1;
        }
        false
    }

    /// The org's document of this incident.
    pub fn get(&self, org: OrgId, incident_id: u128) -> (r: Option<IncidentPostmortem>)
        ensures
            match index_where(self@, about(org, incident_id)) {
                Some(i) => r matches Some(p) && p@ == self@[i].doc@,
                None => r is None,
            },
    {
        match self.find(org, incident_id) {
            Some(i) => Some(self.inner[i].doc.clone()),
            None => None,
        }
    }

    /// Creates or replaces at `now` the document of an incident. `None`: the incident does
    /// not exist in the org. The author is recorded on the first save and kept.
    pub fn upsert_at(
        &mut self,
        org: OrgId,
        incident_id: u128,
        author: UserId,
        fields: PostmortemUpsert,
        now: Timestamp,
    ) -> (r: Option<IncidentPostmortem>)
        ensures
            upserted(
                old(self)@,
                final(self)@,
                r,
                old(self).incidents().contains((org, incident_id)),
                org,
                incident_id,
                author,
                fields,
                now,
            ),
            final(self).incidents() == old(self).incidents(),
    {
        if !self.knows(org, incident_id) {
            return None;
        }
        match self.find(org, incident_id) {
            Some(i) => {
                let mut p = self.inner[i].doc.clone();
                p.summary = fields.summary;
                p.root_cause = fields.root_cause;
                p.impact = fields.impact;
                p.action_items = fields.action_items;
                p.updated_at = now;
                let shown = p.clone();
                let o = self.inner[i].org;
                self.inner[i] = StoredPostmortem { org: o, doc: p };
                Some(shown)
            },
            None => {
                let ghost before = self.inner@;
                let pm = IncidentPostmortem {
                    incident_id,
                    summary: fields.summary,
                    root_cause: fields.root_cause,
                    impact: fields.impact,
                    action_items: fields.action_items,
                    author_id: Some(author),
                    created_at: now,
                    updated_at: now,
                    published_at: None,
                };
                self.inner.push(StoredPostmortem { org, doc: pm.clone() });
                assert(self.inner@.drop_last() =~= before);
                Some(pm)
            },
        }
    }

    /// Creates or replaces now the document of an incident.
    pub fn upsert(
        &mut self,
        org: OrgId,
        incident_id: u128,
        author: UserId,
        fields: PostmortemUpsert,
    ) -> (r: Option<IncidentPostmortem>)
        ensures
            exists|t: Timestamp|
                t.wf() && #[trigger] upserted(
                    old(self)@,
                    final(self)@,
                    r,
                    old(self).incidents().contains((org, incident_id)),
                    org,
                    incident_id,
                    author,
                    fields,
                    t,
                ),
            final(self).incidents() == old(self).incidents(),
    {
        let t = now();
        self.upsert_at(org, incident_id, author, fields, t)
    }

    /// Sets the published flag at `now`. `None`: the org has no document of that incident.
    pub fn set_published_at(&mut self, org: OrgId, incident_id: u128, publish: bool, now: Timestamp)
        -> (r: Option<IncidentPostmortem>)
        ensures
            published(old(self)@, final(self)@, r, org, incident_id, publish, now),
            final(self).incidents() == old(self).incidents(),
    {
        let Some(i) = self.find(org, incident_id) else {
            return None;
        };
        let mut p = self.inner[i].doc.clone();
        p.published_at = if publish {
            match p.published_at {
                Some(t) => Some(t),
                None => Some(now),
            }
        } else {
            None
        };
        p.updated_at = now;
        let shown = p.clone();
        let o = self.inner[i].org;
        self.inner[i] = StoredPostmortem { org: o, doc: p };
        Some(shown)
    }

    /// Sets the published flag now.
    pub fn set_published(&mut self, org: OrgId, incident_id: u128, publish: bool) -> (r: Option<
        IncidentPostmortem,
    >)
        ensures
            exists|t: Timestamp|
                t.wf() && #[trigger] published(
                    old(self)@,
                    final(self)@,
                    r,
                    org,
                    incident_id,
                    publish,
                    t,
                ),
            final(self).incidents() == old(self).incidents(),
    {
        let t = now();
        self.set_published_at(org, incident_id, publish, t)
    }
}

/// There is one document per incident and org.
pub open spec fn one_per_incident(s: Seq<StoredPostmortem>) -> bool {
    forall|i: int, j: int|
        0 <= i < j < s.len() ==> !((#[trigger] s[i]).org == (#[trigger] s[j]).org
            && s[i].doc.incident_id == s[j].doc.incident_id)
}

/// Saving keeps one document per incident, keeps the first author, and keeps the
/// published flag.
pub proof fn law_save_keeps_author_and_uniqueness(
    before: Seq<StoredPostmortem>,
    after: Seq<StoredPostmortem>,
    r: Option<IncidentPostmortem>,
    known: bool,
    org: OrgId,
    incident_id: u128,
    author: UserId,
    fields: PostmortemUpsert,
    now: Timestamp,
)
    requires
        upserted(before, after, r, known, org, incident_id, author, fields, now),
        one_per_incident(before),
    ensures
        one_per_incident(after),
        known ==> (index_where(before, about(org, incident_id)) matches Some(i) ==> {
            &&& after[i].doc.author_id == before[i].doc.author_id
            &&& after[i].doc.published_at == before[i].doc.published_at
            &&& after[i].doc.created_at == before[i].doc.created_at
        }),
{
    lemma_index_where(before, about(org, incident_id));
    if known {
        match index_where(before, about(org, incident_id)) {
            Some(i) => {
                assert(after[i].doc@.incident_id == before[i].doc@.incident_id);
                assert forall|a: int, b: int| 0 <= a < b < after.len() implies !((
                #[trigger] after[a]).org == (#[trigger] after[b]).org && after[a].doc.incident_id
                    == after[b].doc.incident_id) by {
                    assert(!(before[a].org == before[b].org && before[a].doc.incident_id
                        == before[b].doc.incident_id));
                }
                assert(after[i].doc@.author_id == before[i].doc@.author_id);
                assert(after[i].doc@.published_at == before[i].doc@.published_at);
                assert(after[i].doc@.created_at == before[i].doc@.created_at);
            },
            None => {
                assert(after.last().doc@.incident_id == incident_id);
                assert forall|a: int, b: int| 0 <= a < b < after.len() implies !((
                #[trigger] after[a]).org == (#[trigger] after[b]).org && after[a].doc.incident_id
                    == after[b].doc.incident_id) by {
                    assert(after[a] == after.drop_last()[a]);
                    if b < before.len() {
                        assert(after[b] == after.drop_last()[b]);
                        assert(!(before[a].org == before[b].org && before[a].doc.incident_id
                            == before[b].doc.incident_id));
                    } else {
                        assert(!about(org, incident_id)(before[a]));
                    }
                }
            },
        }
    }
}

/// Publishing again keeps the time of the first publication; unpublishing clears it.
pub proof fn law_publishing_is_sticky(p: PostmortemView, t: Timestamp, u: Timestamp)
    ensures
        flagged(p, true, t).published_at is Some,
        flagged(flagged(p, true, t), true, u).published_at == flagged(p, true, t).published_at,
        flagged(flagged(p, true, t), false, u).published_at is None,
        flagged(p, true, t).summary == p.summary,
        flagged(p, true, t).action_items == p.action_items,
{
}

/// A save is refused exactly where the org has no such incident. One that is not reaches the
/// org's document of the incident, sets what was written and leaves author, creation and
/// publication; the first one makes the document, unpublished, with its author.
pub proof fn law_a_save_writes_the_document(
    before: Seq<StoredPostmortem>,
    after: Seq<StoredPostmortem>,
    r: Option<IncidentPostmortem>,
    known: bool,
    org: OrgId,
    incident_id: u128,
    author: UserId,
    fields: PostmortemUpsert,
    now: Timestamp,
    i: int,
)
    requires
        upserted(before, after, r, known, org, incident_id, author, fields, now),
        0 <= i <= before.len(),
        forall|j: int|
            0 <= j < i ==> (#[trigger] before[j]).org != org || before[j].doc.incident_id
                != incident_id,
        i < before.len() ==> before[i].org == org && before[i].doc.incident_id == incident_id,
    ensures
        r is Some <==> known,
        !known ==> after == before,
        known ==> {
            let a = after[i];
            &&& r->Some_0@ == a.doc@
            &&& after.len() == (if i < before.len() {
                before.len()
            } else {
                before.len() + 1
            })
            &&& a.org == org && a.doc.incident_id == incident_id
            &&& a.doc.summary == fields.summary && a.doc.root_cause == fields.root_cause
            &&& a.doc.impact == fields.impact
            &&& a.doc.action_items@ == fields.action_items@
            &&& a.doc.updated_at == now
            &&& i == before.len() ==> a.doc.author_id == Some(author) && a.doc.created_at == now
                && a.doc.published_at is None
            &&& i < before.len() ==> a.doc.author_id == before[i].doc.author_id
                && a.doc.created_at == before[i].doc.created_at && a.doc.published_at
                == before[i].doc.published_at
            &&& forall|j: int|
                0 <= j < before.len() && j != i ==> #[trigger] after[j] == before[j]
        },
{
    if i < before.len() {
        lemma_index_where_is(before, about(org, incident_id), i);
    } else {
        lemma_index_where_none(before, about(org, incident_id));
    }
    if known {
        let a = after[i].doc@;
        assert(a.incident_id == after[i].doc.incident_id && a.summary == after[i].doc.summary);
        assert(a.root_cause == after[i].doc.root_cause && a.impact == after[i].doc.impact);
        assert(a.updated_at == after[i].doc.updated_at && a.author_id == after[i].doc.author_id);
        assert(a.created_at == after[i].doc.created_at && a.published_at
            == after[i].doc.published_at);
        if i == before.len() {
            assert(after[i] == after.last());
            assert forall|j: int| 0 <= j < before.len() implies #[trigger] after[j]
                == before[j] by {
                assert(after.drop_last()[j] == after[j]);
            }
        } else {
            let b = before[i].doc@;
            assert(b.author_id == before[i].doc.author_id && b.created_at
                == before[i].doc.created_at && b.published_at == before[i].doc.published_at);
        }
    }
}

/// Setting the flag reaches the org's document of the incident: publishing stamps the time
/// where there was none and keeps it where there was one, unpublishing clears it, and the rest
/// of the document stays.
pub proof fn law_the_flag_stamps_and_clears(
    before: Seq<StoredPostmortem>,
    after: Seq<StoredPostmortem>,
    r: Option<IncidentPostmortem>,
    org: OrgId,
    incident_id: u128,
    publish: bool,
    now: Timestamp,
    i: int,
)
    requires
        published(before, after, r, org, incident_id, publish, now),
        0 <= i <= before.len(),
        forall|j: int|
            0 <= j < i ==> (#[trigger] before[j]).org != org || before[j].doc.incident_id
                != incident_id,
        i < before.len() ==> before[i].org == org && before[i].doc.incident_id == incident_id,
    ensures
        i == before.len() ==> r is None && after == before,
        i < before.len() ==> {
            let (a, b) = (after[i].doc, before[i].doc);
            &&& r matches Some(p)
            &&& p@ == a@
            &&& after.len() == before.len()
            &&& after[i].org == org
            &&& !publish ==> a.published_at is None
            &&& publish && b.published_at is None ==> a.published_at == Some(now)
            &&& publish && b.published_at is Some ==> a.published_at == b.published_at
            &&& a.updated_at == now
            &&& a.incident_id == b.incident_id && a.summary == b.summary
            &&& a.root_cause == b.root_cause && a.impact == b.impact
            &&& a.action_items@ == b.action_items@
            &&& a.author_id == b.author_id && a.created_at == b.created_at
            &&& forall|j: int|
                0 <= j < before.len() && j != i ==> #[trigger] after[j] == before[j]
        },
{
    if i < before.len() {
        lemma_index_where_is(before, about(org, incident_id), i);
        let (a, b) = (after[i].doc@, before[i].doc@);
        assert(a.incident_id == after[i].doc.incident_id && a.summary == after[i].doc.summary);
        assert(a.root_cause == after[i].doc.root_cause && a.impact == after[i].doc.impact);
        assert(a.updated_at == after[i].doc.updated_at && a.author_id == after[i].doc.author_id);
        assert(a.created_at == after[i].doc.created_at && a.published_at
            == after[i].doc.published_at);
        assert(b.incident_id == before[i].doc.incident_id && b.summary == before[i].doc.summary);
        assert(b.root_cause == before[i].doc.root_cause && b.impact == before[i].doc.impact);
        assert(b.author_id == before[i].doc.author_id);
        assert(b.created_at == before[i].doc.created_at && b.published_at
            == before[i].doc.published_at);
    } else {
        lemma_index_where_none(before, about(org, incident_id));
    }
}

/// A document is found by its org and its incident.
pub proof fn law_a_document_is_found_by_org_and_incident(
    s: Seq<StoredPostmortem>,
    org: OrgId,
    incident_id: u128,
    i: int,
)
    requires
        0 <= i <= s.len(),
        forall|j: int|
            0 <= j < i ==> (#[trigger] s[j]).org != org || s[j].doc.incident_id != incident_id,
        i < s.len() ==> s[i].org == org && s[i].doc.incident_id == incident_id,
    ensures
        index_where(s, about(org, incident_id)) == (if i < s.len() {
            Some(i)
        } else {
            None
        }),
{
    if i < s.len() {
        lemma_index_where_is(s, about(org, incident_id), i);
    } else {
        lemma_index_where_none(s, about(org, incident_id));
    }
}

} // verus!
