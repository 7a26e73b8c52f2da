//! Each org's physical retention windows for the write path.

use vstd::prelude::*;

use crate::table::Table;

verus! {

/// How many days an org's rows and its evidence are kept.
#[derive(Debug, Clone, Copy, PartialEq, Eq, Structural)]
pub struct RetentionDays {
    pub row: u16,
    pub evidence: u16,
}

/// Days that rows are kept where the org is not known yet.
pub const DEFAULT_ROW_DAYS: u16 = 30;

/// Days that evidence is kept where the org is not known yet.
pub const DEFAULT_EVIDENCE_DAYS: u16 = 7;

/// Seconds between two refreshes of the snapshot.
pub const REFRESH_INTERVAL_SECS: u64 = 300;

/// Stamped on rows whose org is not in the snapshot yet, so an unknown org never
/// over-retains.
pub open spec fn default_days() -> RetentionDays {
    RetentionDays { row: DEFAULT_ROW_DAYS, evidence: DEFAULT_EVIDENCE_DAYS }
}

/// The windows of an org under a snapshot.
pub open spec fn days_of(snap: Map<(u128, u128), RetentionDays>, org: u128) -> RetentionDays {
    if snap.dom().contains((0, org)) {
        snap[(0, org)]
    } else {
        default_days()
    }
}

/// The snapshot that a list of orgs stands for; a later entry of one org replaces an
/// earlier one.
pub open spec fn snapshot_of(s: Seq<(u128, RetentionDays)>) -> Map<(u128, u128), RetentionDays>
    decreases s.len(),
{
    if s.len() == 0 {
        Map::empty()
    } else {
        snapshot_of(s.drop_last()).insert((0, s.last().0), s.last().1)
    }
}

/// Retention windows by org.
#[derive(Debug)]
pub struct OrgTtlDays {
    snapshot: Table<RetentionDays>,
}

impl OrgTtlDays {
    pub closed spec fn wf(self) -> bool {
        self.snapshot.wf()
    }

    pub closed spec fn view(self) -> Map<(u128, u128), RetentionDays> {
        self.snapshot@
    }

    pub fn new() -> (r: Self)
        ensures
            r.wf(),
            r@ == Map::<(u128, u128), RetentionDays>::empty(),
    {
        OrgTtlDays { snapshot: Table::new() }
    }

    /// The windows of each org, in the order asked for. Unknown orgs get the default.
    pub fn days_for_each(&self, org_ids: &Vec<u128>) -> (out: Vec<RetentionDays>)
        requires
            self.wf(),
        ensures
            out@ == org_ids@.map_values(|o: u128| days_of(self@, o)),
    {
        let mut out: Vec<RetentionDays> = Vec::new();
        let mut i: usize = 0;
        while i < org_ids.len()
            invariant
                i <= org_ids@.len(),
                self.wf(),
                out@ == org_ids@.take(i as int).map_values(|o: u128| days_of(self@, o)),
            decreases org_ids.len() - i,
        {
            let days = match self.snapshot.get((0, org_ids[i])) {
                Some(d) => *d,
                None => RetentionDays { row: DEFAULT_ROW_DAYS, evidence: DEFAULT_EVIDENCE_DAYS },
            };
            out.push(days);
            i += 1;
            assert(out@ =~= org_ids@.take(i as int).map_values(|o: u128| days_of(self@, o)));
        }
        assert(org_ids@.take(i as int) =~= org_ids@);
        out
    }

    /// Replaces the snapshot.
    pub fn replace(&mut self, next: &Vec<(u128, RetentionDays)>)
        ensures
            final(self).wf(),
            final(self)@ == snapshot_of(next@),
    {
        let mut snap: Table<RetentionDays> = Table::new();
        let mut i: usize = 0;
        assert(next@.take(0) =~= Seq::<(u128, RetentionDays)>::empty());
        while i < next.len()
            invariant
                i <= next@.len(),
                snap.wf(),
                snap@ == snapshot_of(next@.take(i as int)),
            decreases next.len() - i,
        {
            assert(next@.take(i + 1).drop_last() =~= next@.take(i as int));
            snap.insert((0, next[i].0), next[i].1);
            i += 1;
        }
        assert(next@.take(i as int) =~= next@);
        self.snapshot = snap;
    }
}

/// An org that a refresh lists gets the window listed last for it; every other org gets
/// the default, whatever an earlier snapshot said.
pub proof fn law_refresh_replaces(next: Seq<(u128, RetentionDays)>, org: u128)
    ensures
        (forall|i: int| 0 <= i < next.len() ==> (#[trigger] next[i]).0 != org) ==> days_of(
            snapshot_of(next),
            org,
        ) == default_days(),
        forall|i: int|
            0 <= i < next.len() && (#[trigger] next[i]).0 == org && (forall|j: int|
                i < j < next.len() ==> (#[trigger] next[j]).0 != org) ==> days_of(
                snapshot_of(next),
                org,
            ) == next[i].1,
    decreases next.len(),
{
    if next.len() > 0 {
        let front = next.drop_last();
        law_refresh_replaces(front, org);
        assert forall|i: int|
            0 <= i < next.len() && (#[trigger] next[i]).0 == org && (forall|j: int|
                i < j < next.len() ==> (#[trigger] next[j]).0 != org) implies days_of(
            snapshot_of(next),
            org,
        ) == next[i].1 by {
            if i < next.len() - 1 {
                assert(front[i] == next[i]);
                assert(next[next.len() - 1].0 != org);
                assert forall|j: int| i < j < front.len() implies (#[trigger] front[j]).0
                    != org by {
                    assert(next[j].0 != org);
                }
            }
        }
        if forall|i: int| 0 <= i < next.len() ==> (#[trigger] next[i]).0 != org {
            assert forall|i: int| 0 <= i < front.len() implies (#[trigger] front[i]).0 != org by {
                assert(next[i].0 != org);
            }
            assert(next[next.len() - 1].0 != org);
        }
    }
}

/// An org that is not known yet keeps rows for thirty days and evidence for seven.
pub proof fn law_an_unknown_org_keeps_a_month(snap: Map<(u128, u128), RetentionDays>, org: u128)
    ensures
        !snap.dom().contains((0, org)) ==> days_of(snap, org).row == 30 && days_of(
            snap,
            org,
        ).evidence == 7,
        snap.dom().contains((0, org)) ==> days_of(snap, org) == snap[(0, org)],
{
}

} // verus!
