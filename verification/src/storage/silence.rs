//! Silence (no-data) detection state: a silence is announced once and a recovery once.
//! Healthy monitors have no entry.

use vstd::prelude::*;

use crate::collections::{stable_sort, stable_sorted};
use crate::ids::OrgId;
use crate::table::{lemma_map_at, Entry, Table};

verus! {

/// An open (unresolved) silence. `notified`: the customer was already told.
#[derive(Debug, Clone, Copy, PartialEq, Eq, Structural)]
pub struct OpenSilence {
    pub org: OrgId,
    pub target_id: u128,
    pub notified: bool,
}

/// Silence state in memory.
#[derive(Debug)]
pub struct InMemorySilenceStore {
    unmonitored: Vec<(OrgId, u128)>,
    total: i64,
    open: Table<(OrgId, bool)>,
    resolved: Vec<(OrgId, u128)>,
}

/// The open silence of an entry.
pub open spec fn silence_of(e: Entry<(OrgId, bool)>) -> OpenSilence {
    OpenSilence { org: e.value.0, target_id: e.key.1, notified: e.value.1 }
}

/// Ascending.
pub open spec fn ascending() -> spec_fn(u128, u128) -> bool {
    |a: u128, b: u128| a <= b
}

impl InMemorySilenceStore {
    /// The state is consistent.
    pub closed spec fn wf(self) -> bool {
        self.open.wf() && forall|i: int|
            0 <= i < self.open.list().len() ==> (#[trigger] self.open.list()[i]).key.0 == 0
    }

    /// The open silences, one per silent target.
    pub closed spec fn silences(self) -> Seq<OpenSilence> {
        self.open.list().map_values(|e: Entry<(OrgId, bool)>| silence_of(e))
    }

    /// The org and notified flag of each silent target.
    pub closed spec fn opened(self) -> Map<(u128, u128), (OrgId, bool)> {
        self.open@
    }

    /// What was resolved, oldest first.
    pub closed spec fn history(self) -> Seq<(OrgId, u128)> {
        self.resolved@
    }

    /// The targets that no probe watches.
    pub closed spec fn unwatched(self) -> Seq<(OrgId, u128)> {
        self.unmonitored@
    }

    /// How many targets are enabled.
    pub closed spec fn enabled_total(self) -> i64 {
        self.total
    }

    /// Everything but the open silences is as before.
    pub open spec fn same_fixture(self, o: InMemorySilenceStore) -> bool {
        self.unwatched() == o.unwatched() && self.enabled_total() == o.enabled_total()
    }

    pub fn new() -> (r: Self)
        ensures
            r.wf(),
            r.silences() == Seq::<OpenSilence>::empty(),
            r.opened() == Map::<(u128, u128), (OrgId, bool)>::empty(),
            r.history() == Seq::<(OrgId, u128)>::empty(),
            r.unwatched() == Seq::<(OrgId, u128)>::empty(),
            r.enabled_total() == 0,
    {
        let r = InMemorySilenceStore {
            unmonitored: Vec::new(),
            total: 0,
            open: Table::new(),
            resolved: Vec::new(),
        };
        assert(r.silences() =~= Seq::<OpenSilence>::empty());
        r
    }

    pub fn set_unmonitored(&mut self, set: Vec<(OrgId, u128)>)
        requires
            old(self).wf(),
        ensures
            final(self).wf(),
            final(self).unwatched() == set@,
            final(self).enabled_total() == old(self).enabled_total(),
            final(self).opened() == old(self).opened(),
            final(self).silences() == old(self).silences(),
            final(self).history() == old(self).history(),
    {
        self.unmonitored = set;
    }

    pub fn set_total(&mut self, total: i64)
        requires
            old(self).wf(),
        ensures
            final(self).wf(),
            final(self).enabled_total() == total,
            final(self).unwatched() == old(self).unwatched(),
            final(self).opened() == old(self).opened(),
            final(self).silences() == old(self).silences(),
            final(self).history() == old(self).history(),
    {
        self.total = total;
    }

    /// The targets that no probe watches.
    pub fn unmonitored(&self, _stale_after_secs: u64) -> (r: Vec<(OrgId, u128)>)
        ensures
            r@ == self.unwatched(),
    {
        let mut out: Vec<(OrgId, u128)> = Vec::new();
        let mut i: usize = 0;
        while i < self.unmonitored.len()
            invariant
                i <= self.unmonitored@.len(),
                out@ == self.unmonitored@.take(i as int),
            decreases self.unmonitored.len() - i,
        {
            out.push(self.unmonitored[i]);
            i += 1;
            assert(out@ =~= self.unmonitored@.take(i as int));
        }
        assert(self.unmonitored@.take(i as int) =~= self.unmonitored@);
        out
    }

    /// The regions with a live probe: an in-memory store has none.
    pub fn live_regions(&self, _stale_after_secs: u64) -> (r: Vec<String>)
        ensures
            r@ == Seq::<String>::empty(),
    {
        Vec::new()
    }

    /// How many targets are enabled.
    pub fn enabled_target_count(&self) -> (r: i64)
        ensures
            r == self.enabled_total(),
    {
        self.total
    }

    /// The open silences.
    pub fn list_open(&self) -> (out: Vec<OpenSilence>)
        ensures
            out@ == self.silences(),
    {
        let mut out: Vec<OpenSilence> = Vec::new();
        let mut i: usize = 0;
        while i < self.open.len()
            invariant
                i <= self.open.list().len(),
                out@ == self.silences().take(i as int),
            decreases self.open.list().len() - i,
        {
            let e = self.open.at(i);
            out.push(OpenSilence { org: e.value.0, target_id: e.key.1, notified: e.value.1 });
            i += 1;
            assert(out@ =~= self.silences().take(i as int));
        }
        assert(self.silences().take(i as int) =~= self.silences());
        out
    }

    /// The targets of an org that are silent.
    pub fn open_target_ids_of(&self, org: OrgId) -> (out: Vec<u128>)
        ensures
            out@ == self.silences().filter(|s: OpenSilence| s.org == org).map_values(
                |s: OpenSilence| s.target_id,
            ),
    {
        let ghost p = |s: OpenSilence| s.org == org;
        let ghost f = |s: OpenSilence| s.target_id;
        let all = self.list_open();
        let mut out: Vec<u128> = Vec::new();
        let mut i: usize = 0;
        proof {
            reveal(Seq::filter);
            assert(out@ =~= all@.take(0).filter(p).map_values(f));
        }
        while i < all.len()
            invariant
                i <= all@.len(),
                p == (|s: OpenSilence| s.org == org),
                f == (|s: OpenSilence| s.target_id),
                out@ == all@.take(i as int).filter(p).map_values(f),
            decreases all.len() - i,
        {
            proof {
                crate::collections::lemma_filter_take(all@, i as int, p);
            }
            if all[i].org == org {
                let ghost kept = all@.take(i as int).filter(p);
                out.push(all[i].target_id);
                assert(kept.push(all@[i as int]).map_values(f) =~= kept.map_values(f).push(
                    all@[i as int].target_id,
                ));
            }
            i += 1;
        }
        assert(all@.take(i as int) =~= all@);
        out
    }

    /// Every silent target, by ascending id.
    pub fn open_target_ids(&self) -> (out: Vec<u128>)
        ensures
            out@ == stable_sorted(
                self.silences().map_values(|s: OpenSilence| s.target_id),
                ascending(),
            ),
    {
        let all = self.list_open();
        let mut ids: Vec<u128> = Vec::new();
        let ghost f = |s: OpenSilence| s.target_id;
        let mut i: usize = 0;
        while i < all.len()
            invariant
                i <= all@.len(),
                f == (|s: OpenSilence| s.target_id),
                ids@ == all@.take(i as int).map_values(f),
            decreases all.len() - i,
        {
            ids.push(all[i].target_id);
            i += 1;
            assert(ids@ =~= all@.take(i as int).map_values(f));
        }
        assert(all@.take(i as int) =~= all@);
        let le = |a: &u128, b: &u128| -> (r: bool)
            ensures
                r == (*a <= *b),
        { *a <= *b };
        stable_sort(ids, le, Ghost(ascending()))
    }

    /// Every target that was resolved, by ascending id, repeats included.
    pub fn resolved_target_ids(&self) -> (out: Vec<u128>)
        ensures
            out@ == stable_sorted(
                self.history().map_values(|e: (OrgId, u128)| e.1),
                ascending(),
            ),
    {
        let mut ids: Vec<u128> = Vec::new();
        let ghost f = |e: (OrgId, u128)| e.1;
        let mut i: usize = 0;
        while i < self.resolved.len()
            invariant
                i <= self.resolved@.len(),
                f == (|e: (OrgId, u128)| e.1),
                ids@ == self.resolved@.take(i as int).map_values(f),
            decreases self.resolved.len() - i,
        {
            ids.push(self.resolved[i].1);
            i += 1;
            assert(ids@ =~= self.resolved@.take(i as int).map_values(f));
        }
        assert(self.resolved@.take(i as int) =~= self.resolved@);
        let le = |a: &u128, b: &u128| -> (r: bool)
            ensures
                r == (*a <= *b),
        { *a <= *b };
        stable_sort(ids, le, Ghost(ascending()))
    }

    /// Records a target as silent. A silence that is open already stays as it is; one that
    /// begins anew has not been announced.
    pub fn enter(&mut self, org: OrgId, target_id: u128)
        requires
            old(self).wf(),
        ensures
            final(self).wf(),
            final(self).opened() == after_enter(old(self).opened(), org, target_id),
            final(self).history() == old(self).history(),
            final(self).same_fixture(*old(self)),
    {
        if self.open.get((0, target_id)).is_none() {
            let ghost before = self.open;
            self.open.insert((0, target_id), (org, false));
            proof {
                lemma_keys_kept(before, self.open, (0, target_id));
            }
        }
    }

    /// Stamps an open silence as announced.
    pub fn mark_notified(&mut self, _org: OrgId, target_id: u128)
        requires
            old(self).wf(),
        ensures
            final(self).wf(),
            final(self).opened() == (if old(self).opened().dom().contains((0, target_id)) {
                old(self).opened().insert(
                    (0, target_id),
                    (old(self).opened()[(0, target_id)].0, true),
                )
            } else {
                old(self).opened()
            }),
            final(self).history() == old(self).history(),
            final(self).same_fixture(*old(self)),
    {
        let found = match self.open.get((0, target_id)) {
            Some(v) => Some(v.0),
            None => None,
        };
        if let Some(org) = found {
            let ghost before = self.open;
            self.open.insert((0, target_id), (org, true));
            proof {
                lemma_keys_kept(before, self.open, (0, target_id));
            }
        }
    }

    /// Marks an open silence as resolved. Returns whether this call did it.
    pub fn resolve(&mut self, org: OrgId, target_id: u128) -> (r: bool)
        requires
            old(self).wf(),
        ensures
            final(self).wf(),
            r == old(self).opened().dom().contains((0, target_id)),
            final(self).opened() == old(self).opened().remove((0, target_id)),
            final(self).history() == (if r {
                old(self).history().push((org, target_id))
            } else {
                old(self).history()
            }),
            final(self).same_fixture(*old(self)),
    {
        let ghost before = self.open;
        let gone = self.open.remove((0, target_id));
        proof {
            lemma_keys_subset(before, self.open);
        }
        match gone {
            Some(_) => {
                self.resolved.push((org, target_id));
                true
            },
            None => false,
        }
    }
}

proof fn lemma_keys_subset(before: Table<(OrgId, bool)>, after: Table<(OrgId, bool)>)
    requires
        before.wf(),
        after.wf(),
        after@.dom().subset_of(before@.dom()),
        forall|i: int| 0 <= i < before.list().len() ==> (#[trigger] before.list()[i]).key.0 == 0,
    ensures
        forall|i: int| 0 <= i < after.list().len() ==> (#[trigger] after.list()[i]).key.0 == 0,
{
    assert forall|i: int| 0 <= i < after.list().len() implies (
    #[trigger] after.list()[i]).key.0 == 0 by {
        lemma_map_at(after.list(), i);
        let k = after.list()[i].key;
        assert(before@.dom().contains(k));
        let c = choose|c: int| 0 <= c < before.list().len() && (#[trigger] before.list()[c]).key == k;
        assert(before.list()[c].key.0 == 0);
    }
}

proof fn lemma_keys_kept(
    before: Table<(OrgId, bool)>,
    after: Table<(OrgId, bool)>,
    key: (u128, u128),
)
    requires
        before.wf(),
        after.wf(),
        key.0 == 0,
        after@.dom() == before@.dom().insert(key),
        forall|i: int| 0 <= i < before.list().len() ==> (#[trigger] before.list()[i]).key.0 == 0,
    ensures
        forall|i: int| 0 <= i < after.list().len() ==> (#[trigger] after.list()[i]).key.0 == 0,
{
    assert forall|i: int| 0 <= i < after.list().len() implies (
    #[trigger] after.list()[i]).key.0 == 0 by {
        lemma_map_at(after.list(), i);
        let k = after.list()[i].key;
        assert(before@.dom().insert(key).contains(k));
        if k != key {
            let c = choose|c: int|
                0 <= c < before.list().len() && (#[trigger] before.list()[c]).key == k;
            assert(before.list()[c].key.0 == 0);
        }
    }
}

/// The state of silences after a target became silent.
pub open spec fn after_enter(
    m: Map<(u128, u128), (OrgId, bool)>,
    org: OrgId,
    target_id: u128,
) -> Map<(u128, u128), (OrgId, bool)> {
    if m.dom().contains((0, target_id)) {
        m
    } else {
        m.insert((0, target_id), (org, false))
    }
}

/// The list of open silences and the map of them say the same: no target occurs twice in
/// the list, and the map holds a target with an org and a flag exactly where the list has a
/// silence of that target, that org and that flag.
pub proof fn law_silences_are_what_is_open(s: InMemorySilenceStore)
    requires
        s.wf(),
    ensures
        forall|i: int, j: int|
            0 <= i < j < s.silences().len() ==> (#[trigger] s.silences()[i]).target_id != (
            #[trigger] s.silences()[j]).target_id,
        forall|i: int|
            0 <= i < s.silences().len() ==> {
                let x = #[trigger] s.silences()[i];
                &&& s.opened().dom().contains((0, x.target_id))
                &&& s.opened()[(0, x.target_id)] == (x.org, x.notified)
            },
        forall|k: (u128, u128)| #[trigger]
            s.opened().dom().contains(k) ==> k.0 == 0 && s.silences().contains(
                OpenSilence {
                    org: s.opened()[k].0,
                    target_id: k.1,
                    notified: s.opened()[k].1,
                },
            ),
{
    let list = s.open.list();
    assert forall|i: int| 0 <= i < s.silences().len() implies {
        let x = #[trigger] s.silences()[i];
        &&& s.opened().dom().contains((0, x.target_id))
        &&& s.opened()[(0, x.target_id)] == (x.org, x.notified)
    } by {
        lemma_map_at(list, i);
        assert(list[i].key == (0u128, list[i].key.1));
    }
    assert forall|i: int, j: int| 0 <= i < j < s.silences().len() implies (
    #[trigger] s.silences()[i]).target_id != (#[trigger] s.silences()[j]).target_id by {
        assert(list[i].key != list[j].key);
        assert(list[i].key.0 == 0 && list[j].key.0 == 0);
    }
    assert forall|k: (u128, u128)| #[trigger] s.opened().dom().contains(k) implies k.0 == 0
        && s.silences().contains(
        OpenSilence { org: s.opened()[k].0, target_id: k.1, notified: s.opened()[k].1 },
    ) by {
        let c = choose|c: int| 0 <= c < list.len() && (#[trigger] list[c]).key == k;
        lemma_map_at(list, c);
        assert(s.silences()[c] == silence_of(list[c]));
    }
}

/// Entering twice is entering once; entering again after a recovery starts a fresh
/// episode that has not been announced.
pub proof fn law_silence_episodes(
    m: Map<(u128, u128), (OrgId, bool)>,
    org: OrgId,
    target_id: u128,
)
    ensures
        after_enter(after_enter(m, org, target_id), org, target_id) == after_enter(
            m,
            org,
            target_id,
        ),
        after_enter(m.remove((0, target_id)), org, target_id)[(0, target_id)] == (org, false),
        m.dom().contains((0, target_id)) ==> after_enter(m, org, target_id)[(0, target_id)]
            == m[(0, target_id)],
{
}

/// A target that becomes silent is open and not announced; every other silence stays.
pub proof fn law_entering_opens_one_silence(
    m: Map<(u128, u128), (OrgId, bool)>,
    org: OrgId,
    target_id: u128,
    other: (u128, u128),
)
    requires
        other != (0u128, target_id),
    ensures
        after_enter(m, org, target_id).dom().contains((0, target_id)),
        !m.dom().contains((0, target_id)) ==> after_enter(m, org, target_id)[(0, target_id)] == (
            org,
            false,
        ),
        after_enter(m, org, target_id).dom().contains(other) <==> m.dom().contains(other),
        after_enter(m, org, target_id)[other] == m[other],
{
}

/// Targets are listed by ascending id, each as often as it occurs.
pub proof fn law_ids_are_listed_in_order(ids: Seq<u128>, x: u128)
    ensures
        stable_sorted(ids, ascending()).len() == ids.len(),
        stable_sorted(ids, ascending()).to_multiset().count(x) == ids.to_multiset().count(x),
        forall|i: int, j: int|
            0 <= i < j < ids.len() ==> #[trigger] stable_sorted(ids, ascending())[i]
                <= #[trigger] stable_sorted(ids, ascending())[j],
{
    let s = stable_sorted(ids, ascending());
    crate::collections::lemma_stable_sorted(ids, ascending());
    assert forall|i: int, j: int| 0 <= i < j < ids.len() implies #[trigger] s[i]
        <= #[trigger] s[j] by {
        assert((ascending())(s[i], s[j]));
    }
}

/// A silence tells the org, the target and whether it was announced.
pub proof fn law_a_silence_is_its_entry(e: Entry<(OrgId, bool)>)
    ensures
        silence_of(e).org == e.value.0,
        silence_of(e).target_id == e.key.1,
        silence_of(e).notified == e.value.1,
{
}

} // verus!
