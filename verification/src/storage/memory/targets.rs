//! A store of targets in memory. It holds one org's targets: the `org` that a
//! request names is not used for filtering.

use vstd::prelude::*;

use crate::collections::{
    contains_id, count_where, derefs, index_where, is_order, is_sorted, law_page, lemma_filter_len,
    lemma_filter_map, lemma_filter_members, lemma_filter_push, lemma_filter_take, lemma_index_where,
    lemma_listing, lemma_push_contains, lemma_stable_sorted, lemma_stable_sorted_map, page, page_of,
    page_refs, position, retain, select_refs, sort_refs, stable_sort, stable_sorted,
};
use crate::domain::WriteSource;
use crate::error::AppError;
use crate::ids::{fresh_id, OrgId};
use crate::storage::admin::{EnabledTargetSource, PublicTargetCursor};
use crate::storage::traits::{TargetFilter, TargetSort};
use crate::strings::{
    at_most, contains, contains_str, has_prefix, has_substring, lemma_str_le, lowercase_of,
    non_blank, opt_owned, opt_str_view, opt_view, starts_with, str_eq, str_le, to_lowercase,
    trim_non_blank, trimmed, views,
};
use crate::target::{
    made, materialize, models, patch, patched, NewTarget, TagCount, Target, TargetUpdate,
    TargetView, TargetsSummary,
};
use crate::time::{now, Timestamp};

verus! {

/// The page size where none is asked for.
pub const DEFAULT_LIMIT: usize = 100;

/// The largest page.
pub const MAX_LIMIT: usize = 10_000;

/// The page size of a request.
pub open spec fn page_limit(limit: Option<usize>) -> nat {
    match limit {
        None => DEFAULT_LIMIT as nat,
        Some(n) if n < MAX_LIMIT => n as nat,
        Some(_) => MAX_LIMIT as nat,
    }
}

/// What a name filter looks for, in lower case.
pub open spec fn needle(q: Option<Seq<char>>) -> Option<Seq<char>> {
    match non_blank(q) {
        Some(s) => Some(lowercase_of(s)),
        None => None,
    }
}

/// The target passes the filter, where `name_lower` is its name in lower case and
/// `q_lower` what the name filter looks for.
pub open spec fn passes(
    f: TargetFilter,
    t: TargetView,
    name_lower: Seq<char>,
    q_lower: Option<Seq<char>>,
) -> bool {
    &&& f.enabled matches Some(e) ==> t.enabled == e
    &&& f.tag matches Some(tag) ==> t.tags.contains(tag@)
    &&& q_lower matches Some(q) ==> has_substring(name_lower, q)
    &&& non_blank(opt_view(f.group)) matches Some(g) ==> t.group_name == Some(g)
    &&& f.owner matches Some(u) ==> t.owner_user_id == Some(u)
}

/// Whether the target passes the filter, where `name_lower` is its name in lower case
/// and `q_lower` what the name filter looks for.
pub fn keeps(f: &TargetFilter, t: &Target, name_lower: &str, q_lower: &Option<String>) -> (r: bool)
    ensures
        r == passes(*f, t@, name_lower@, opt_view(*q_lower)),
{
    if let Some(e) = f.enabled {
        if t.enabled != e {
            return false;
        }
    }
    if let Some(tag) = &f.tag {
        if !contains_str(&t.tags, tag.as_str()) {
            return false;
        }
    }
    if let Some(q) = q_lower {
        if !contains(name_lower, q.as_str()) {
            return false;
        }
    }
    if let Some(g) = trim_non_blank(&f.group) {
        match &t.group_name {
            Some(x) => {
                if !str_eq(x.as_str(), g.as_str()) {
                    return false;
                }
            },
            None => {
                return false;
            },
        }
    }
    if let Some(u) = f.owner {
        match t.owner_user_id {
            Some(x) => {
                if x != u {
                    return false;
                }
            },
            None => {
                return false;
            },
        }
    }
    true
}

/// The target passes the filter.
pub open spec fn listed(f: TargetFilter) -> spec_fn(Target) -> bool {
    |t: Target| passes(f, t@, lowercase_of(t.name@), needle(opt_view(f.q)))
}

/// The order of a list.
pub open spec fn sort_order(sort: TargetSort) -> spec_fn(Target, Target) -> bool {
    |a: Target, b: Target|
        match sort {
            TargetSort::RecentActivity => a.updated_at.nanos >= b.updated_at.nanos,
            TargetSort::Name => str_le(a.name@, b.name@),
            TargetSort::Created => a.created_at.nanos <= b.created_at.nanos,
        }
}

/// The target has this id.
pub open spec fn has_id(id: u128) -> spec_fn(Target) -> bool {
    |t: Target| t.id == id
}

/// The target is one of these.
pub open spec fn among(ids: Seq<u128>) -> spec_fn(Target) -> bool {
    |t: Target| ids.contains(t.id)
}

/// The ids of targets.
pub open spec fn ids_of(s: Seq<Target>) -> Seq<u128> {
    s.map_values(|t: Target| t.id)
}

/// The tags of `old` with those of `more` that it lacks, in order.
pub open spec fn with_tags(old: Seq<Seq<char>>, more: Seq<Seq<char>>) -> Seq<Seq<char>>
    decreases more.len(),
{
    if more.len() == 0 {
        old
    } else {
        let t = with_tags(old, more.drop_last());
        if t.contains(more.last()) {
            t
        } else {
            t.push(more.last())
        }
    }
}

/// The tags of `old` that `gone` does not list.
pub open spec fn without_tags(old: Seq<Seq<char>>, gone: Seq<Seq<char>>) -> Seq<Seq<char>> {
    old.filter(|x: Seq<char>| !gone.contains(x))
}

/// A change to many targets at once.
#[derive(Debug)]
pub enum BulkChange<'a> {
    Enabled(bool),
    AddTags(&'a Vec<String>),
    RemoveTags(&'a Vec<String>),
    Group(Option<&'a str>),
}

/// A target after a bulk change.
pub open spec fn changed(t: TargetView, c: BulkChange, now: Timestamp) -> TargetView {
    match c {
        BulkChange::Enabled(e) => TargetView { enabled: e, updated_at: now, ..t },
        BulkChange::AddTags(tags) => TargetView {
            tags: with_tags(t.tags, views(tags@)),
            updated_at: now,
            ..t
        },
        BulkChange::RemoveTags(tags) => TargetView {
            tags: without_tags(t.tags, views(tags@)),
            updated_at: now,
            ..t
        },
        BulkChange::Group(g) => TargetView {
            group_name: opt_str_view(g),
            updated_at: now,
            ..t
        },
    }
}

/// What a bulk change does and returns: the targets that `ids` name change, and their
/// ids come back in store order.
pub open spec fn touched(
    before: Seq<Target>,
    after: Seq<Target>,
    hit: Seq<u128>,
    ids: Seq<u128>,
    c: BulkChange,
    now: Timestamp,
) -> bool {
    &&& after.len() == before.len()
    &&& forall|i: int|
        0 <= i < before.len() ==> (#[trigger] after[i])@ == (if ids.contains(before[i].id) {
            changed(before[i]@, c, now)
        } else {
            before[i]@
        })
    &&& hit == ids_of(before.filter(among(ids)))
}

fn add_missing(tags: &mut Vec<String>, more: &Vec<String>)
    ensures
        views(final(tags)@) == with_tags(views(old(tags)@), views(more@)),
{
    let ghost start = views(tags@);
    let mut i: usize = 0;
    assert(views(more@).take(0) =~= Seq::<Seq<char>>::empty());
    while i < more.len()
        invariant
            i <= more@.len(),
            views(tags@) == with_tags(start, views(more@).take(i as int)),
        decreases more.len() - i,
    {
        proof {
            assert(views(more@).take(i + 1).drop_last() =~= views(more@).take(i as int));
            assert(views(more@)[i as int] == more@[i as int]@);
        }
        if !contains_str(tags, more[i].as_str()) {
            let ghost prev = tags@;
            tags.push(more[i].clone());
            assert(views(tags@) =~= views(prev).push(more@[i as int]@));
        }
        i += 1;
    }
    assert(views(more@).take(i as int) =~= views(more@));
}

fn drop_listed(tags: &mut Vec<String>, gone: &Vec<String>)
    ensures
        views(final(tags)@) == without_tags(views(old(tags)@), views(gone@)),
{
    let ghost before = tags@;
    let ghost q = |x: Seq<char>| !views(gone@).contains(x);
    let ghost p = |x: String| !views(gone@).contains(x@);
    let keep = |x: &String| -> (b: bool)
        ensures
            b == !views(gone@).contains(x@),
    { !contains_str(gone, x.as_str()) };
    retain(tags, keep, Ghost(p));
    proof {
        lemma_filter_map(before, |s: String| s@, p, q);
    }
}

fn change(t: Target, c: &BulkChange, now: Timestamp) -> (r: Target)
    ensures
        r@ == changed(t@, *c, now),
{
    let mut t = t;
    match c {
        BulkChange::Enabled(e) => {
            t.enabled = *e;
        },
        BulkChange::AddTags(tags) => {
            let mut own = t.tags;
            add_missing(&mut own, tags);
            t.tags = own;
        },
        BulkChange::RemoveTags(tags) => {
            let mut own = t.tags;
            drop_listed(&mut own, tags);
            t.tags = own;
        },
        BulkChange::Group(g) => {
            t.group_name = opt_owned(*g);
        },
    }
    t.updated_at = now;
    t
}

/// Every tag of every target, in order, repeats included.
pub open spec fn all_tags(s: Seq<Target>) -> Seq<Seq<char>>
    decreases s.len(),
{
    if s.len() == 0 {
        Seq::empty()
    } else {
        all_tags(s.drop_last()) + views(s.last().tags@)
    }
}

/// The tag starts with the prefix, where one is asked for.
pub open spec fn wanted(prefix: Option<Seq<char>>) -> spec_fn(Seq<char>) -> bool {
    |t: Seq<char>| prefix matches Some(p) ==> has_prefix(t, p)
}

/// The tally holds this name.
pub open spec fn tallied(name: Seq<char>) -> spec_fn((Seq<char>, nat)) -> bool {
    |e: (Seq<char>, nat)| e.0 == name
}

/// How often each text occurs, by first occurrence.
pub open spec fn tally(s: Seq<Seq<char>>) -> Seq<(Seq<char>, nat)>
    decreases s.len(),
{
    if s.len() == 0 {
        Seq::empty()
    } else {
        let t = tally(s.drop_last());
        match index_where(t, tallied(s.last())) {
            Some(i) => t.update(i, (t[i].0, t[i].1 + 1)),
            None => t.push((s.last(), 1)),
        }
    }
}

/// Most used first, then by name.
pub open spec fn tag_order() -> spec_fn((Seq<char>, nat), (Seq<char>, nat)) -> bool {
    |a: (Seq<char>, nat), b: (Seq<char>, nat)| a.1 > b.1 || (a.1 == b.1 && str_le(a.0, b.0))
}

/// A tag count's name and number.
pub open spec fn tag_model() -> spec_fn(TagCount) -> (Seq<char>, nat) {
    |c: TagCount| (c.name@, c.count as nat)
}

proof fn lemma_tally_bound(s: Seq<Seq<char>>)
    ensures
        forall|i: int| 0 <= i < tally(s).len() ==> 1 <= (#[trigger] tally(s)[i]).1 <= s.len(),
    decreases s.len(),
{
    if s.len() > 0 {
        lemma_tally_bound(s.drop_last());
        lemma_index_where(tally(s.drop_last()), tallied(s.last()));
    }
}

fn count_tags(flat: &Vec<String>) -> (counts: Vec<TagCount>)
    ensures
        counts@.map_values(tag_model()) == tally(views(flat@)),
{
    let mut counts: Vec<TagCount> = Vec::new();
    let mut i: usize = 0;
    assert(views(flat@).take(0) =~= Seq::<Seq<char>>::empty());
    assert(counts@.map_values(tag_model()) =~= tally(views(flat@).take(0)));
    while i < flat.len()
        invariant
            i <= flat@.len(),
            counts@.map_values(tag_model()) == tally(views(flat@).take(i as int)),
        decreases flat.len() - i,
    {
        let ghost seen = views(flat@).take(i as int);
        let ghost name = flat@[i as int]@;
        let ghost before = counts@;
        proof {
            assert(views(flat@).take(i + 1).drop_last() =~= seen);
            assert(views(flat@).take(i + 1).last() == name);
            lemma_tally_bound(seen);
        }
        let same = |c: &TagCount| -> (b: bool)
            ensures
                b == (c.name@ == flat@[i as int]@),
        { str_eq(c.name.as_str(), flat[i].as_str()) };
        let found = position(&counts, same, Ghost(|c: TagCount| c.name@ == name));
        proof {
            lemma_index_where(before, |c: TagCount| c.name@ == name);
            lemma_index_where(tally(seen), tallied(name));
            lemma_same_index(before, name);
        }
        match found {
            Some(k) => {
                assert(tally(seen)[k as int] == (tag_model())(before[k as int]));
                let old_name = counts[k].name.clone();
                let old_count: u64 = counts[k].count;
                counts[k] = TagCount { name: old_name, count: old_count + 1 };
                assert(counts@.map_values(tag_model()) =~= tally(seen).update(
                    k as int,
                    (tally(seen)[k as int].0, tally(seen)[k as int].1 + 1),
                ));
            },
            None => {
                counts.push(TagCount { name: flat[i].clone(), count: 1 });
                assert(counts@.map_values(tag_model()) =~= tally(seen).push((name, 1)));
            },
        }
        i += 1;
    }
    assert(views(flat@).take(i as int) =~= views(flat@));
    counts
}

proof fn lemma_same_index(counts: Seq<TagCount>, name: Seq<char>)
    ensures
        index_where(counts, |c: TagCount| c.name@ == name) == index_where(
            counts.map_values(tag_model()),
            tallied(name),
        ),
{
    let p = |c: TagCount| c.name@ == name;
    let m = counts.map_values(tag_model());
    lemma_index_where(counts, p);
    lemma_index_where(m, tallied(name));
    match (index_where(counts, p), index_where(m, tallied(name))) {
        (Some(i), Some(j)) => {
            assert(p(counts[i]));
            assert(tallied(name)(m[j]));
            assert(p(counts[j]));
            assert(tallied(name)(m[i]));
            if i < j {
                assert(!tallied(name)(m[i]));
            } else if j < i {
                assert(!p(counts[j]));
            }
        },
        (Some(i), None) => {
            assert(p(counts[i]));
            assert(!tallied(name)(m[i]));
        },
        (None, Some(j)) => {
            assert(tallied(name)(m[j]));
            assert(!p(counts[j]));
        },
        (None, None) => {},
    }
}

fn clone_refs(v: &Vec<&Target>) -> (out: Vec<Target>)
    ensures
        models(out@) == models(derefs(v@)),
{
    let ghost all = derefs(v@);
    let mut out: Vec<Target> = Vec::new();
    let mut i: usize = 0;
    while i < v.len()
        invariant
            i <= v@.len(),
            all == derefs(v@),
            out@.len() == i,
            forall|k: int| 0 <= k < i ==> (#[trigger] out@[k])@ == all[k]@,
        decreases v.len() - i,
    {
        assert(all[i as int] == *v@[i as int]);
        out.push(v[i].clone());
        i += 1;
    }
    assert(models(out@) =~= models(all));
    out
}

/// Whether the quota leaves room for `more` targets.
pub open spec fn over_quota(held: nat, more: nat, max_targets: i64) -> bool {
    held + more > max_targets
}

/// What creating one target does and returns.
pub open spec fn created(
    before: Seq<Target>,
    after: Seq<Target>,
    r: Result<Target, AppError>,
    new: NewTarget,
    source: WriteSource,
    max_targets: i64,
    now: Timestamp,
    id: u128,
) -> bool {
    if over_quota(before.len(), 1, max_targets) {
        after == before && (r matches Err(e) && e.is_quota(
            "max_targets"@,
            before.len() as i64,
            max_targets,
            "free"@,
        ))
    } else {
        &&& r matches Ok(t)
        &&& t@ == made(new, source, now, id)
        &&& models(after) == models(before).push(t@)
        &&& after.drop_last() == before
    }
}

/// What creating many targets does and returns: all of them or none.
pub open spec fn bulk_created(
    before: Seq<Target>,
    after: Seq<Target>,
    r: Result<Vec<Target>, AppError>,
    items: Seq<NewTarget>,
    source: WriteSource,
    max_targets: i64,
) -> bool {
    if over_quota(before.len(), items.len(), max_targets) {
        after == before && (r matches Err(e) && e.is_quota(
            "max_targets"@,
            before.len() as i64,
            max_targets,
            "free"@,
        ))
    } else {
        &&& r matches Ok(out)
        &&& out@.len() == items.len()
        &&& forall|i: int|
            0 <= i < items.len() ==> (#[trigger] out@[i]).created_at.wf() && out@[i]@ == made(
                items[i],
                source,
                out@[i].created_at,
                out@[i].id,
            )
        &&& after.len() == before.len() + items.len()
        &&& after.take(before.len() as int) == before
        &&& models(after.skip(before.len() as int)) == models(out@)
    }
}

/// What changing a target does and returns.
pub open spec fn updated(
    before: Seq<Target>,
    after: Seq<Target>,
    r: Option<Target>,
    id: u128,
    update: TargetUpdate,
    source: WriteSource,
    now: Timestamp,
) -> bool {
    match index_where(before, has_id(id)) {
        None => after == before && r is None,
        Some(i) => {
            &&& after.len() == before.len()
            &&& forall|j: int| 0 <= j < before.len() && j != i ==> #[trigger] after[j] == before[j]
            &&& after[i]@ == patched(before[i]@, update, source, now)
            &&& r matches Some(t)
            &&& t@ == after[i]@
        },
    }
}

/// Targets in memory.
#[derive(Debug)]
pub struct InMemoryTargetStore {
    targets: Vec<Target>,
}

impl View for InMemoryTargetStore {
    type V = Seq<Target>;

    closed spec fn view(&self) -> Seq<Target> {
        self.targets@
    }
}

impl InMemoryTargetStore {
    pub fn new() -> (r: Self)
        ensures
            r@ == Seq::<Target>::empty(),
    {
        InMemoryTargetStore { targets: Vec::new() }
    }

    pub fn from_vec(targets: Vec<Target>) -> (r: Self)
        ensures
            r@ == targets@,
    {
        InMemoryTargetStore { targets }
    }

    pub fn insert(&mut self, target: Target)
        ensures
            final(self)@ == old(self)@.push(target),
    {
        self.targets.push(target);
    }

    /// One page of the targets that pass the filter, in the order asked for.
    pub fn list(&self, _org: OrgId, filter: &TargetFilter) -> (out: Vec<Target>)
        ensures
            models(out@) == models(
                page_of(
                    stable_sorted(self@.filter(listed(*filter)), sort_order(filter.sort)),
                    filter.offset as nat,
                    page_limit(filter.limit),
                ),
            ),
    {
        let limit: usize = match filter.limit {
            None => DEFAULT_LIMIT,
            Some(n) => if n < MAX_LIMIT {
                n
            } else {
                MAX_LIMIT
            },
        };
        let q_lower = match trim_non_blank(&filter.q) {
            Some(q) => Some(to_lowercase(q.as_str())),
            None => None,
        };
        let hit = |t: &Target| -> (b: bool)
            ensures
                b == passes(*filter, t@, lowercase_of(t.name@), needle(opt_view(filter.q))),
        {
            let lower = to_lowercase(t.name.as_str());
            keeps(filter, t, lower.as_str(), &q_lower)
        };
        let hits = select_refs(&self.targets, hit, Ghost(listed(*filter)));
        let sort = filter.sort;
        let le = |a: &Target, b: &Target| -> (r: bool)
            ensures
                r == (sort_order(sort))(*a, *b),
        {
            match sort {
                TargetSort::RecentActivity => a.updated_at.nanos >= b.updated_at.nanos,
                TargetSort::Name => at_most(a.name.as_str(), b.name.as_str()),
                TargetSort::Created => a.created_at.nanos <= b.created_at.nanos,
            }
        };
        let sorted = sort_refs(hits, le, Ghost(sort_order(sort)));
        let paged = page_refs(sorted, filter.offset, limit);
        clone_refs(&paged)
    }

    fn find(&self, id: u128) -> (r: Option<usize>)
        ensures
            match r {
                Some(i) => index_where(self@, has_id(id)) == Some(i as int) && i < self@.len(),
                None => index_where(self@, has_id(id)) is None,
            },
    {
        let same = |t: &Target| -> (b: bool)
            ensures
                b == (t.id == id),
        { t.id == id };
        position(&self.targets, same, Ghost(has_id(id)))
    }

    /// The target with this id.
    pub fn get(&self, _org: OrgId, id: u128) -> (r: Option<Target>)
        ensures
            match index_where(self@, has_id(id)) {
                Some(i) => r matches Some(t) && t@ == self@[i]@,
                None => r is None,
            },
    {
        match self.find(id) {
            Some(i) => Some(self.targets[i].clone()),
            None => None,
        }
    }

    /// Makes a target at `now` under the id `id`, where the quota allows it.
    pub fn create_at(
        &mut self,
        _org: OrgId,
        new: &NewTarget,
        source: WriteSource,
        max_targets: i64,
        now: Timestamp,
        id: u128,
    ) -> (r: Result<Target, AppError>)
        ensures
            created(old(self)@, final(self)@, r, *new, source, max_targets, now, id),
    {
        let held: usize = self.targets.len();
        if held as i128 + 1 > max_targets as i128 {
            return Err(AppError::quota_exceeded("max_targets", held as i64, max_targets, "free"));
        }
        let ghost before = self.targets@;
        let target = materialize(new, source, now, id);
        self.targets.push(target.clone());
        assert(self.targets@.drop_last() =~= before);
        assert(models(self.targets@) =~= models(before).push(target@));
        Ok(target)
    }

    /// Makes a target now.
    pub fn create(
        &mut self,
        org: OrgId,
        new: &NewTarget,
        source: WriteSource,
        max_targets: i64,
    ) -> (r: Result<Target, AppError>)
        ensures
            exists|t: Timestamp, id: u128|
                t.wf() && #[trigger] created(
                    old(self)@,
                    final(self)@,
                    r,
                    *new,
                    source,
                    max_targets,
                    t,
                    id,
                ),
    {
        let t = now();
        let id: u128 = fresh_id();
        self.create_at(org, new, source, max_targets, t, id)
    }

    /// Changes a target at `now`.
    pub fn update_at(
        &mut self,
        _org: OrgId,
        id: u128,
        update: TargetUpdate,
        source: WriteSource,
        now: Timestamp,
    ) -> (r: Option<Target>)
        ensures
            updated(old(self)@, final(self)@, r, id, update, source, now),
    {
        let Some(i) = self.find(id) else {
            return None;
        };
        let t = patch(self.targets[i].clone(), update, source, now);
        self.targets[i] = t.clone();
        Some(t)
    }

    /// Changes a target now.
    pub fn update(&mut self, org: OrgId, id: u128, update: TargetUpdate, source: WriteSource) -> (r:
        Option<Target>)
        ensures
            exists|t: Timestamp|
                t.wf() && #[trigger] updated(
                    old(self)@,
                    final(self)@,
                    r,
                    id,
                    update,
                    source,
                    t,
                ),
    {
        let t = now();
        self.update_at(org, id, update, source, t)
    }

    /// Deletes the target with this id.
    pub fn delete(&mut self, _org: OrgId, id: u128) -> (r: bool)
        ensures
            final(self)@ == old(self)@.filter(|t: Target| !has_id(id)(t)),
            r == (final(self)@.len() != old(self)@.len()),
    {
        let before: usize = self.targets.len();
        let keep = |t: &Target| -> (b: bool)
            ensures
                b == !(t.id == id),
        { t.id != id };
        retain(&mut self.targets, keep, Ghost(|t: Target| !has_id(id)(t)));
        self.targets.len() != before
    }

    /// Makes many targets now, or none where the quota does not allow all of them.
    pub fn bulk_create(
        &mut self,
        _org: OrgId,
        items: &Vec<NewTarget>,
        source: WriteSource,
        max_targets: i64,
    ) -> (r: Result<Vec<Target>, AppError>)
        ensures
            bulk_created(old(self)@, final(self)@, r, items@, source, max_targets),
    {
        let held: usize = self.targets.len();
        if held as i128 + items.len() as i128 > max_targets as i128 {
            return Err(AppError::quota_exceeded("max_targets", held as i64, max_targets, "free"));
        }
        let ghost before = self.targets@;
        let mut out: Vec<Target> = Vec::new();
        let mut i: usize = 0;
        while i < items.len()
            invariant
                i <= items@.len(),
                out@.len() == i,
                self.targets@.len() == before.len() + i,
                forall|k: int|
                    0 <= k < before.len() ==> #[trigger] self.targets@[k] == before[k],
                forall|k: int|
                    0 <= k < i ==> self.targets@[before.len() + k]@ == (#[trigger] out@[k])@,
                forall|k: int|
                    0 <= k < i ==> (#[trigger] out@[k]).created_at.wf() && out@[k]@ == made(
                        items@[k],
                        source,
                        out@[k].created_at,
                        out@[k].id,
                    ),
            decreases items.len() - i,
        {
            let t = now();
            let target = materialize(&items[i], source, t, fresh_id());
            assert(target@.created_at == t && target@.id == target.id);
            self.targets.push(target.clone());
            out.push(target);
            i += 1;
        }
        assert(self.targets@.take(before.len() as int) =~= before);
        assert(models(self.targets@.skip(before.len() as int)) =~= models(out@)) by {
            assert forall|k: int| 0 <= k < out@.len() implies self.targets@.skip(
                before.len() as int,
            )[k]@ == out@[k]@ by {
                assert(self.targets@[before.len() + k]@ == out@[k]@);
            }
        }
        Ok(out)
    }

    /// The targets changed after `since`.
    pub fn list_updated_since(&self, _org: OrgId, since: Timestamp) -> (out: Vec<Target>)
        ensures
            models(out@) == models(
                self@.filter(|t: Target| t.updated_at.nanos > since.nanos),
            ),
    {
        let hit = |t: &Target| -> (b: bool)
            ensures
                b == (t.updated_at.nanos > since.nanos),
        { t.updated_at.nanos > since.nanos };
        let hits = select_refs(
            &self.targets,
            hit,
            Ghost(|t: Target| t.updated_at.nanos > since.nanos),
        );
        clone_refs(&hits)
    }

    fn flat_tags(&self, prefix: &Option<String>) -> (flat: Vec<String>)
        ensures
            views(flat@) == all_tags(self@).filter(wanted(opt_view(*prefix))),
    {
        let ghost p = wanted(opt_view(*prefix));
        let ghost all = self.targets@;
        let mut flat: Vec<String> = Vec::new();
        let mut i: usize = 0;
        proof {
            reveal(Seq::filter);
            assert(all.take(0) =~= Seq::<Target>::empty());
            assert(views(flat@) =~= all_tags(all.take(0)).filter(p));
        }
        while i < self.targets.len()
            invariant
                i <= all.len(),
                all == self.targets@,
                p == wanted(opt_view(*prefix)),
                views(flat@) == all_tags(all.take(i as int)).filter(p),
            decreases self.targets.len() - i,
        {
            let tags = &self.targets[i].tags;
            let ghost own = views(tags@);
            let ghost base = all_tags(all.take(i as int));
            let mut j: usize = 0;
            assert(base + own.take(0) =~= base);
            while j < tags.len()
                invariant
                    j <= tags@.len(),
                    own == views(tags@),
                    p == wanted(opt_view(*prefix)),
                    views(flat@) == (base + own.take(j as int)).filter(p),
                decreases tags.len() - j,
            {
                proof {
                    assert(own[j as int] == tags@[j as int]@);
                    lemma_filter_push(base + own.take(j as int), own[j as int], p);
                    assert(base + own.take(j + 1) =~= (base + own.take(j as int)).push(
                        own[j as int],
                    ));
                }
                let keep = match prefix {
                    Some(x) => starts_with(tags[j].as_str(), x.as_str()),
                    None => true,
                };
                if keep {
                    let ghost prev = flat@;
                    flat.push(tags[j].clone());
                    assert(views(flat@) =~= views(prev).push(own[j as int]));
                }
                j += 1;
            }
            proof {
                assert(own.take(j as int) =~= own);
                assert(all.take(i + 1).drop_last() =~= all.take(i as int));
                assert(all.take(i + 1).last() == all[i as int]);
            }
            i += 1;
        }
        assert(all.take(i as int) =~= all);
        flat
    }

    /// How often each tag is used, most used first and then by name, the first
    /// `limit` of those that start with `prefix`.
    pub fn list_tags(&self, _org: OrgId, prefix: &Option<String>, limit: usize) -> (out: Vec<
        TagCount,
    >)
        ensures
            out@.map_values(tag_model()) == page_of(
                stable_sorted(
                    tally(all_tags(self@).filter(wanted(opt_view(*prefix)))),
                    tag_order(),
                ),
                0,
                limit as nat,
            ),
    {
        let flat = self.flat_tags(prefix);
        let counts = count_tags(&flat);
        let ghost le_spec = |a: TagCount, b: TagCount|
            (tag_order())((tag_model())(a), (tag_model())(b));
        let le = |a: &TagCount, b: &TagCount| -> (r: bool)
            ensures
                r == (tag_order())((tag_model())(*a), (tag_model())(*b)),
        {
            a.count > b.count || (a.count == b.count && at_most(
                a.name.as_str(),
                b.name.as_str(),
            ))
        };
        let ghost raw = counts@;
        let sorted = stable_sort(counts, le, Ghost(le_spec));
        proof {
            lemma_stable_sorted_map(raw, tag_model(), le_spec, tag_order());
        }
        let ghost all = sorted@;
        let out = page(sorted, 0, limit);
        assert(page_of(all.map_values(tag_model()), 0, limit as nat) =~= page_of(
            all,
            0,
            limit as nat,
        ).map_values(tag_model()));
        out
    }

    /// Totals and the enabled/disabled split.
    pub fn summary(&self, _org: OrgId) -> (r: TargetsSummary)
        ensures
            r.total == self@.len(),
            r.enabled == self@.filter(|t: Target| t.enabled).len(),
            r.disabled == r.total - r.enabled,
    {
        let on = |t: &Target| -> (b: bool)
            ensures
                b == t.enabled,
        { t.enabled };
        let enabled: usize = count_where(&self.targets, on, Ghost(|t: Target| t.enabled));
        proof {
            lemma_filter_len(self.targets@, |t: Target| t.enabled);
        }
        let total: usize = self.targets.len();
        TargetsSummary {
            total: total as u64,
            enabled: enabled as u64,
            disabled: (total - enabled) as u64,
        }
    }

    fn touch(&mut self, ids: &Vec<u128>, c: &BulkChange, now: Timestamp) -> (hit: Vec<u128>)
        ensures
            touched(old(self)@, final(self)@, hit@, ids@, *c, now),
    {
        let ghost before = self.targets@;
        let ghost p = among(ids@);
        let mut hit: Vec<u128> = Vec::new();
        let mut i: usize = 0;
        proof {
            reveal(Seq::filter);
            assert(hit@ =~= ids_of(before.take(0).filter(p)));
        }
        while i < self.targets.len()
            invariant
                i <= self.targets@.len(),
                self.targets@.len() == before.len(),
                p == among(ids@),
                forall|k: int|
                    0 <= k < i ==> (#[trigger] self.targets@[k])@ == (if ids@.contains(
                        before[k].id,
                    ) {
                        changed(before[k]@, *c, now)
                    } else {
                        before[k]@
                    }),
                forall|k: int| i <= k < before.len() ==> #[trigger] self.targets@[k] == before[k],
                hit@ == ids_of(before.take(i as int).filter(p)),
            decreases self.targets.len() - i,
        {
            proof {
                lemma_filter_take(before, i as int, p);
                assert(self.targets@[i as int] == before[i as int]);
            }
            let id: u128 = self.targets[i].id;
            if contains_id(ids, id) {
                let ghost prev = hit@;
                let ghost kept = before.take(i as int).filter(p);
                let t = change(self.targets[i].clone(), c, now);
                self.targets[i] = t;
                hit.push(id);
                assert(ids_of(kept.push(before[i as int])) =~= ids_of(kept).push(id));
            }
            i += 1;
        }
        assert(before.take(i as int) =~= before);
        hit
    }

    /// Enables or disables at `now` each of `ids`; returns those that exist.
    pub fn set_enabled_at(&mut self, _org: OrgId, ids: &Vec<u128>, enabled: bool, now: Timestamp)
        -> (hit: Vec<u128>)
        ensures
            touched(old(self)@, final(self)@, hit@, ids@, BulkChange::Enabled(enabled), now),
    {
        self.touch(ids, &BulkChange::Enabled(enabled), now)
    }

    /// Enables or disables now each of `ids`.
    pub fn set_enabled(&mut self, org: OrgId, ids: &Vec<u128>, enabled: bool) -> (hit: Vec<u128>)
        ensures
            exists|t: Timestamp|
                t.wf() && #[trigger] touched(
                    old(self)@,
                    final(self)@,
                    hit@,
                    ids@,
                    BulkChange::Enabled(enabled),
                    t,
                ),
    {
        let t = now();
        self.set_enabled_at(org, ids, enabled, t)
    }

    /// Deletes each of `ids`; returns those that existed.
    pub fn delete_bulk(&mut self, _org: OrgId, ids: &Vec<u128>) -> (hit: Vec<u128>)
        ensures
            hit@ == ids_of(old(self)@.filter(among(ids@))),
            final(self)@ == old(self)@.filter(|t: Target| !among(ids@)(t)),
    {
        let listed = |t: &Target| -> (b: bool)
            ensures
                b == ids@.contains(t.id),
        { contains_id(ids, t.id) };
        let hits = select_refs(&self.targets, listed, Ghost(among(ids@)));
        let ghost gone = derefs(hits@);
        let mut hit: Vec<u128> = Vec::new();
        let mut i: usize = 0;
        while i < hits.len()
            invariant
                i <= hits@.len(),
                gone == derefs(hits@),
                hit@ == ids_of(gone.take(i as int)),
            decreases hits.len() - i,
        {
            assert(gone[i as int] == *hits@[i as int]);
            hit.push(hits[i].id);
            i += 1;
            assert(hit@ =~= ids_of(gone.take(i as int)));
        }
        assert(gone.take(i as int) =~= gone);
        let keep = |t: &Target| -> (b: bool)
            ensures
                b == !ids@.contains(t.id),
        { !contains_id(ids, t.id) };
        retain(&mut self.targets, keep, Ghost(|t: Target| !among(ids@)(t)));
        hit
    }

    /// Adds `tags` at `now` to each of `ids`; returns those that exist.
    pub fn add_tags_at(&mut self, _org: OrgId, ids: &Vec<u128>, tags: &Vec<String>, now: Timestamp)
        -> (hit: Vec<u128>)
        ensures
            touched(old(self)@, final(self)@, hit@, ids@, BulkChange::AddTags(tags), now),
    {
        self.touch(ids, &BulkChange::AddTags(tags), now)
    }

    /// Adds `tags` now to each of `ids`.
    pub fn add_tags(&mut self, org: OrgId, ids: &Vec<u128>, tags: &Vec<String>) -> (hit: Vec<u128>)
        ensures
            exists|t: Timestamp|
                t.wf() && #[trigger] touched(
                    old(self)@,
                    final(self)@,
                    hit@,
                    ids@,
                    BulkChange::AddTags(tags),
                    t,
                ),
    {
        let t = now();
        self.add_tags_at(org, ids, tags, t)
    }

    /// Removes `tags` at `now` from each of `ids`; returns those that exist.
    pub fn remove_tags_at(
        &mut self,
        _org: OrgId,
        ids: &Vec<u128>,
        tags: &Vec<String>,
        now: Timestamp,
    ) -> (hit: Vec<u128>)
        ensures
            touched(old(self)@, final(self)@, hit@, ids@, BulkChange::RemoveTags(tags), now),
    {
        self.touch(ids, &BulkChange::RemoveTags(tags), now)
    }

    /// Removes `tags` now from each of `ids`.
    pub fn remove_tags(&mut self, org: OrgId, ids: &Vec<u128>, tags: &Vec<String>) -> (hit: Vec<
        u128,
    >)
        ensures
            exists|t: Timestamp|
                t.wf() && #[trigger] touched(
                    old(self)@,
                    final(self)@,
                    hit@,
                    ids@,
                    BulkChange::RemoveTags(tags),
                    t,
                ),
    {
        let t = now();
        self.remove_tags_at(org, ids, tags, t)
    }

    /// Sets at `now` the group of each of `ids` (`None` clears it); returns those that
    /// exist.
    pub fn set_group_at(
        &mut self,
        _org: OrgId,
        ids: &Vec<u128>,
        group: Option<&str>,
        now: Timestamp,
    ) -> (hit: Vec<u128>)
        ensures
            touched(old(self)@, final(self)@, hit@, ids@, BulkChange::Group(group), now),
    {
        self.touch(ids, &BulkChange::Group(group), now)
    }

    /// Sets now the group of each of `ids`.
    pub fn set_group(&mut self, org: OrgId, ids: &Vec<u128>, group: Option<&str>) -> (hit: Vec<
        u128,
    >)
        ensures
            exists|t: Timestamp|
                t.wf() && #[trigger] touched(
                    old(self)@,
                    final(self)@,
                    hit@,
                    ids@,
                    BulkChange::Group(group),
                    t,
                ),
    {
        let t = now();
        self.set_group_at(org, ids, group, t)
    }

    /// The enabled targets behind the cursor by ascending id, at most `limit` of them.
    /// Every target counts as the nil org's, so only the cursor's target matters.
    pub fn next_public_status_page(&self, after: Option<PublicTargetCursor>, limit: usize) -> (out:
        Vec<(OrgId, Target)>)
        ensures
            out@.map_values(|e: (OrgId, Target)| e.1@) == models(
                page_of(
                    stable_sorted(self@.filter(beyond(after)), id_order()),
                    0,
                    limit as nat,
                ),
            ),
            forall|i: int| 0 <= i < out@.len() ==> (#[trigger] out@[i]).0 == OrgId(0),
    {
        let hit = |t: &Target| -> (b: bool)
            ensures
                b == (t.enabled && (after matches Some(c) ==> t.id > c.target_id)),
        {
            t.enabled && match after {
                Some(c) => t.id > c.target_id,
                None => true,
            }
        };
        let hits = select_refs(&self.targets, hit, Ghost(beyond(after)));
        let le = |a: &Target, b: &Target| -> (r: bool)
            ensures
                r == (a.id <= b.id),
        { a.id <= b.id };
        let sorted = sort_refs(hits, le, Ghost(id_order()));
        let paged = page_refs(sorted, 0, limit);
        with_nil_org(&paged)
    }
}

/// The target is enabled and behind the cursor.
pub open spec fn beyond(after: Option<PublicTargetCursor>) -> spec_fn(Target) -> bool {
    |t: Target| t.enabled && (after matches Some(c) ==> t.id > c.target_id)
}

/// Order by id.
pub open spec fn id_order() -> spec_fn(Target, Target) -> bool {
    |a: Target, b: Target| a.id <= b.id
}

fn with_nil_org(v: &Vec<&Target>) -> (out: Vec<(OrgId, Target)>)
    ensures
        out@.map_values(|e: (OrgId, Target)| e.1@) == models(derefs(v@)),
        forall|i: int| 0 <= i < out@.len() ==> (#[trigger] out@[i]).0 == OrgId(0),
{
    let ghost all = derefs(v@);
    let mut out: Vec<(OrgId, Target)> = Vec::new();
    let mut i: usize = 0;
    while i < v.len()
        invariant
            i <= v@.len(),
            all == derefs(v@),
            out@.len() == i,
            forall|k: int|
                0 <= k < i ==> (#[trigger] out@[k]).0 == OrgId(0) && out@[k].1@ == all[k]@,
        decreases v.len() - i,
    {
        assert(all[i as int] == *v@[i as int]);
        out.push((OrgId(0), v[i].clone()));
        i += 1;
    }
    assert(out@.map_values(|e: (OrgId, Target)| e.1@) =~= models(all));
    out
}

impl EnabledTargetSource for InMemoryTargetStore {
    /// Every target, as the nil org's.
    open spec fn holdings(&self) -> Seq<(OrgId, TargetView)> {
        models(self@).map_values(|t: TargetView| (OrgId(0), t))
    }

    fn list_all_enabled_targets(&self) -> (out: Vec<(OrgId, Target)>) {
        let on = |t: &Target| -> (b: bool)
            ensures
                b == t.enabled,
        { t.enabled };
        let hits = select_refs(&self.targets, on, Ghost(|t: Target| t.enabled));
        let out = with_nil_org(&hits);
        proof {
            let f = |t: Target| (OrgId(0), t@);
            let q = |e: (OrgId, TargetView)| e.1.enabled;
            lemma_filter_map(self@, f, |t: Target| t.enabled, q);
            assert(self.holdings() =~= self@.map_values(f));
            assert(out@.map_values(|e: (OrgId, Target)| (e.0, e.1@)) =~= self@.filter(
                |t: Target| t.enabled,
            ).map_values(f)) by {
                let ms = out@.map_values(|e: (OrgId, Target)| e.1@);
                let en = self@.filter(|t: Target| t.enabled);
                assert(ms == models(en));
                assert(out@.len() == ms.len());
                assert(en.len() == models(en).len());
                assert forall|i: int| 0 <= i < out@.len() implies (out@[i].0, out@[i].1@)
                    == f(en[i]) by {
                    assert(ms[i] == out@[i].1@);
                    assert(models(en)[i] == en[i]@);
                }
            }
        }
        out
    }
}

/// Creating never takes the store over the quota, one at a time or many at once.
pub proof fn law_quota_holds(
    before: Seq<Target>,
    one: Seq<Target>,
    many: Seq<Target>,
    r: Result<Target, AppError>,
    rs: Result<Vec<Target>, AppError>,
    new: NewTarget,
    items: Seq<NewTarget>,
    source: WriteSource,
    max_targets: i64,
    now: Timestamp,
    id: u128,
)
    requires
        created(before, one, r, new, source, max_targets, now, id),
        bulk_created(before, many, rs, items, source, max_targets),
    ensures
        r is Ok ==> one.len() <= max_targets,
        r is Err ==> one == before,
        rs is Ok ==> many.len() <= max_targets,
        rs is Err ==> many == before,
{
    if r is Ok {
        assert(models(one).len() == one.len());
        assert(models(before).len() == before.len());
    }
}

proof fn lemma_with_tags(old: Seq<Seq<char>>, more: Seq<Seq<char>>)
    ensures
        forall|x: Seq<char>| #[trigger]
            with_tags(old, more).contains(x) <==> old.contains(x) || more.contains(x),
        with_tags(old, more).len() >= old.len(),
        with_tags(old, more).take(old.len() as int) == old,
    decreases more.len(),
{
    if more.len() > 0 {
        let front = more.drop_last();
        lemma_with_tags(old, front);
        let t = with_tags(old, front);
        lemma_push_contains(t, more.last());
        lemma_push_contains(front, more.last());
        assert(more =~= front.push(more.last()));
        if !t.contains(more.last()) {
            assert(t.push(more.last()).take(old.len() as int) =~= t.take(old.len() as int));
        }
        assert forall|x: Seq<char>| #[trigger] with_tags(old, more).contains(x) <==> old.contains(x)
            || more.contains(x) by {
            assert(t.contains(x) <==> old.contains(x) || front.contains(x));
            assert(front.push(more.last()).contains(x) <==> front.contains(x) || x == more.last());
            assert(t.push(more.last()).contains(x) <==> t.contains(x) || x == more.last());
        }
    } else {
        assert(old.take(old.len() as int) =~= old);
    }
}

/// Adding tags keeps those a target has, in place, gives it every tag asked for, and no
/// other.
pub proof fn law_added_tags_are_there(old: Seq<Seq<char>>, more: Seq<Seq<char>>, x: Seq<char>)
    ensures
        with_tags(old, more).take(old.len() as int) == old,
        with_tags(old, more).contains(x) <==> old.contains(x) || more.contains(x),
{
    lemma_with_tags(old, more);
}

proof fn lemma_with_tags_known(old: Seq<Seq<char>>, more: Seq<Seq<char>>)
    requires
        forall|x: Seq<char>| #[trigger] more.contains(x) ==> old.contains(x),
    ensures
        with_tags(old, more) == old,
    decreases more.len(),
{
    if more.len() > 0 {
        let front = more.drop_last();
        assert forall|x: Seq<char>| #[trigger] front.contains(x) implies old.contains(x) by {
            let i = choose|i: int| 0 <= i < front.len() && front[i] == x;
            assert(more[i] == x);
            assert(more.contains(x));
        }
        lemma_with_tags_known(old, front);
        assert(more[more.len() - 1] == more.last());
        assert(more.contains(more.last()));
    }
}

/// Adding the same tags again adds nothing.
pub proof fn law_adding_tags_is_idempotent(old: Seq<Seq<char>>, more: Seq<Seq<char>>)
    ensures
        with_tags(with_tags(old, more), more) == with_tags(old, more),
{
    lemma_with_tags(old, more);
    lemma_with_tags_known(with_tags(old, more), more);
}

/// Removing tags leaves exactly those that were not named.
pub proof fn law_removed_tags_are_gone(old: Seq<Seq<char>>, gone: Seq<Seq<char>>, x: Seq<char>)
    ensures
        without_tags(old, gone).contains(x) <==> old.contains(x) && !gone.contains(x),
{
    lemma_filter_members(old, |y: Seq<char>| !gone.contains(y));
}

/// A list is in the order asked for, and each of its targets is stored and passes the
/// filter.
pub proof fn law_list_is_a_sorted_selection(s: Seq<Target>, f: TargetFilter)
    ensures
        ({
            let out = page_of(
                stable_sorted(s.filter(listed(f)), sort_order(f.sort)),
                f.offset as nat,
                page_limit(f.limit),
            );
            &&& is_sorted(out, sort_order(f.sort))
            &&& out.len() <= page_limit(f.limit) <= MAX_LIMIT
            &&& forall|i: int|
                0 <= i < out.len() ==> s.contains(#[trigger] out[i]) && listed(f)(out[i])
        }),
{
    broadcast use vstd::seq_lib::group_to_multiset_ensures;

    let le = sort_order(f.sort);
    let kept = s.filter(listed(f));
    let sorted = stable_sorted(kept, le);
    lemma_sort_order(f.sort);
    lemma_stable_sorted(kept, le);
    lemma_filter_members(s, listed(f));
    let out = page_of(sorted, f.offset as nat, page_limit(f.limit));
    assert forall|i: int, j: int| 0 <= i < j < out.len() implies le(
        #[trigger] out[i],
        #[trigger] out[j],
    ) by {
        assert(le(sorted[f.offset + i], sorted[f.offset + j]));
    }
    assert forall|i: int| 0 <= i < out.len() implies s.contains(#[trigger] out[i]) && listed(f)(
        out[i],
    ) by {
        let x = sorted[f.offset + i];
        assert(out[i] == x);
        assert(sorted.contains(x));
        assert(sorted.to_multiset().count(x) > 0);
        assert(kept.to_multiset().count(x) > 0);
        assert(kept.contains(x));
    }
}

proof fn lemma_sort_order(sort: TargetSort)
    ensures
        is_order(sort_order(sort)),
{
    let le = sort_order(sort);
    assert forall|a: Target, b: Target| #[trigger] le(a, b) || le(b, a) by {
        lemma_str_le(a.name@, b.name@, b.name@);
    }
    assert forall|a: Target, b: Target, c: Target| #[trigger]
        le(a, b) && #[trigger] le(b, c) implies le(a, c) by {
        lemma_str_le(a.name@, b.name@, c.name@);
    }
}

/// How often a text occurs.
pub open spec fn occurrences(s: Seq<Seq<char>>, x: Seq<char>) -> nat {
    s.filter(|y: Seq<char>| y == x).len()
}

/// A tally lists each text that occurs, once, with how often it occurs.
pub proof fn law_tally_counts_occurrences(s: Seq<Seq<char>>, x: Seq<char>)
    ensures
        match index_where(tally(s), tallied(x)) {
            Some(i) => tally(s)[i].1 == occurrences(s, x) && occurrences(s, x) > 0,
            None => occurrences(s, x) == 0,
        },
        forall|i: int, j: int|
            0 <= i < j < tally(s).len() ==> (#[trigger] tally(s)[i]).0 != (
            #[trigger] tally(s)[j]).0,
    decreases s.len(),
{
    reveal(Seq::filter);
    lemma_index_where(tally(s), tallied(x));
    if s.len() > 0 {
        let front = s.drop_last();
        let last = s.last();
        let t = tally(front);
        let u = tally(s);
        law_tally_counts_occurrences(front, x);
        law_tally_counts_occurrences(front, last);
        lemma_index_where(t, tallied(x));
        lemma_index_where(t, tallied(last));
        lemma_filter_push(front, last, |y: Seq<char>| y == x);
        assert(s =~= front.push(last));
        match index_where(t, tallied(last)) {
            Some(i) => {
                assert(tallied(last)(t[i]));
                assert forall|k: int| 0 <= k < u.len() implies (#[trigger] u[k]).0 == t[k].0 by {}
                lemma_tallied_same(t, u, x);
            },
            None => {
                assert forall|k: int| 0 <= k < t.len() implies (#[trigger] t[k]).0 != last by {
                    assert(!tallied(last)(t[k]));
                }
                if x == last {
                    match index_where(u, tallied(x)) {
                        Some(k) => {
                            assert(tallied(x)(u[k]));
                            assert(k == t.len()) by {
                                if k < t.len() {
                                    assert(u[k] == t[k]);
                                }
                            }
                        },
                        None => {
                            assert(!tallied(x)(u[t.len() as int]));
                        },
                    }
                } else {
                    match (index_where(t, tallied(x)), index_where(u, tallied(x))) {
                        (Some(a), Some(b)) => {
                            assert(tallied(x)(t[a]));
                            assert(tallied(x)(u[b]));
                            assert(u[a] == t[a]);
                            assert(b < t.len());
                            assert(u[b] == t[b]);
                            if a < b {
                                assert(!tallied(x)(u[a]));
                            } else if b < a {
                                assert(!tallied(x)(t[b]));
                            }
                        },
                        (Some(a), None) => {
                            assert(tallied(x)(t[a]));
                            assert(u[a] == t[a]);
                            assert(!tallied(x)(u[a]));
                        },
                        (None, Some(b)) => {
                            assert(tallied(x)(u[b]));
                            assert(u[b] == t[b]);
                            assert(!tallied(x)(t[b]));
                        },
                        (None, None) => {},
                    }
                }
            },
        }
    }
}

proof fn lemma_tallied_same(
    t: Seq<(Seq<char>, nat)>,
    u: Seq<(Seq<char>, nat)>,
    x: Seq<char>,
)
    requires
        t.len() == u.len(),
        forall|k: int| 0 <= k < u.len() ==> (#[trigger] u[k]).0 == t[k].0,
    ensures
        index_where(t, tallied(x)) == index_where(u, tallied(x)),
{
    lemma_index_where(t, tallied(x));
    lemma_index_where(u, tallied(x));
    match (index_where(t, tallied(x)), index_where(u, tallied(x))) {
        (Some(a), Some(b)) => {
            assert(tallied(x)(t[a]));
            assert(tallied(x)(u[b]));
            assert(u[a].0 == t[a].0);
            assert(u[b].0 == t[b].0);
            if a < b {
                assert(!tallied(x)(u[a]));
            } else if b < a {
                assert(!tallied(x)(t[b]));
            }
        },
        (Some(a), None) => {
            assert(tallied(x)(t[a]));
            assert(u[a].0 == t[a].0);
            assert(!tallied(x)(u[a]));
        },
        (None, Some(b)) => {
            assert(tallied(x)(u[b]));
            assert(u[b].0 == t[b].0);
            assert(!tallied(x)(t[b]));
        },
        (None, None) => {},
    }
}

/// A page of the status walk holds enabled targets in ascending order, all behind the
/// cursor: passing the last one on never repeats a target.
pub proof fn law_status_walk_advances(
    s: Seq<Target>,
    after: Option<PublicTargetCursor>,
    limit: nat,
)
    ensures
        ({
            let out = page_of(stable_sorted(s.filter(beyond(after)), id_order()), 0, limit);
            &&& out.len() <= limit
            &&& is_sorted(out, id_order())
            &&& forall|i: int|
                0 <= i < out.len() ==> (#[trigger] out[i]).enabled && (after matches Some(c)
                    ==> out[i].id > c.target_id)
        }),
{
    broadcast use vstd::seq_lib::group_to_multiset_ensures;

    let kept = s.filter(beyond(after));
    let sorted = stable_sorted(kept, id_order());
    lemma_stable_sorted(kept, id_order());
    lemma_filter_members(s, beyond(after));
    let out = page_of(sorted, 0, limit);
    assert forall|i: int, j: int| 0 <= i < j < out.len() implies (id_order())(
        #[trigger] out[i],
        #[trigger] out[j],
    ) by {
        assert((id_order())(sorted[i], sorted[j]));
    }
    assert forall|i: int| 0 <= i < out.len() implies beyond(after)(#[trigger] out[i]) by {
        let x = sorted[i];
        assert(out[i] == x);
        assert(sorted.contains(x));
        assert(sorted.to_multiset().count(x) > 0);
        assert(kept.to_multiset().count(x) > 0);
        assert(kept.contains(x));
    }
}

/// What a list filtered by these holds before paging: a stored target is in it exactly where
/// it has the enabled flag, the tag, the name part, the trimmed group and the owner that are
/// asked for. A blank name part or group asks for nothing.
pub proof fn law_a_filter_is_met_field_by_field(s: Seq<Target>, f: TargetFilter, t: Target)
    ensures
        stable_sorted(s.filter(listed(f)), sort_order(f.sort)).contains(t) <==> {
            &&& s.contains(t)
            &&& f.enabled matches Some(e) ==> t.enabled == e
            &&& f.tag matches Some(tag) ==> exists|i: int|
                0 <= i < t.tags@.len() && (#[trigger] t.tags@[i])@ == tag@
            &&& f.q matches Some(q) ==> (trimmed(q@).len() > 0 ==> has_substring(
                lowercase_of(t.name@),
                lowercase_of(trimmed(q@)),
            ))
            &&& f.group matches Some(g) ==> (trimmed(g@).len() > 0 ==> (t.group_name matches Some(x)
                && x@ == trimmed(g@)))
            &&& f.owner matches Some(u) ==> t.owner_user_id == Some(u)
        },
{
    lemma_sort_order(f.sort);
    lemma_listing(s, listed(f), sort_order(f.sort), f.offset as nat, page_limit(f.limit));
    if let Some(tag) = f.tag {
        let v = views(t.tags@);
        if v.contains(tag@) {
            let i = v.index_of(tag@);
            assert(t.tags@[i]@ == tag@);
        }
        if exists|i: int| 0 <= i < t.tags@.len() && (#[trigger] t.tags@[i])@ == tag@ {
            let i = choose|i: int| 0 <= i < t.tags@.len() && (#[trigger] t.tags@[i])@ == tag@;
            assert(v[i] == tag@);
        }
    }
}

/// A list is a page of that selection in the order asked for: by the last change, latest
/// first; by name; or by creation, oldest first. Without a limit a page holds a hundred, and
/// never more than ten thousand.
pub proof fn law_a_list_is_ordered_and_paged(s: Seq<Target>, f: TargetFilter)
    ensures
        ({
            let all = stable_sorted(s.filter(listed(f)), sort_order(f.sort));
            let out = page_of(all, f.offset as nat, page_limit(f.limit));
            &&& forall|i: int| 0 <= i < out.len() ==> #[trigger] out[i] == all[f.offset + i]
            &&& forall|i: int, j: int|
                0 <= i < j < out.len() ==> match f.sort {
                    TargetSort::RecentActivity => (#[trigger] out[i]).updated_at.nanos >= (
                    #[trigger] out[j]).updated_at.nanos,
                    TargetSort::Name => str_le(out[i].name@, out[j].name@),
                    TargetSort::Created => out[i].created_at.nanos <= out[j].created_at.nanos,
                }
            &&& f.limit is None ==> out.len() <= 100
            &&& f.limit matches Some(n) ==> out.len() <= n
            &&& out.len() <= 10_000
            &&& f.offset + 10_000 <= all.len() && (f.limit matches Some(n) && n >= 10_000)
                ==> out.len() == 10_000
            &&& f.offset + 100 <= all.len() && f.limit is None ==> out.len() == 100
            &&& f.limit matches Some(n) ==> (n <= 10_000 && f.offset + n <= all.len()
                ==> out.len() == n)
        }),
{
    lemma_sort_order(f.sort);
    lemma_listing(s, listed(f), sort_order(f.sort), f.offset as nat, page_limit(f.limit));
    let all = stable_sorted(s.filter(listed(f)), sort_order(f.sort));
    let out = page_of(all, f.offset as nat, page_limit(f.limit));
    law_page(all, f.offset as nat, page_limit(f.limit), 0);
    let le = sort_order(f.sort);
    assert forall|i: int, j: int| 0 <= i < j < out.len() implies match f.sort {
        TargetSort::RecentActivity => (#[trigger] out[i]).updated_at.nanos >= (
        #[trigger] out[j]).updated_at.nanos,
        TargetSort::Name => str_le(out[i].name@, out[j].name@),
        TargetSort::Created => out[i].created_at.nanos <= out[j].created_at.nanos,
    } by {
        assert(le(out[i], out[j]));
    }
}

/// A bulk change reaches the targets that it names and no other, changes in each the one
/// thing asked for, stamps it with the instant, and answers with their ids.
pub proof fn law_a_bulk_change_reaches_what_it_names(
    before: Seq<Target>,
    after: Seq<Target>,
    hit: Seq<u128>,
    ids: Seq<u128>,
    c: BulkChange,
    now: Timestamp,
    i: int,
)
    requires
        touched(before, after, hit, ids, c, now),
        0 <= i < before.len(),
    ensures
        after.len() == before.len(),
        !ids.contains(before[i].id) ==> after[i]@ == before[i]@,
        ids.contains(before[i].id) ==> {
            let (b, a) = (before[i]@, after[i]@);
            &&& a.updated_at == now
            &&& a.id == b.id && a.name == b.name && a.check == b.check && a.alerts == b.alerts
            &&& a.interval_secs == b.interval_secs && a.owner_user_id == b.owner_user_id
            &&& a.write_source == b.write_source && a.created_at == b.created_at
            &&& c matches BulkChange::Enabled(e) ==> a.enabled == e && a.tags == b.tags
                && a.group_name == b.group_name
            &&& !(c is Enabled) ==> a.enabled == b.enabled
            &&& c matches BulkChange::Group(g) ==> a.tags == b.tags && (g is None ==> a.group_name
                is None) && (g matches Some(x) ==> a.group_name == Some(x@))
            &&& !(c is Group) ==> a.group_name == b.group_name
            &&& c matches BulkChange::AddTags(tags) ==> forall|x: Seq<char>| #[trigger]
                a.tags.contains(x) <==> b.tags.contains(x) || views(tags@).contains(x)
            &&& c matches BulkChange::RemoveTags(tags) ==> forall|x: Seq<char>| #[trigger]
                a.tags.contains(x) <==> b.tags.contains(x) && !views(tags@).contains(x)
        },
        hit.contains(before[i].id) <==> ids.contains(before[i].id),
        forall|x: u128| #[trigger] hit.contains(x) ==> ids.contains(x),
{
    let kept = before.filter(among(ids));
    lemma_filter_members(before, among(ids));
    let (b, a) = (before[i]@, after[i]@);
    assert(a == after[i]@);
    match c {
        BulkChange::AddTags(tags) => {
            lemma_with_tags(b.tags, views(tags@));
        },
        BulkChange::RemoveTags(tags) => {
            lemma_filter_members(b.tags, |y: Seq<char>| !views(tags@).contains(y));
        },
        _ => {},
    }
    if ids.contains(before[i].id) {
        assert(before.contains(before[i]));
        assert(kept.contains(before[i]));
        let k = kept.index_of(before[i]);
        assert(hit[k] == before[i].id);
    }
    assert forall|x: u128| #[trigger] hit.contains(x) implies ids.contains(x) by {
        let k = hit.index_of(x);
        assert(hit[k] == kept[k].id);
        assert(kept.contains(kept[k]));
    }
}

/// Creating a target is refused exactly where the plan's targets would be exceeded; then
/// nothing changes and the error says how many there are and may be. Otherwise the target
/// joins the others.
pub proof fn law_creating_is_refused_over_the_quota(
    before: Seq<Target>,
    after: Seq<Target>,
    r: Result<Target, AppError>,
    new: NewTarget,
    source: WriteSource,
    max_targets: i64,
    now: Timestamp,
    id: u128,
)
    requires
        created(before, after, r, new, source, max_targets, now, id),
    ensures
        r is Err <==> before.len() + 1 > max_targets,
        r is Err ==> after == before,
        r matches Err(e) ==> (e matches AppError::QuotaExceeded { quota, current, limit, plan }
            && quota@ == "max_targets"@ && current == before.len() as i64 && limit == max_targets
            && plan@ == "free"@),
        r matches Ok(t) ==> {
            &&& after.len() == before.len() + 1
            &&& forall|i: int| 0 <= i < before.len() ==> #[trigger] after[i] == before[i]
            &&& after.last()@ == t@
            &&& t@ == made(new, source, now, id)
        },
{
    if let Ok(t) = r {
        assert(models(after).len() == after.len());
        assert(models(after).last() == t@);
        assert(models(after)[before.len() as int] == after.last()@);
        assert forall|i: int| 0 <= i < before.len() implies #[trigger] after[i] == before[i] by {
            assert(after.drop_last()[i] == after[i]);
        }
    }
}

/// Creating many is refused as a whole exactly where they would exceed the plan's targets.
pub proof fn law_creating_many_is_all_or_nothing(
    before: Seq<Target>,
    after: Seq<Target>,
    r: Result<Vec<Target>, AppError>,
    items: Seq<NewTarget>,
    source: WriteSource,
    max_targets: i64,
)
    requires
        bulk_created(before, after, r, items, source, max_targets),
    ensures
        r is Err <==> before.len() + items.len() > max_targets,
        r is Err ==> after == before,
        r matches Ok(out) ==> {
            &&& out@.len() == items.len()
            &&& after.len() == before.len() + items.len()
            &&& forall|i: int| 0 <= i < before.len() ==> #[trigger] after[i] == before[i]
            &&& forall|i: int|
                0 <= i < items.len() ==> after[before.len() + i]@ == (#[trigger] out@[i])@
                    && out@[i].name@ == items[i].name@ && out@[i].check@ == items[i].check@
                    && out@[i].enabled == items[i].enabled && out@[i].write_source == source
        },
{
    if let Ok(out) = r {
        assert forall|i: int| 0 <= i < before.len() implies #[trigger] after[i] == before[i] by {
            assert(after.take(before.len() as int)[i] == after[i]);
        }
        assert forall|i: int| 0 <= i < items.len() implies after[before.len() + i]@ == (
        #[trigger] out@[i])@ && out@[i].name@ == items[i].name@ && out@[i].check@
            == items[i].check@ && out@[i].enabled == items[i].enabled && out@[i].write_source
            == source by {
            let tail = after.skip(before.len() as int);
            assert(models(tail)[i] == tail[i]@);
            assert(models(out@)[i] == out@[i]@);
            assert(out@[i]@ == made(items[i], source, out@[i].created_at, out@[i].id));
            assert(out@[i]@.name == out@[i].name@);
        }
    }
}

/// An update reaches the target of that id and no other, and finds none where there is none;
/// deleting takes exactly the targets of that id, or of those ids.
pub proof fn law_an_id_names_its_target(
    before: Seq<Target>,
    after: Seq<Target>,
    r: Option<Target>,
    id: u128,
    update: TargetUpdate,
    source: WriteSource,
    now: Timestamp,
    ids: Seq<u128>,
    t: Target,
)
    ensures
        updated(before, after, r, id, update, source, now) && (forall|j: int|
            0 <= j < before.len() ==> (#[trigger] before[j]).id != id) ==> after == before && r
            is None,
        updated(before, after, r, id, update, source, now) && r is Some ==> exists|i: int|
            #![trigger before[i]]
            0 <= i < before.len() && before[i].id == id && after.len() == before.len()
                && after[i]@ == patched(before[i]@, update, source, now) && r->Some_0@ == after[i]@
                && forall|j: int|
                0 <= j < before.len() && j != i ==> #[trigger] after[j] == before[j],
        before.filter(|x: Target| !has_id(id)(x)).contains(t) <==> before.contains(t) && t.id != id,
        before.filter(|x: Target| !among(ids)(x)).contains(t) <==> before.contains(t)
            && !ids.contains(t.id),
        before.filter(among(ids)).contains(t) <==> before.contains(t) && ids.contains(t.id),
{
    lemma_index_where(before, has_id(id));
    lemma_filter_members(before, |x: Target| !has_id(id)(x));
    lemma_filter_members(before, |x: Target| !among(ids)(x));
    lemma_filter_members(before, among(ids));
    if updated(before, after, r, id, update, source, now) && r is Some {
        let i = index_where(before, has_id(id))->Some_0;
        let hit = before[i];
        assert(has_id(id)(hit));
    }
}

/// Reading a target finds the first of that id, and nothing where no target has it.
pub proof fn law_get_finds_by_id(s: Seq<Target>, id: u128)
    ensures
        match index_where(s, has_id(id)) {
            Some(i) => 0 <= i < s.len() && s[i].id == id && forall|j: int|
                0 <= j < i ==> (#[trigger] s[j]).id != id,
            None => forall|j: int| 0 <= j < s.len() ==> (#[trigger] s[j]).id != id,
        },
{
    lemma_index_where(s, has_id(id));
    match index_where(s, has_id(id)) {
        Some(i) => {
            assert forall|j: int| 0 <= j < i implies (#[trigger] s[j]).id != id by {
                assert(!has_id(id)(s[j]));
            }
        },
        None => {
            assert forall|j: int| 0 <= j < s.len() implies (#[trigger] s[j]).id != id by {
                assert(!has_id(id)(s[j]));
            }
        },
    }
}

/// Tags are counted over every target: one target more adds its own tags to the counts. With
/// a prefix only the tags that start with it count.
pub proof fn law_every_targets_tags_count(s: Seq<Target>, t: Target, p: Seq<char>, x: Seq<char>)
    ensures
        all_tags(Seq::empty()) == Seq::<Seq<char>>::empty(),
        all_tags(s.push(t)) == all_tags(s) + t.tags@.map_values(|y: String| y@),
        all_tags(s).filter(wanted(None)).contains(x) <==> all_tags(s).contains(x),
        all_tags(s).filter(wanted(Some(p))).contains(x) <==> all_tags(s).contains(x) && x.len()
            >= p.len() && x.take(p.len() as int) == p,
{
    assert(s.push(t).drop_last() =~= s);
    assert(views(t.tags@) =~= t.tags@.map_values(|y: String| y@));
    lemma_filter_members(all_tags(s), wanted(None));
    lemma_filter_members(all_tags(s), wanted(Some(p)));
}

/// Tag counts come most used first, and by name where they are used alike.
pub proof fn law_tags_come_most_used_first(s: Seq<(Seq<char>, nat)>, limit: nat)
    ensures
        ({
            let out = page_of(stable_sorted(s, tag_order()), 0, limit);
            &&& out.len() <= limit
            &&& forall|i: int, j: int|
                0 <= i < j < out.len() ==> (#[trigger] out[i]).1 >= (#[trigger] out[j]).1 && (
                out[i].1 == out[j].1 ==> str_le(out[i].0, out[j].0))
            &&& forall|i: int| 0 <= i < out.len() ==> s.contains(#[trigger] out[i])
        }),
{
    let le = tag_order();
    assert forall|a: (Seq<char>, nat), b: (Seq<char>, nat)| #[trigger] le(a, b) || le(b, a) by {
        lemma_str_le(a.0, b.0, b.0);
    }
    assert forall|a: (Seq<char>, nat), b: (Seq<char>, nat), c: (Seq<char>, nat)| #[trigger]
        le(a, b) && #[trigger] le(b, c) implies le(a, c) by {
        lemma_str_le(a.0, b.0, c.0);
    }
    let all = |e: (Seq<char>, nat)| true;
    lemma_everything_kept(s, all);
    lemma_listing(s, all, le, 0, limit);
    let out = page_of(stable_sorted(s, le), 0, limit);
    assert forall|i: int, j: int| 0 <= i < j < out.len() implies (#[trigger] out[i]).1 >= (
    #[trigger] out[j]).1 && (out[i].1 == out[j].1 ==> str_le(out[i].0, out[j].0)) by {
        assert(le(out[i], out[j]));
    }
}

proof fn lemma_everything_kept<T>(s: Seq<T>, p: spec_fn(T) -> bool)
    requires
        forall|x: T| #[trigger] p(x),
    ensures
        s.filter(p) == s,
    decreases s.len(),
{
    reveal(Seq::filter);
    if s.len() > 0 {
        lemma_everything_kept(s.drop_last(), p);
        assert(p(s.last()));
        assert(s.drop_last().push(s.last()) =~= s);
    }
}

/// The status walk visits every enabled target behind its cursor, by ascending id, and no
/// other.
pub proof fn law_the_status_walk_misses_nothing(
    s: Seq<Target>,
    after: Option<PublicTargetCursor>,
    limit: nat,
    t: Target,
)
    ensures
        ({
            let all = stable_sorted(s.filter(beyond(after)), id_order());
            let out = page_of(all, 0, limit);
            &&& all.contains(t) <==> s.contains(t) && t.enabled && (after matches Some(c) ==> t.id
                > c.target_id)
            &&& forall|i: int| 0 <= i < out.len() ==> #[trigger] out[i] == all[i]
            &&& forall|i: int, j: int|
                0 <= i < j < out.len() ==> (#[trigger] out[i]).id <= (#[trigger] out[j]).id
            &&& all.len() <= limit ==> out.len() == all.len()
        }),
{
    lemma_listing(s, beyond(after), id_order(), 0, limit);
    let all = stable_sorted(s.filter(beyond(after)), id_order());
    law_page(all, 0, limit, 0);
    let out = page_of(all, 0, limit);
    assert forall|i: int, j: int| 0 <= i < j < out.len() implies (#[trigger] out[i]).id <= (
    #[trigger] out[j]).id by {
        assert((id_order())(out[i], out[j]));
    }
}

/// Tags that are added stand behind those that are there, in the order given, and none is added
/// that is there already; tags that are removed leave the others in their order.
pub proof fn law_added_tags_stand_behind(
    old_tags: Seq<Seq<char>>,
    more: Seq<Seq<char>>,
    x: Seq<char>,
)
    ensures
        with_tags(old_tags, Seq::empty()) == old_tags,
        old_tags.is_prefix_of(with_tags(old_tags, more)),
        with_tags(old_tags, more).contains(x) ==> with_tags(old_tags, more.push(x)) == with_tags(
            old_tags,
            more,
        ),
        !with_tags(old_tags, more).contains(x) ==> with_tags(old_tags, more.push(x)) == with_tags(
            old_tags,
            more,
        ).push(x),
        more.contains(x) ==> without_tags(old_tags.push(x), more) == without_tags(old_tags, more),
        !more.contains(x) ==> without_tags(old_tags.push(x), more) == without_tags(
            old_tags,
            more,
        ).push(x),
    decreases more.len(),
{
    assert(more.push(x).drop_last() =~= more);
    lemma_filter_push(old_tags, x, |y: Seq<char>| !more.contains(y));
    if more.len() > 0 {
        law_added_tags_stand_behind(old_tags, more.drop_last(), x);
    }
}

/// A bulk change answers with the ids of the targets it names, in the order in which they are
/// stored.
pub proof fn law_a_bulk_change_answers_in_store_order(
    before: Seq<Target>,
    after: Seq<Target>,
    hit: Seq<u128>,
    ids: Seq<u128>,
    c: BulkChange,
    now: Timestamp,
)
    requires
        touched(before, after, hit, ids, c, now),
    ensures
        hit == before.filter(|t: Target| ids.contains(t.id)).map_values(|t: Target| t.id),
{
    assert(among(ids) =~= (|t: Target| ids.contains(t.id)));
}

/// Each of many targets that are created is made as its own item asks, in the order given.
pub proof fn law_many_are_made_as_their_items_ask(
    before: Seq<Target>,
    after: Seq<Target>,
    r: Result<Vec<Target>, AppError>,
    items: Seq<NewTarget>,
    source: WriteSource,
    max_targets: i64,
    i: int,
)
    requires
        bulk_created(before, after, r, items, source, max_targets),
        r is Ok,
        0 <= i < items.len(),
    ensures
        ({
            let (t, new) = (r->Ok_0@[i]@, items[i]);
            &&& t.name == new.name@ && t.check == new.check@ && t.alerts == new.alerts@
            &&& t.interval_secs == new.interval_secs && t.enabled == new.enabled
            &&& t.tags == views(new.tags@) && t.group_name == opt_view(new.group_name)
            &&& t.owner_user_id == new.owner_user_id && t.write_source == source
            &&& t.created_at == t.updated_at
        }),
{
    let out = r->Ok_0;
    assert(out@[i]@ == made(items[i], source, out@[i].created_at, out@[i].id));
}

} // verus!
