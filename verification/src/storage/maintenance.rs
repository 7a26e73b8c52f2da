//! Maintenance windows and the components they cover.

use vstd::prelude::*;

use crate::collections::{
    contains_id, derefs, index_where, lemma_filter_members, lemma_filter_take, lemma_index_where_is,
    lemma_index_where_none, lemma_listing, page_of, page_refs, position, retain, select_refs,
    sort_refs, stable_sorted,
};
use crate::domain::WriteSource;
use crate::ids::{fresh_id, OrgId};
use crate::strings::{opt_clone, owned};
use crate::time::{now, Timestamp};

verus! {

/// Which windows a list holds.
#[derive(Debug, Clone, Copy, PartialEq, Eq, Structural)]
pub enum MaintenanceFilter {
    Active,
    Upcoming,
    Past,
    All,
}

impl Default for MaintenanceFilter {
    fn default() -> (r: Self)
        ensures
            r == MaintenanceFilter::All,
    {
        MaintenanceFilter::All
    }
}

/// One page of a list.
#[derive(Debug, Clone, Copy, PartialEq, Eq, Structural)]
pub struct MaintenancePage {
    pub limit: u32,
    pub offset: u32,
}

/// A list request.
#[derive(Debug, Clone, Copy, PartialEq, Eq, Structural)]
pub struct MaintenanceListQuery {
    pub filter: MaintenanceFilter,
    pub limit: u32,
    pub offset: u32,
}

impl Default for MaintenanceListQuery {
    fn default() -> (r: Self)
        ensures
            r == (MaintenanceListQuery { filter: MaintenanceFilter::All, limit: 0, offset: 0 }),
    {
        MaintenanceListQuery { filter: MaintenanceFilter::All, limit: 0, offset: 0 }
    }
}

/// A maintenance window.
#[derive(Debug)]
pub struct MaintenanceWindow {
    pub id: u128,
    pub title: String,
    pub description: Option<String>,
    pub starts_at: Timestamp,
    pub ends_at: Timestamp,
    pub component_ids: Vec<u128>,
    pub write_source: WriteSource,
    pub created_at: Timestamp,
    pub updated_at: Timestamp,
}

/// What a window says.
pub ghost struct WindowView {
    pub id: u128,
    pub title: String,
    pub description: Option<String>,
    pub starts_at: Timestamp,
    pub ends_at: Timestamp,
    pub component_ids: Seq<u128>,
    pub write_source: WriteSource,
    pub created_at: Timestamp,
    pub updated_at: Timestamp,
}

impl View for MaintenanceWindow {
    type V = WindowView;

    open spec fn view(&self) -> WindowView {
        WindowView {
            id: self.id,
            title: self.title,
            description: self.description,
            starts_at: self.starts_at,
            ends_at: self.ends_at,
            component_ids: self.component_ids@,
            write_source: self.write_source,
            created_at: self.created_at,
            updated_at: self.updated_at,
        }
    }
}

fn clone_ids(v: &Vec<u128>) -> (out: Vec<u128>)
    ensures
        out@ == v@,
{
    crate::collections::clone_all(v)
}

impl Clone for MaintenanceWindow {
    fn clone(&self) -> (r: Self)
        ensures
            r@ == self@,
    {
        MaintenanceWindow {
            id: self.id,
            title: self.title.clone(),
            description: opt_clone(&self.description),
            starts_at: self.starts_at,
            ends_at: self.ends_at,
            component_ids: clone_ids(&self.component_ids),
            write_source: self.write_source,
            created_at: self.created_at,
            updated_at: self.updated_at,
        }
    }
}

/// What the windows of a list say.
pub open spec fn models(s: Seq<MaintenanceWindow>) -> Seq<WindowView> {
    s.map_values(|w: MaintenanceWindow| w@)
}

/// A window to be made.
#[derive(Debug)]
pub struct NewMaintenanceWindow {
    pub title: String,
    pub description: Option<String>,
    pub starts_at: Timestamp,
    pub ends_at: Timestamp,
    pub component_ids: Vec<u128>,
}

/// A change of a window: what is `None` stays as it is.
#[derive(Debug)]
pub struct MaintenanceWindowUpdate {
    pub title: Option<String>,
    pub description: Option<String>,
    pub starts_at: Option<Timestamp>,
    pub ends_at: Option<Timestamp>,
    pub component_ids: Option<Vec<u128>>,
}

impl Default for MaintenanceWindowUpdate {
    fn default() -> (r: Self)
        ensures
            r.title is None,
            r.description is None,
            r.starts_at is None,
            r.ends_at is None,
            r.component_ids is None,
    {
        MaintenanceWindowUpdate {
            title: None,
            description: None,
            starts_at: None,
            ends_at: None,
            component_ids: None,
        }
    }
}

/// A window's row without its components.
#[derive(Debug)]
pub struct MaintenanceRow {
    pub id: u128,
    pub title: String,
    pub description: Option<String>,
    pub starts_at: Timestamp,
    pub ends_at: Timestamp,
    pub write_source: String,
    pub created_at: Timestamp,
    pub updated_at: Timestamp,
}

impl MaintenanceRow {
    /// The window of a row and its components.
    pub fn into_window(self, component_ids: Vec<u128>) -> (r: MaintenanceWindow)
        ensures
            r == (MaintenanceWindow {
                id: self.id,
                title: self.title,
                description: self.description,
                starts_at: self.starts_at,
                ends_at: self.ends_at,
                component_ids,
                write_source: WriteSource::of_name(self.write_source@),
                created_at: self.created_at,
                updated_at: self.updated_at,
            }),
    {
        let write_source = WriteSource::from_db(self.write_source.as_str());
        MaintenanceWindow {
            id: self.id,
            title: self.title,
            description: self.description,
            starts_at: self.starts_at,
            ends_at: self.ends_at,
            component_ids,
            write_source,
            created_at: self.created_at,
            updated_at: self.updated_at,
        }
    }
}

/// The condition of a filter, where `$1` is the time.
pub open spec fn clause_of(filter: MaintenanceFilter) -> Seq<char> {
    match filter {
        MaintenanceFilter::Active => "starts_at <= $1 AND ends_at > $1"@,
        MaintenanceFilter::Upcoming => "starts_at > $1"@,
        MaintenanceFilter::Past => "ends_at <= $1"@,
        MaintenanceFilter::All => "$1 IS NOT NULL OR $1 IS NULL"@,
    }
}

/// The condition of a filter, where `$1` is the time.
pub fn filter_clause(filter: MaintenanceFilter) -> (r: &'static str)
    ensures
        r@ == clause_of(filter),
        match filter {
            MaintenanceFilter::Active => r@ == "starts_at <= $1 AND ends_at > $1"@,
            MaintenanceFilter::Upcoming => r@ == "starts_at > $1"@,
            MaintenanceFilter::Past => r@ == "ends_at <= $1"@,
            MaintenanceFilter::All => r@ == "$1 IS NOT NULL OR $1 IS NULL"@,
        },
{
    match filter {
        MaintenanceFilter::Active => "starts_at <= $1 AND ends_at > $1",
        MaintenanceFilter::Upcoming => "starts_at > $1",
        MaintenanceFilter::Past => "ends_at <= $1",
        MaintenanceFilter::All => "$1 IS NOT NULL OR $1 IS NULL",
    }
}

/// The list statement of a filter: `$1` is the time, `$2` the page size, `$3` the offset
/// and `$4` the org.
pub fn list_sql(filter: MaintenanceFilter) -> (r: String)
    ensures
        r@
            == "SELECT id, title, description, starts_at, ends_at, write_source, created_at, updated_at\n           FROM maintenance_windows\n           WHERE org_id = $4 AND ("@
            + clause_of(filter) + ")\n           ORDER BY starts_at DESC\n           LIMIT $2 OFFSET $3"@,
{
    let mut s = owned(
        "SELECT id, title, description, starts_at, ends_at, write_source, created_at, updated_at\n           FROM maintenance_windows\n           WHERE org_id = $4 AND (",
    );
    s.append(filter_clause(filter));
    s.append(")\n           ORDER BY starts_at DESC\n           LIMIT $2 OFFSET $3");
    s
}

/// The window passes the filter at `now`.
pub open spec fn matching(filter: MaintenanceFilter, now: Timestamp) -> spec_fn(
    MaintenanceWindow,
) -> bool {
    |w: MaintenanceWindow|
        match filter {
            MaintenanceFilter::Active => w.starts_at.nanos <= now.nanos && w.ends_at.nanos
                > now.nanos,
            MaintenanceFilter::Upcoming => w.starts_at.nanos > now.nanos,
            MaintenanceFilter::Past => w.ends_at.nanos <= now.nanos,
            MaintenanceFilter::All => true,
        }
}

/// Whether a window passes the filter at `now`.
pub fn match_filter(w: &MaintenanceWindow, filter: MaintenanceFilter, now: Timestamp) -> (r: bool)
    ensures
        r == matching(filter, now)(*w),
{
    match filter {
        MaintenanceFilter::Active => w.starts_at.nanos <= now.nanos && w.ends_at.nanos > now.nanos,
        MaintenanceFilter::Upcoming => w.starts_at.nanos > now.nanos,
        MaintenanceFilter::Past => w.ends_at.nanos <= now.nanos,
        MaintenanceFilter::All => true,
    }
}

/// Latest start first.
pub open spec fn latest_first() -> spec_fn(MaintenanceWindow, MaintenanceWindow) -> bool {
    |a: MaintenanceWindow, b: MaintenanceWindow| a.starts_at.nanos >= b.starts_at.nanos
}

/// The window has this id.
pub open spec fn has_id(id: u128) -> spec_fn(MaintenanceWindow) -> bool {
    |w: MaintenanceWindow| w.id == id
}

/// The window that `new` becomes.
pub open spec fn made(
    new: NewMaintenanceWindow,
    source: WriteSource,
    now: Timestamp,
    id: u128,
) -> WindowView {
    WindowView {
        id,
        title: new.title,
        description: new.description,
        starts_at: new.starts_at,
        ends_at: new.ends_at,
        component_ids: new.component_ids@,
        write_source: source,
        created_at: now,
        updated_at: now,
    }
}

/// What creating a window does and returns.
pub open spec fn created(
    before: Seq<MaintenanceWindow>,
    after: Seq<MaintenanceWindow>,
    r: MaintenanceWindow,
    new: NewMaintenanceWindow,
    source: WriteSource,
    now: Timestamp,
    id: u128,
) -> bool {
    &&& r@ == made(new, source, now, id)
    &&& after.len() == before.len() + 1
    &&& after.drop_last() == before
    &&& after.last()@ == r@
}

/// A window after a change.
pub open spec fn patched(
    w: WindowView,
    update: MaintenanceWindowUpdate,
    source: WriteSource,
    now: Timestamp,
) -> WindowView {
    WindowView {
        title: match update.title {
            Some(t) => t,
            None => w.title,
        },
        description: match update.description {
            Some(d) => Some(d),
            None => w.description,
        },
        starts_at: match update.starts_at {
            Some(s) => s,
            None => w.starts_at,
        },
        ends_at: match update.ends_at {
            Some(e) => e,
            None => w.ends_at,
        },
        component_ids: match update.component_ids {
            Some(c) => c@,
            None => w.component_ids,
        },
        write_source: source,
        updated_at: now,
        ..w
    }
}

/// What changing a window does and returns.
pub open spec fn updated(
    before: Seq<MaintenanceWindow>,
    after: Seq<MaintenanceWindow>,
    r: Option<MaintenanceWindow>,
    id: u128,
    update: MaintenanceWindowUpdate,
    source: WriteSource,
    now: Timestamp,
) -> bool {
    match index_where(before, has_id(id)) {
        None => after == before && r is None,
        Some(i) => {
            &&& after.len() == before.len()
            &&& forall|j: int| 0 <= j < before.len() && j != i ==> #[trigger] after[j] == before[j]
            &&& after[i]@ == patched(before[i]@, update, source, now)
            &&& r matches Some(w)
            &&& w@ == after[i]@
        },
    }
}

/// One page of the windows that pass a filter at `now`.
pub open spec fn listing(s: Seq<MaintenanceWindow>, q: MaintenanceListQuery, now: Timestamp) -> Seq<
    MaintenanceWindow,
> {
    page_of(
        stable_sorted(s.filter(matching(q.filter, now)), latest_first()),
        q.offset as nat,
        q.limit as nat,
    )
}

/// The list holds one page of the windows that pass the filter at `now`.
pub open spec fn lists(
    out: Seq<MaintenanceWindow>,
    s: Seq<MaintenanceWindow>,
    q: MaintenanceListQuery,
    now: Timestamp,
) -> bool {
    models(out) == models(listing(s, q, now))
}

/// What an update does with the components that a window's row links to.
#[derive(Debug)]
pub enum ComponentStep {
    /// The links stay.
    Keep,
    /// The links go, and none takes their place.
    Clear,
    /// The links go, and these take their place.
    Replace(Vec<u128>),
}

/// What an update does with a window's links: an update that names no components keeps
/// them, one that names an empty list clears them.
pub fn component_change(ids: &Option<Vec<u128>>) -> (r: ComponentStep)
    ensures
        match *ids {
            None => r is Keep,
            Some(v) if v@.len() == 0 => r is Clear,
            Some(v) => r matches ComponentStep::Replace(w) && w@ == v@,
        },
{
    match ids {
        None => ComponentStep::Keep,
        Some(v) => {
            if v.len() == 0 {
                ComponentStep::Clear
            } else {
                ComponentStep::Replace(clone_ids(v))
            }
        },
    }
}

/// Windows in memory, of one org, and the targets that a component may name.
#[derive(Debug)]
pub struct InMemoryMaintenanceStore {
    windows: Vec<MaintenanceWindow>,
    known_targets: Vec<u128>,
}

impl View for InMemoryMaintenanceStore {
    type V = Seq<MaintenanceWindow>;

    closed spec fn view(&self) -> Seq<MaintenanceWindow> {
        self.windows@
    }
}

impl InMemoryMaintenanceStore {
    /// The targets that a component may name.
    pub closed spec fn known(self) -> Set<u128> {
        self.known_targets@.to_set()
    }

    pub fn new() -> (r: Self)
        ensures
            r@ == Seq::<MaintenanceWindow>::empty(),
            r.known() == Set::<u128>::empty(),
    {
        let r = InMemoryMaintenanceStore { windows: Vec::new(), known_targets: Vec::new() };
        assert(r.known() =~= Set::<u128>::empty());
        r
    }

    /// A store that knows these targets.
    pub fn with_targets(targets: Vec<u128>) -> (r: Self)
        ensures
            r@ == Seq::<MaintenanceWindow>::empty(),
            r.known() == targets@.to_set(),
    {
        InMemoryMaintenanceStore { windows: Vec::new(), known_targets: targets }
    }

    pub fn register_target(&mut self, id: u128)
        ensures
            final(self)@ == old(self)@,
            final(self).known() == old(self).known().insert(id),
    {
        let ghost before = self.known_targets@;
        self.known_targets.push(id);
        proof {
            crate::collections::lemma_push_contains(before, id);
            assert(self.known_targets@.to_set() =~= before.to_set().insert(id)) by {
                assert forall|x: u128| self.known_targets@.to_set().contains(x)
                    <==> before.to_set().insert(id).contains(x) by {
                    assert(before.push(id).contains(x) <==> before.contains(x) || x == id);
                }
            }
        }
    }

    pub fn len(&self) -> (r: usize)
        ensures
            r == self@.len(),
    {
        self.windows.len()
    }

    pub fn is_empty(&self) -> (r: bool)
        ensures
            r == (self@.len() == 0),
    {
        self.windows.len() == 0
    }

    fn find(&self, id: u128) -> (r: Option<usize>)
        ensures
            match r {
                Some(i) => index_where(self@, has_id(id)) == Some(i as int) && i < self@.len(),
                None => index_where(self@, has_id(id)) is None,
            },
    {
        let same = |w: &MaintenanceWindow| -> (b: bool)
            ensures
                b == (w.id == id),
        { w.id == id };
        position(&self.windows, same, Ghost(has_id(id)))
    }

    /// Makes a window at `now` under the id `id`.
    pub fn create_at(
        &mut self,
        _org: OrgId,
        new: NewMaintenanceWindow,
        source: WriteSource,
        now: Timestamp,
        id: u128,
    ) -> (r: MaintenanceWindow)
        ensures
            created(old(self)@, final(self)@, r, new, source, now, id),
            final(self).known() == old(self).known(),
    {
        let ghost before = self.windows@;
        let mw = MaintenanceWindow {
            id,
            title: new.title,
            description: new.description,
            starts_at: new.starts_at,
            ends_at: new.ends_at,
            component_ids: new.component_ids,
            write_source: source,
            created_at: now,
            updated_at: now,
        };
        self.windows.push(mw.clone());
        assert(self.windows@.drop_last() =~= before);
        mw
    }

    /// Makes a window now.
    pub fn create(&mut self, org: OrgId, new: NewMaintenanceWindow, source: WriteSource) -> (r:
        MaintenanceWindow)
        ensures
            exists|t: Timestamp, id: u128|
                t.wf() && #[trigger] created(old(self)@, final(self)@, r, new, source, t, id),
            final(self).known() == old(self).known(),
    {
        let t = now();
        let id: u128 = fresh_id();
        self.create_at(org, new, source, t, id)
    }

    /// One page of the windows that pass the filter at `now`, latest start first.
    pub fn list_at(&self, _org: OrgId, q: MaintenanceListQuery, now: Timestamp) -> (out: Vec<
        MaintenanceWindow,
    >)
        ensures
            lists(out@, self@, q, now),
    {
        let filter = q.filter;
        let hit = |w: &MaintenanceWindow| -> (b: bool)
            ensures
                b == matching(filter, now)(*w),
        { match_filter(w, filter, now) };
        let hits = select_refs(&self.windows, hit, Ghost(matching(filter, now)));
        let le = |a: &MaintenanceWindow, b: &MaintenanceWindow| -> (r: bool)
            ensures
                r == (a.starts_at.nanos >= b.starts_at.nanos),
        { a.starts_at.nanos >= b.starts_at.nanos };
        let sorted = sort_refs(hits, le, Ghost(latest_first()));
        let paged = page_refs(sorted, q.offset as usize, q.limit as usize);
        let ghost all = derefs(paged@);
        let mut out: Vec<MaintenanceWindow> = Vec::new();
        let mut i: usize = 0;
        while i < paged.len()
            invariant
                i <= paged@.len(),
                all == derefs(paged@),
                out@.len() == i,
                forall|k: int| 0 <= k < i ==> (#[trigger] out@[k])@ == all[k]@,
            decreases paged.len() - i,
        {
            assert(all[i as int] == *paged@[i as int]);
            out.push(paged[i].clone());
            i += 1;
        }
        assert(models(out@) =~= models(all));
        out
    }

    /// One page of the windows that pass the filter now.
    pub fn list(&self, org: OrgId, q: MaintenanceListQuery) -> (out: Vec<MaintenanceWindow>)
        ensures
            exists|t: Timestamp| t.wf() && #[trigger] lists(out@, self@, q, t),
    {
        let t = now();
        self.list_at(org, q, t)
    }

    /// The window with this id.
    pub fn get(&self, _org: OrgId, id: u128) -> (r: Option<MaintenanceWindow>)
        ensures
            match index_where(self@, has_id(id)) {
                Some(i) => r matches Some(w) && w@ == self@[i]@,
                None => r is None,
            },
    {
        match self.find(id) {
            Some(i) => Some(self.windows[i].clone()),
            None => None,
        }
    }

    /// Changes a window at `now`.
    pub fn update_at(
        &mut self,
        _org: OrgId,
        id: u128,
        update: MaintenanceWindowUpdate,
        source: WriteSource,
        now: Timestamp,
    ) -> (r: Option<MaintenanceWindow>)
        ensures
            updated(old(self)@, final(self)@, r, id, update, source, now),
            final(self).known() == old(self).known(),
    {
        let Some(i) = self.find(id) else {
            return None;
        };
        let mut w = self.windows[i].clone();
        if let Some(t) = update.title {
            w.title = t;
        }
        if let Some(d) = update.description {
            w.description = Some(d);
        }
        if let Some(s) = update.starts_at {
            w.starts_at = s;
        }
        if let Some(e) = update.ends_at {
            w.ends_at = e;
        }
        if let Some(c) = update.component_ids {
            w.component_ids = c;
        }
        w.write_source = source;
        w.updated_at = now;
        let shown = w.clone();
        self.windows[i] = w;
        Some(shown)
    }

    /// Changes a window now.
    pub fn update(
        &mut self,
        org: OrgId,
        id: u128,
        update: MaintenanceWindowUpdate,
        source: WriteSource,
    ) -> (r: Option<MaintenanceWindow>)
        ensures
            exists|t: Timestamp|
                t.wf() && #[trigger] updated(
                    old(self)@,
                    final(self)@,
                    r,
                    id,
                    update,
                    source,
                    t,
                ),
            final(self).known() == old(self).known(),
    {
        let t = now();
        self.update_at(org, id, update, source, t)
    }

    /// Deletes the window with this id.
    pub fn delete(&mut self, _org: OrgId, id: u128) -> (r: bool)
        ensures
            final(self)@ == old(self)@.filter(|w: MaintenanceWindow| !has_id(id)(w)),
            r == (final(self)@.len() < old(self)@.len()),
            final(self).known() == old(self).known(),
    {
        let before: usize = self.windows.len();
        let keep = |w: &MaintenanceWindow| -> (b: bool)
            ensures
                b == !(w.id == id),
        { w.id != id };
        retain(&mut self.windows, keep, Ghost(|w: MaintenanceWindow| !has_id(id)(w)));
        self.windows.len() < before
    }

    /// Those of `ids` that are known targets, in the order given.
    pub fn existing_target_ids(&self, _org: OrgId, ids: &Vec<u128>) -> (out: Vec<u128>)
        ensures
            out@ == ids@.filter(|id: u128| self.known().contains(id)),
    {
        let ghost p = |id: u128| self.known().contains(id);
        let mut out: Vec<u128> = Vec::new();
        let mut i: usize = 0;
        assert(ids@.take(0).filter(p) =~= Seq::<u128>::empty()) by {
            reveal(Seq::filter);
        }
        while i < ids.len()
            invariant
                i <= ids@.len(),
                p == (|id: u128| self.known().contains(id)),
                out@ == ids@.take(i as int).filter(p),
            decreases ids.len() - i,
        {
            proof {
                lemma_filter_take(ids@, i as int, p);
            }
            if contains_id(&self.known_targets, ids[i]) {
                out.push(ids[i]);
            }
            i += 1;
        }
        assert(ids@.take(i as int) =~= ids@);
        out
    }
}

/// A window that ends after it starts is at any time exactly one of upcoming, active
/// and past.
pub proof fn law_filters_partition_time(w: MaintenanceWindow, now: Timestamp)
    requires
        w.starts_at.nanos <= w.ends_at.nanos,
    ensures
        matching(MaintenanceFilter::All, now)(w),
        matching(MaintenanceFilter::Active, now)(w) || matching(MaintenanceFilter::Upcoming, now)(w)
            || matching(MaintenanceFilter::Past, now)(w),
        !(matching(MaintenanceFilter::Active, now)(w) && matching(
            MaintenanceFilter::Upcoming,
            now,
        )(w)),
        !(matching(MaintenanceFilter::Active, now)(w) && matching(MaintenanceFilter::Past, now)(w)),
        !(matching(MaintenanceFilter::Upcoming, now)(w) && matching(MaintenanceFilter::Past, now)(
            w,
        )),
{
}

/// An update never clears a description, and replaces the components only where it
/// names some.
pub proof fn law_update_keeps_what_it_leaves_out(
    w: WindowView,
    update: MaintenanceWindowUpdate,
    source: WriteSource,
    now: Timestamp,
)
    ensures
        w.description is Some ==> patched(w, update, source, now).description is Some,
        update.component_ids is None ==> patched(w, update, source, now).component_ids
            == w.component_ids,
        update.component_ids matches Some(c) ==> patched(w, update, source, now).component_ids
            == c@,
        patched(w, update, source, now).created_at == w.created_at,
{
}

/// A page of the list holds windows that at `now` are under way, still to come or over, as was
/// asked, and before paging all of those; the latest to start comes first.
pub proof fn law_the_list_holds_what_is_asked_for(
    s: Seq<MaintenanceWindow>,
    q: MaintenanceListQuery,
    now: Timestamp,
    x: MaintenanceWindow,
)
    ensures
        ({
            let all = stable_sorted(s.filter(matching(q.filter, now)), latest_first());
            let out = listing(s, q, now);
            &&& all.contains(x) <==> s.contains(x) && match q.filter {
                MaintenanceFilter::Active => x.starts_at.nanos <= now.nanos && now.nanos
                    < x.ends_at.nanos,
                MaintenanceFilter::Upcoming => now.nanos < x.starts_at.nanos,
                MaintenanceFilter::Past => x.ends_at.nanos <= now.nanos,
                MaintenanceFilter::All => true,
            }
            &&& out.len() <= q.limit
            &&& all.len() >= q.offset + q.limit ==> out.len() == q.limit
            &&& forall|k: int| 0 <= k < out.len() ==> #[trigger] out[k] == all[q.offset + k]
            &&& forall|i: int, j: int|
                0 <= i < j < out.len() ==> (#[trigger] out[i]).starts_at.nanos >= (
                #[trigger] out[j]).starts_at.nanos
        }),
{
    let le = latest_first();
    lemma_listing(s, matching(q.filter, now), le, q.offset as nat, q.limit as nat);
    let out = listing(s, q, now);
    assert forall|i: int, j: int| 0 <= i < j < out.len() implies (
    #[trigger] out[i]).starts_at.nanos >= (#[trigger] out[j]).starts_at.nanos by {
        assert(le(out[i], out[j]));
    }
}

/// A window is made as asked and stands behind what was there.
pub proof fn law_a_window_is_made_as_asked(
    before: Seq<MaintenanceWindow>,
    after: Seq<MaintenanceWindow>,
    r: MaintenanceWindow,
    new: NewMaintenanceWindow,
    source: WriteSource,
    now: Timestamp,
    id: u128,
)
    requires
        created(before, after, r, new, source, now, id),
    ensures
        after == before.push(after.last()),
        after.last()@ == r@,
        r.id == id && r.title == new.title && r.description == new.description,
        r.starts_at == new.starts_at && r.ends_at == new.ends_at,
        r.component_ids@ == new.component_ids@,
        r.write_source == source && r.created_at == now && r.updated_at == now,
{
    assert(after =~= before.push(after.last()));
    let v = r@;
    assert(v.id == id && v.title == new.title && v.description == new.description);
    assert(v.starts_at == new.starts_at && v.ends_at == new.ends_at);
    assert(v.write_source == source && v.created_at == now && v.updated_at == now);
}

/// A change reaches the window with the id and no other: what it names is set, what it does
/// not name stays.
pub proof fn law_an_update_changes_what_it_names(
    before: Seq<MaintenanceWindow>,
    after: Seq<MaintenanceWindow>,
    r: Option<MaintenanceWindow>,
    id: u128,
    update: MaintenanceWindowUpdate,
    source: WriteSource,
    now: Timestamp,
    i: int,
)
    requires
        updated(before, after, r, id, update, source, now),
        0 <= i <= before.len(),
        forall|j: int| 0 <= j < i ==> (#[trigger] before[j]).id != id,
        i < before.len() ==> before[i].id == id,
    ensures
        i == before.len() ==> r is None && after == before,
        i < before.len() ==> {
            let (a, b) = (after[i], before[i]);
            &&& r matches Some(w)
            &&& w@ == a@
            &&& after.len() == before.len()
            &&& a.id == id && a.created_at == b.created_at
            &&& a.updated_at == now && a.write_source == source
            &&& update.title is None ==> a.title == b.title
            &&& update.title matches Some(t) ==> a.title == t
            &&& update.description is None ==> a.description == b.description
            &&& update.description matches Some(d) ==> a.description == Some(d)
            &&& update.starts_at is None ==> a.starts_at == b.starts_at
            &&& update.starts_at matches Some(t) ==> a.starts_at == t
            &&& update.ends_at is None ==> a.ends_at == b.ends_at
            &&& update.ends_at matches Some(t) ==> a.ends_at == t
            &&& update.component_ids is None ==> a.component_ids@ == b.component_ids@
            &&& update.component_ids matches Some(c) ==> a.component_ids@ == c@
            &&& forall|j: int|
                0 <= j < before.len() && j != i ==> #[trigger] after[j] == before[j]
        },
{
    if i < before.len() {
        lemma_index_where_is(before, has_id(id), i);
        let (a, b) = (after[i]@, before[i]@);
        assert(a.id == b.id && a.created_at == b.created_at && a.updated_at == now);
        assert(a.write_source == source);
        assert(a.title == after[i].title && b.title == before[i].title);
        assert(a.description == after[i].description && b.description == before[i].description);
        assert(a.starts_at == after[i].starts_at && b.starts_at == before[i].starts_at);
        assert(a.ends_at == after[i].ends_at && b.ends_at == before[i].ends_at);
    } else {
        lemma_index_where_none(before, has_id(id));
    }
}

/// A window is found by its id; deleting takes that and leaves the rest.
pub proof fn law_a_window_is_found_by_id(
    s: Seq<MaintenanceWindow>,
    id: u128,
    i: int,
    x: MaintenanceWindow,
)
    requires
        0 <= i <= s.len(),
        forall|j: int| 0 <= j < i ==> (#[trigger] s[j]).id != id,
        i < s.len() ==> s[i].id == id,
    ensures
        index_where(s, has_id(id)) == (if i < s.len() {
            Some(i)
        } else {
            None
        }),
        s.filter(|w: MaintenanceWindow| !has_id(id)(w)).contains(x) <==> s.contains(x) && x.id
            != id,
{
    if i < s.len() {
        lemma_index_where_is(s, has_id(id), i);
    } else {
        lemma_index_where_none(s, has_id(id));
    }
    lemma_filter_members(s, |w: MaintenanceWindow| !has_id(id)(w));
}

} // verus!
