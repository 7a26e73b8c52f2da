//! Targets in the database: quotas, list parameters, rows and bulk columns.

use vstd::prelude::*;

use crate::error::AppError;
use crate::incident::clone_strings;
use crate::storage::traits::{TargetFilter, TargetSort};
use crate::strings::{non_blank, opt_clone, opt_view, owned, trim_non_blank};
use crate::target::{NewTarget, TagCount, TargetsSummary};
use crate::time::Timestamp;

verus! {

/// How a target appears on status pages.
#[derive(Debug)]
pub struct PublicListing {
    pub status: bool,
    pub name: Option<String>,
    pub description: Option<String>,
    pub group: Option<String>,
    pub sort_order: i32,
}

impl Clone for PublicListing {
    fn clone(&self) -> (r: Self)
        ensures
            r == *self,
    {
        PublicListing {
            status: self.status,
            name: opt_clone(&self.name),
            description: opt_clone(&self.description),
            group: opt_clone(&self.group),
            sort_order: self.sort_order,
        }
    }
}

/// A target's row, its check opened and its JSON columns as text.
#[derive(Debug)]
pub struct TargetRow {
    pub id: u128,
    pub name: String,
    pub check: String,
    pub interval_secs: i32,
    pub enabled: bool,
    pub tags: Vec<String>,
    pub alerts: String,
    pub group_name: Option<String>,
    pub owner_user_id: Option<u128>,
    pub listing: PublicListing,
    pub created_at: Timestamp,
    pub updated_at: Timestamp,
}

/// A stored target.
#[derive(Debug)]
pub struct StoredTarget {
    pub id: u128,
    pub name: String,
    pub check: String,
    pub interval_secs: u64,
    pub enabled: bool,
    pub tags: Vec<String>,
    pub alerts: String,
    pub group_name: Option<String>,
    pub owner_user_id: Option<u128>,
    pub listing: PublicListing,
    pub created_at: Timestamp,
    pub updated_at: Timestamp,
}

/// The target of a row. A negative interval reads as none.
pub fn decode_target_row(row: TargetRow) -> (r: StoredTarget)
    ensures
        r == (StoredTarget {
            id: row.id,
            name: row.name,
            check: row.check,
            interval_secs: if row.interval_secs < 0 {
                0
            } else {
                row.interval_secs as u64
            },
            enabled: row.enabled,
            tags: row.tags,
            alerts: row.alerts,
            group_name: row.group_name,
            owner_user_id: row.owner_user_id,
            listing: row.listing,
            created_at: row.created_at,
            updated_at: row.updated_at,
        }),
{
    let interval_secs: u64 = if row.interval_secs < 0 {
        0
    } else {
        row.interval_secs as u64
    };
    StoredTarget {
        id: row.id,
        name: row.name,
        check: row.check,
        interval_secs,
        enabled: row.enabled,
        tags: row.tags,
        alerts: row.alerts,
        group_name: row.group_name,
        owner_user_id: row.owner_user_id,
        listing: row.listing,
        created_at: row.created_at,
        updated_at: row.updated_at,
    }
}

/// The order clause of a list.
pub open spec fn order_text(sort: TargetSort) -> Seq<char> {
    match sort {
        TargetSort::RecentActivity => "ORDER BY updated_at DESC"@,
        TargetSort::Name => "ORDER BY name ASC"@,
        TargetSort::Created => "ORDER BY created_at ASC"@,
    }
}

/// The order clause of a list.
pub fn order_clause(sort: TargetSort) -> (r: &'static str)
    ensures
        r@ == order_text(sort),
        match sort {
            TargetSort::RecentActivity => r@ == "ORDER BY updated_at DESC"@,
            TargetSort::Name => r@ == "ORDER BY name ASC"@,
            TargetSort::Created => r@ == "ORDER BY created_at ASC"@,
        },
{
    match sort {
        TargetSort::RecentActivity => "ORDER BY updated_at DESC",
        TargetSort::Name => "ORDER BY name ASC",
        TargetSort::Created => "ORDER BY created_at ASC",
    }
}

/// What a list statement binds.
#[derive(Debug)]
pub struct ListParams {
    pub limit: i64,
    pub offset: i64,
    /// The pattern that a name must match.
    pub q_like: Option<String>,
    pub group: Option<String>,
}

/// The pattern of a name filter.
pub open spec fn like_of(q: Option<Seq<char>>) -> Option<Seq<char>> {
    match non_blank(q) {
        Some(s) => Some("%"@ + s + "%"@),
        None => None,
    }
}

/// What a list statement binds for a filter.
pub fn list_params(filter: &TargetFilter) -> (r: ListParams)
    ensures
        r.limit == (match filter.limit {
            None => 100int,
            Some(n) if n < 10_000 => n as int,
            Some(_) => 10_000int,
        }),
        r.offset == filter.offset as i64,
        opt_view(r.q_like) == like_of(opt_view(filter.q)),
        r.q_like is Some <==> non_blank(opt_view(filter.q)) is Some,
        r.q_like matches Some(p) ==> p@ == "%"@ + non_blank(opt_view(filter.q))->Some_0 + "%"@,
        opt_view(r.group) == non_blank(opt_view(filter.group)),
{
    let limit: i64 = match filter.limit {
        None => 100,
        Some(n) => if n < 10_000 {
            n as i64
        } else {
            10_000
        },
    };
    let q_like = match trim_non_blank(&filter.q) {
        Some(s) => {
            let mut p = owned("%");
            p.append(s.as_str());
            p.append("%");
            Some(p)
        },
        None => None,
    };
    ListParams { limit, offset: filter.offset as i64, q_like, group: trim_non_blank(&filter.group) }
}

/// The error where a plan's targets are used up.
pub open spec fn is_target_quota(e: AppError, current: i64, max_targets: i64) -> bool {
    e.is_quota("max_targets"@, current, max_targets, "free"@)
}

/// Whether the plan has room for one target more.
pub fn create_room(current: i64, max_targets: i64) -> (r: Result<(), AppError>)
    ensures
        match r {
            Ok(_) => current + 1 <= max_targets,
            Err(e) => current + 1 > max_targets && is_target_quota(e, current, max_targets),
        },
        r matches Err(e) ==> (e matches AppError::QuotaExceeded { quota, current: c, limit, plan }
            && quota@ == "max_targets"@ && c == current && limit == max_targets && plan@ == "free"@),
{
    if current as i128 + 1 > max_targets as i128 {
        Err(AppError::quota_exceeded("max_targets", current, max_targets, "free"))
    } else {
        Ok(())
    }
}

/// Whether the plan has room for all of `more` targets.
pub fn bulk_room(current: i64, more: usize, max_targets: i64) -> (r: Result<(), AppError>)
    ensures
        match r {
            Ok(_) => current + more <= max_targets,
            Err(e) => current + more > max_targets && is_target_quota(e, current, max_targets),
        },
        r matches Err(e) ==> (e matches AppError::QuotaExceeded { quota, current: c, limit, plan }
            && quota@ == "max_targets"@ && c == current && limit == max_targets && plan@ == "free"@),
{
    if current as i128 + more as i128 > max_targets as i128 {
        Err(AppError::quota_exceeded("max_targets", current, max_targets, "free"))
    } else {
        Ok(())
    }
}

/// A target to be inserted, its check encoded.
#[derive(Debug)]
pub struct NewListedTarget {
    pub target: NewTarget,
    pub listing: PublicListing,
}

/// The columns of a bulk insert: the `i`-th entries of all of them make the `i`-th row.
#[derive(Debug)]
pub struct BulkColumns {
    pub names: Vec<String>,
    pub checks: Vec<String>,
    pub intervals: Vec<i32>,
    pub enabled: Vec<bool>,
    pub tags: Vec<Vec<String>>,
    pub alerts: Vec<String>,
    pub group_name: Vec<Option<String>>,
    pub owner_user_id: Vec<Option<u128>>,
    pub public_status: Vec<bool>,
    pub public_name: Vec<Option<String>>,
    pub public_description: Vec<Option<String>>,
    pub public_group: Vec<Option<String>>,
    pub public_sort_order: Vec<i32>,
}

impl BulkColumns {
    /// Every column has `n` entries.
    pub open spec fn rectangular(self, n: nat) -> bool {
        &&& self.names@.len() == n
        &&& self.checks@.len() == n
        &&& self.intervals@.len() == n
        &&& self.enabled@.len() == n
        &&& self.tags@.len() == n
        &&& self.alerts@.len() == n
        &&& self.group_name@.len() == n
        &&& self.owner_user_id@.len() == n
        &&& self.public_status@.len() == n
        &&& self.public_name@.len() == n
        &&& self.public_description@.len() == n
        &&& self.public_group@.len() == n
        &&& self.public_sort_order@.len() == n
    }

    /// The `i`-th row is the item's.
    pub open spec fn row_is(self, i: int, item: NewListedTarget) -> bool {
        &&& self.names@[i] == item.target.name
        &&& self.checks@[i] == item.target.check
        &&& self.intervals@[i] == item.target.interval_secs as i32
        &&& self.enabled@[i] == item.target.enabled
        &&& self.tags@[i]@ == item.target.tags@
        &&& self.alerts@[i] == item.target.alerts
        &&& self.group_name@[i] == item.target.group_name
        &&& self.owner_user_id@[i] == item.target.owner_user_id
        &&& self.public_status@[i] == item.listing.status
        &&& self.public_name@[i] == item.listing.name
        &&& self.public_description@[i] == item.listing.description
        &&& self.public_group@[i] == item.listing.group
        &&& self.public_sort_order@[i] == item.listing.sort_order
    }
}

/// The columns of a bulk insert.
pub fn bulk_columns(items: &Vec<NewListedTarget>) -> (c: BulkColumns)
    ensures
        c.rectangular(items@.len()),
        forall|i: int| 0 <= i < items@.len() ==> c.row_is(i, #[trigger] items@[i]),
{
    let mut c = BulkColumns {
        names: Vec::new(),
        checks: Vec::new(),
        intervals: Vec::new(),
        enabled: Vec::new(),
        tags: Vec::new(),
        alerts: Vec::new(),
        group_name: Vec::new(),
        owner_user_id: Vec::new(),
        public_status: Vec::new(),
        public_name: Vec::new(),
        public_description: Vec::new(),
        public_group: Vec::new(),
        public_sort_order: Vec::new(),
    };
    let mut i: usize = 0;
    while i < items.len()
        invariant
            i <= items@.len(),
            c.rectangular(i as nat),
            forall|k: int| 0 <= k < i ==> c.row_is(k, #[trigger] items@[k]),
        decreases items.len() - i,
    {
        let t = &items[i].target;
        let l = &items[i].listing;
        let ghost before = c;
        c.names.push(t.name.clone());
        c.checks.push(t.check.clone());
        c.intervals.push(t.interval_secs as i32);
        c.enabled.push(t.enabled);
        c.tags.push(clone_strings(&t.tags));
        c.alerts.push(t.alerts.clone());
        c.group_name.push(opt_clone(&t.group_name));
        c.owner_user_id.push(t.owner_user_id);
        c.public_status.push(l.status);
        c.public_name.push(opt_clone(&l.name));
        c.public_description.push(opt_clone(&l.description));
        c.public_group.push(opt_clone(&l.group));
        c.public_sort_order.push(l.sort_order);
        proof {
            assert forall|k: int| 0 <= k < i + 1 implies c.row_is(k, #[trigger] items@[k]) by {
                if k < i {
                    assert(before.row_is(k, items@[k]));
                }
            }
        }
        i += 1;
    }
    c
}

/// What a bulk create does next.
#[derive(Debug)]
pub enum BulkStep {
    /// There is nothing to insert.
    Nothing,
    /// Insert these columns.
    Insert(BulkColumns),
    /// The plan has no room for all of them; nothing is inserted.
    Refuse(AppError),
}

/// What a bulk create does, where the org holds `current` targets: all items are inserted
/// or none.
pub fn bulk_create(items: &Vec<NewListedTarget>, current: i64, max_targets: i64) -> (r: BulkStep)
    ensures
        match r {
            BulkStep::Nothing => items@.len() == 0,
            BulkStep::Insert(c) => {
                &&& items@.len() > 0
                &&& current + items@.len() <= max_targets
                &&& c.rectangular(items@.len())
                &&& forall|i: int| 0 <= i < items@.len() ==> c.row_is(i, #[trigger] items@[i])
            },
            BulkStep::Refuse(e) => items@.len() > 0 && current + items@.len() > max_targets
                && is_target_quota(e, current, max_targets),
        },
{
    if items.len() == 0 {
        return BulkStep::Nothing;
    }
    match bulk_room(current, items.len(), max_targets) {
        Err(e) => BulkStep::Refuse(e),
        Ok(_) => BulkStep::Insert(bulk_columns(items)),
    }
}

/// The pattern of a tag prefix.
pub fn prefix_pattern(prefix: &Option<String>) -> (r: Option<String>)
    ensures
        opt_view(r) == (match *prefix {
            Some(p) => Some(p@ + "%"@),
            None => None,
        }),
{
    match prefix {
        Some(p) => {
            let mut s = p.clone();
            s.append("%");
            Some(s)
        },
        None => None,
    }
}

/// A stored tag count. A negative one counts as none.
pub fn tag_count(name: String, count: i64) -> (r: TagCount)
    ensures
        r.name == name,
        r.count == (if count < 0 {
            0int
        } else {
            count as int
        }),
{
    TagCount {
        name,
        count: if count < 0 {
            0
        } else {
            count as u64
        },
    }
}

/// The totals of an org's targets.
pub fn summary_of(total: i64, enabled: i64) -> (r: TargetsSummary)
    requires
        enabled <= total || enabled <= 0,
    ensures
        r.total == (if total < 0 {
            0int
        } else {
            total as int
        }),
        r.enabled == (if enabled < 0 {
            0int
        } else {
            enabled as int
        }),
        r.disabled == r.total - r.enabled,
{
    let t: u64 = if total < 0 {
        0
    } else {
        total as u64
    };
    let e: u64 = if enabled < 0 {
        0
    } else {
        enabled as u64
    };
    TargetsSummary { total: t, enabled: e, disabled: t - e }
}

/// Refuses to start where the default plan is missing: the next signup would fail on it.
pub fn assert_default_plan_present(exists: bool) -> (r: Result<(), AppError>)
    ensures
        match r {
            Ok(_) => exists,
            Err(AppError::Other(m)) => !exists && m@
                == "plans.id = 'free' is missing — the literal `organizations.plan_id DEFAULT 'free'` would FK-violate on the next signup. Restore the row from the plans seed."@,
            Err(_) => false,
        },
{
    if exists {
        Ok(())
    } else {
        Err(
            AppError::other(
                "plans.id = 'free' is missing — the literal `organizations.plan_id DEFAULT 'free'` would FK-violate on the next signup. Restore the row from the plans seed.",
            ),
        )
    }
}

/// The columns of a bulk insert hold each item in a row of its own: every column as many
/// entries as there are items, and at an item's place what the item says.
pub proof fn law_columns_hold_their_items(
    c: BulkColumns,
    items: Seq<NewListedTarget>,
    i: int,
)
    requires
        c.rectangular(items.len()),
        forall|k: int| 0 <= k < items.len() ==> c.row_is(k, #[trigger] items[k]),
        0 <= i < items.len(),
        items[i].target.interval_secs <= i32::MAX,
    ensures
        c.names@.len() == items.len() && c.checks@.len() == items.len(),
        c.intervals@.len() == items.len() && c.enabled@.len() == items.len(),
        c.tags@.len() == items.len() && c.alerts@.len() == items.len(),
        c.group_name@.len() == items.len() && c.owner_user_id@.len() == items.len(),
        c.public_status@.len() == items.len() && c.public_name@.len() == items.len(),
        c.public_description@.len() == items.len() && c.public_group@.len() == items.len(),
        c.public_sort_order@.len() == items.len(),
        c.names@[i] == items[i].target.name && c.checks@[i] == items[i].target.check,
        c.intervals@[i] == items[i].target.interval_secs,
        c.enabled@[i] == items[i].target.enabled,
        c.tags@[i]@ == items[i].target.tags@,
        c.alerts@[i] == items[i].target.alerts,
        c.group_name@[i] == items[i].target.group_name,
        c.owner_user_id@[i] == items[i].target.owner_user_id,
        c.public_status@[i] == items[i].listing.status,
        c.public_name@[i] == items[i].listing.name,
        c.public_description@[i] == items[i].listing.description,
        c.public_group@[i] == items[i].listing.group,
        c.public_sort_order@[i] == items[i].listing.sort_order,
{
    assert(c.row_is(i, items[i]));
}

} // verus!
