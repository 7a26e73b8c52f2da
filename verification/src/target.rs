//! Monitored targets.

use vstd::prelude::*;

use crate::domain::WriteSource;
use crate::incident::clone_strings;
use crate::strings::{opt_clone, opt_view, views};
use crate::time::Timestamp;

verus! {

/// A monitored target. Its check and its alert bindings are JSON text.
#[derive(Debug)]
pub struct Target {
    pub id: u128,
    pub name: String,
    pub check: String,
    pub interval_secs: u64,
    pub enabled: bool,
    pub tags: Vec<String>,
    pub alerts: String,
    pub group_name: Option<String>,
    pub owner_user_id: Option<u128>,
    pub write_source: WriteSource,
    pub created_at: Timestamp,
    pub updated_at: Timestamp,
}

/// What a target says, its texts as character sequences.
pub ghost struct TargetView {
    pub id: u128,
    pub name: Seq<char>,
    pub check: Seq<char>,
    pub interval_secs: u64,
    pub enabled: bool,
    pub tags: Seq<Seq<char>>,
    pub alerts: Seq<char>,
    pub group_name: Option<Seq<char>>,
    pub owner_user_id: Option<u128>,
    pub write_source: WriteSource,
    pub created_at: Timestamp,
    pub updated_at: Timestamp,
}

impl View for Target {
    type V = TargetView;

    open spec fn view(&self) -> TargetView {
        TargetView {
            id: self.id,
            name: self.name@,
            check: self.check@,
            interval_secs: self.interval_secs,
            enabled: self.enabled,
            tags: views(self.tags@),
            alerts: self.alerts@,
            group_name: opt_view(self.group_name),
            owner_user_id: self.owner_user_id,
            write_source: self.write_source,
            created_at: self.created_at,
            updated_at: self.updated_at,
        }
    }
}

impl Clone for Target {
    fn clone(&self) -> (r: Self)
        ensures
            r@ == self@,
    {
        Target {
            id: self.id,
            name: self.name.clone(),
            check: self.check.clone(),
            interval_secs: self.interval_secs,
            enabled: self.enabled,
            tags: clone_strings(&self.tags),
            alerts: self.alerts.clone(),
            group_name: opt_clone(&self.group_name),
            owner_user_id: self.owner_user_id,
            write_source: self.write_source,
            created_at: self.created_at,
            updated_at: self.updated_at,
        }
    }
}

/// What the targets of a list say.
pub open spec fn models(s: Seq<Target>) -> Seq<TargetView> {
    s.map_values(|t: Target| t@)
}

/// A target to be made.
#[derive(Debug)]
pub struct NewTarget {
    pub name: String,
    pub check: String,
    pub interval_secs: u64,
    pub enabled: bool,
    pub tags: Vec<String>,
    pub alerts: String,
    pub group_name: Option<String>,
    pub owner_user_id: Option<u128>,
}

/// The target that `new` becomes.
pub open spec fn made(new: NewTarget, source: WriteSource, now: Timestamp, id: u128) -> TargetView {
    TargetView {
        id,
        name: new.name@,
        check: new.check@,
        interval_secs: new.interval_secs,
        enabled: new.enabled,
        tags: views(new.tags@),
        alerts: new.alerts@,
        group_name: opt_view(new.group_name),
        owner_user_id: new.owner_user_id,
        write_source: source,
        created_at: now,
        updated_at: now,
    }
}

/// Makes a target at `now` under the id `id`.
pub fn materialize(new: &NewTarget, source: WriteSource, now: Timestamp, id: u128) -> (r: Target)
    ensures
        r@ == made(*new, source, now, id),
{
    Target {
        id,
        name: new.name.clone(),
        check: new.check.clone(),
        interval_secs: new.interval_secs,
        enabled: new.enabled,
        tags: clone_strings(&new.tags),
        alerts: new.alerts.clone(),
        group_name: opt_clone(&new.group_name),
        owner_user_id: new.owner_user_id,
        write_source: source,
        created_at: now,
        updated_at: now,
    }
}

/// A change of a target: what is `None` stays as it is.
#[derive(Debug)]
pub struct TargetUpdate {
    pub name: Option<String>,
    pub check: Option<String>,
    pub interval_secs: Option<u64>,
    pub enabled: Option<bool>,
    pub tags: Option<Vec<String>>,
    pub alerts: Option<String>,
    /// `Some(None)` clears the group.
    pub group_name: Option<Option<String>>,
    /// `Some(None)` clears the owner.
    pub owner_user_id: Option<Option<u128>>,
}

impl Default for TargetUpdate {
    fn default() -> (r: Self)
        ensures
            r.name is None,
            r.check is None,
            r.interval_secs is None,
            r.enabled is None,
            r.tags is None,
            r.alerts is None,
            r.group_name is None,
            r.owner_user_id is None,
    {
        TargetUpdate {
            name: None,
            check: None,
            interval_secs: None,
            enabled: None,
            tags: None,
            alerts: None,
            group_name: None,
            owner_user_id: None,
        }
    }
}

/// A target after a change.
pub open spec fn patched(
    t: TargetView,
    update: TargetUpdate,
    source: WriteSource,
    now: Timestamp,
) -> TargetView {
    TargetView {
        id: t.id,
        name: match update.name {
            Some(n) => n@,
            None => t.name,
        },
        check: match update.check {
            Some(c) => c@,
            None => t.check,
        },
        interval_secs: match update.interval_secs {
            Some(i) => i,
            None => t.interval_secs,
        },
        enabled: match update.enabled {
            Some(e) => e,
            None => t.enabled,
        },
        tags: match update.tags {
            Some(tags) => views(tags@),
            None => t.tags,
        },
        alerts: match update.alerts {
            Some(a) => a@,
            None => t.alerts,
        },
        group_name: match update.group_name {
            Some(g) => opt_view(g),
            None => t.group_name,
        },
        owner_user_id: match update.owner_user_id {
            Some(o) => o,
            None => t.owner_user_id,
        },
        write_source: source,
        created_at: t.created_at,
        updated_at: now,
    }
}

/// Applies a change to a target at `now`.
pub fn patch(t: Target, update: TargetUpdate, source: WriteSource, now: Timestamp) -> (r: Target)
    ensures
        r@ == patched(t@, update, source, now),
{
    let mut t = t;
    if let Some(n) = update.name {
        t.name = n;
    }
    if let Some(c) = update.check {
        t.check = c;
    }
    if let Some(i) = update.interval_secs {
        t.interval_secs = i;
    }
    if let Some(e) = update.enabled {
        t.enabled = e;
    }
    if let Some(tags) = update.tags {
        t.tags = tags;
    }
    if let Some(alerts) = update.alerts {
        t.alerts = alerts;
    }
    if let Some(v) = update.group_name {
        t.group_name = v;
    }
    if let Some(v) = update.owner_user_id {
        t.owner_user_id = v;
    }
    t.write_source = source;
    t.updated_at = now;
    t
}

/// How often a tag is used.
#[derive(Debug)]
pub struct TagCount {
    pub name: String,
    pub count: u64,
}

/// How many targets there are.
#[derive(Debug, Clone, Copy, PartialEq, Eq, Structural)]
pub struct TargetsSummary {
    pub total: u64,
    pub enabled: u64,
    pub disabled: u64,
}

/// A new target is what was asked for, made and last changed at that instant.
pub proof fn law_a_new_target_is_as_asked(
    new: NewTarget,
    source: WriteSource,
    now: Timestamp,
    id: u128,
)
    ensures
        ({
            let t = made(new, source, now, id);
            &&& t.id == id && t.name == new.name@ && t.check == new.check@
            &&& t.interval_secs == new.interval_secs && t.enabled == new.enabled
            &&& t.tags.len() == new.tags@.len()
            &&& forall|i: int| 0 <= i < new.tags@.len() ==> #[trigger] t.tags[i] == new.tags@[i]@
            &&& t.alerts == new.alerts@
            &&& t.group_name == (match new.group_name {
                Some(g) => Some(g@),
                None => None,
            })
            &&& t.owner_user_id == new.owner_user_id && t.write_source == source
            &&& t.created_at == now && t.updated_at == now
        }),
{
}

/// An update sets each field that it names and leaves each that it does not; a group or an
/// owner can be cleared. It leaves id and creation, and stamps writer and instant.
pub proof fn law_an_update_sets_what_it_names(
    t: TargetView,
    u: TargetUpdate,
    source: WriteSource,
    now: Timestamp,
)
    ensures
        ({
            let a = patched(t, u, source, now);
            &&& a.id == t.id && a.created_at == t.created_at
            &&& a.updated_at == now && a.write_source == source
            &&& u.name is None ==> a.name == t.name
            &&& u.name matches Some(v) ==> a.name == v@
            &&& u.check is None ==> a.check == t.check
            &&& u.check matches Some(v) ==> a.check == v@
            &&& u.interval_secs is None ==> a.interval_secs == t.interval_secs
            &&& u.interval_secs matches Some(v) ==> a.interval_secs == v
            &&& u.enabled is None ==> a.enabled == t.enabled
            &&& u.enabled matches Some(v) ==> a.enabled == v
            &&& u.tags is None ==> a.tags == t.tags
            &&& u.tags matches Some(v) ==> a.tags.len() == v@.len() && forall|i: int|
                0 <= i < v@.len() ==> #[trigger] a.tags[i] == v@[i]@
            &&& u.alerts is None ==> a.alerts == t.alerts
            &&& u.alerts matches Some(v) ==> a.alerts == v@
            &&& u.group_name is None ==> a.group_name == t.group_name
            &&& u.group_name matches Some(None) ==> a.group_name is None
            &&& u.group_name matches Some(Some(g)) ==> a.group_name == Some(g@)
            &&& u.owner_user_id is None ==> a.owner_user_id == t.owner_user_id
            &&& u.owner_user_id matches Some(o) ==> a.owner_user_id == o
        }),
{
}

/// What a target says is what it holds, field by field.
pub proof fn law_a_target_says_what_it_holds(t: Target, i: int)
    requires
        0 <= i < t.tags@.len(),
    ensures
        t@.id == t.id && t@.name == t.name@ && t@.check == t.check@,
        t@.interval_secs == t.interval_secs && t@.enabled == t.enabled,
        t@.tags.len() == t.tags@.len() && t@.tags[i] == t.tags@[i]@,
        t@.alerts == t.alerts@ && t@.owner_user_id == t.owner_user_id,
        t.group_name is None ==> t@.group_name is None,
        t.group_name matches Some(g) ==> t@.group_name == Some(g@),
        t@.write_source == t.write_source,
        t@.created_at == t.created_at && t@.updated_at == t.updated_at,
{
}

} // verus!
