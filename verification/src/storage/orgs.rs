//! Org lifecycle and access control: what each read and write of the `organizations` and
//! `memberships` tables comes to.

use vstd::prelude::*;

use crate::error::AppError;
use crate::ids::{uuid_string, uuid_text, OrgId, StatusPageId, UserId};
use crate::strings::{
    decimal, non_blank, opt_str_view, opt_view, owned, str_eq, trim_non_blank, u64_text,
};
use crate::time::{Timestamp, NANOS_PER_SEC, SECS_PER_DAY};

verus! {

/// What a member may do.
#[derive(Debug, Clone, Copy, PartialEq, Eq, Structural)]
pub enum Role {
    Owner,
    Member,
}

impl Role {
    /// The role as the database writes it.
    pub open spec fn name(self) -> Seq<char> {
        match self {
            Role::Owner => "owner"@,
            Role::Member => "member"@,
        }
    }

    /// The role that a name stands for, where it stands for one.
    pub open spec fn parsed(s: Seq<char>) -> Option<Role> {
        if s == "owner"@ {
            Some(Role::Owner)
        } else if s == "member"@ {
            Some(Role::Member)
        } else {
            None
        }
    }

    /// The role of a stored name; an unknown one is a plain member's.
    pub open spec fn of_name(s: Seq<char>) -> Role {
        match Role::parsed(s) {
            Some(r) => r,
            None => Role::Member,
        }
    }

    /// The role as the database writes it.
    pub fn as_db_str(self) -> (r: &'static str)
        ensures
            r@ == self.name(),
            match self {
                Role::Owner => r@ == "owner"@,
                Role::Member => r@ == "member"@,
            },
    {
        match self {
            Role::Owner => "owner",
            Role::Member => "member",
        }
    }

    /// The role that a name stands for, where it stands for one.
    pub fn from_db_str(s: &str) -> (r: Option<Role>)
        ensures
            r == Role::parsed(s@),
            r == (if s@ == "owner"@ {
                Some(Role::Owner)
            } else if s@ == "member"@ {
                Some(Role::Member)
            } else {
                None
            }),
    {
        if str_eq(s, "owner") {
            Some(Role::Owner)
        } else if str_eq(s, "member") {
            Some(Role::Member)
        } else {
            None
        }
    }

    /// The role of a stored name.
    fn stored(s: &str) -> (r: Role)
        ensures
            r == Role::of_name(s@),
    {
        match Role::from_db_str(s) {
            Some(r) => r,
            None => Role::Member,
        }
    }
}

/// A written role reads back.
pub proof fn law_role_round_trip(r: Role)
    ensures
        Role::parsed(r.name()) == Some(r),
        Role::of_name(r.name()) == r,
{
    reveal_strlit("owner");
    reveal_strlit("member");
    assert("owner"@.len() != "member"@.len());
}

/// An organisation.
#[derive(Debug)]
pub struct Organization {
    pub id: OrgId,
    pub slug: String,
    pub name: String,
    pub created_at: Timestamp,
    pub updated_at: Timestamp,
    pub deleted_at: Option<Timestamp>,
}

/// An organisation's row.
#[derive(Debug)]
pub struct OrgRow {
    pub id: u128,
    pub slug: String,
    pub name: String,
    pub created_at: Timestamp,
    pub updated_at: Timestamp,
    pub deleted_at: Option<Timestamp>,
}

/// The organisation of a row.
pub open spec fn org_of(r: OrgRow) -> Organization {
    Organization {
        id: OrgId(r.id),
        slug: r.slug,
        name: r.name,
        created_at: r.created_at,
        updated_at: r.updated_at,
        deleted_at: r.deleted_at,
    }
}

impl OrgRow {
    pub fn into_org(self) -> (r: Organization)
        ensures
            r == org_of(self),
    {
        Organization {
            id: OrgId(self.id),
            slug: self.slug,
            name: self.name,
            created_at: self.created_at,
            updated_at: self.updated_at,
            deleted_at: self.deleted_at,
        }
    }
}

/// An organisation and the caller's role in it.
#[derive(Debug)]
pub struct OrgWithRole {
    pub org: Organization,
    pub role: Role,
}

/// An organisation's row joined with the caller's role.
#[derive(Debug)]
pub struct OrgWithRoleRow {
    pub org: OrgRow,
    pub role: String,
}

impl OrgWithRoleRow {
    pub fn into_dto(self) -> (r: OrgWithRole)
        ensures
            r == (OrgWithRole { org: org_of(self.org), role: Role::of_name(self.role@) }),
    {
        let role = Role::stored(self.role.as_str());
        OrgWithRole { org: self.org.into_org(), role }
    }
}

/// One user's place in an organisation.
#[derive(Debug, Clone, Copy, PartialEq, Eq, Structural)]
pub struct Membership {
    pub user_id: UserId,
    pub org_id: OrgId,
    pub role: Role,
    pub created_at: Timestamp,
}

/// A member as the member list shows them.
#[derive(Debug)]
pub struct MemberView {
    pub membership: Membership,
    pub email: String,
}

/// A member's row.
#[derive(Debug)]
pub struct MemberRow {
    pub user_id: u128,
    pub role: String,
    pub created_at: Timestamp,
    pub email: String,
}

impl MemberRow {
    /// The member of an org's row.
    pub fn into_view(self, org: OrgId) -> (r: MemberView)
        ensures
            r == (MemberView {
                membership: Membership {
                    user_id: UserId(self.user_id),
                    org_id: org,
                    role: Role::of_name(self.role@),
                    created_at: self.created_at,
                },
                email: self.email,
            }),
    {
        let role = Role::stored(self.role.as_str());
        MemberView {
            membership: Membership {
                user_id: UserId(self.user_id),
                org_id: org,
                role,
                created_at: self.created_at,
            },
            email: self.email,
        }
    }
}

/// The single live organisation, where at most two of them were read. Only a box with
/// exactly one tenant has one.
pub fn find_lone_active_org(rows: &Vec<u128>) -> (r: Option<OrgId>)
    ensures
        r == (if rows@.len() == 1 {
            Some(OrgId(rows@[0]))
        } else {
            None
        }),
{
    if rows.len() == 1 {
        Some(OrgId(rows[0]))
    } else {
        None
    }
}

/// What a user is to an org.
#[derive(Debug, Clone, Copy, PartialEq, Eq, Structural)]
pub enum MembershipStatus {
    Owner,
    Member,
    /// No membership, or the org is soft-deleted. Cloak as not found.
    Absent,
}

/// What a user is to an org, from their role and whether the org is live.
pub open spec fn status_of(row: Option<(Seq<char>, bool)>) -> MembershipStatus {
    match row {
        Some((role, true)) => if role == "owner"@ {
            MembershipStatus::Owner
        } else {
            MembershipStatus::Member
        },
        _ => MembershipStatus::Absent,
    }
}

/// What a user is to an org, from their role and whether the org is live.
pub fn membership_status(row: Option<(String, bool)>) -> (r: MembershipStatus)
    ensures
        r == status_of(
            match row {
                Some((role, active)) => Some((role@, active)),
                None => None,
            },
        ),
{
    match row {
        None => MembershipStatus::Absent,
        Some((role, active)) => {
            if !active {
                MembershipStatus::Absent
            } else if str_eq(role.as_str(), "owner") {
                MembershipStatus::Owner
            } else {
                MembershipStatus::Member
            }
        },
    }
}

/// One field of an audit entry's metadata.
#[derive(Debug)]
pub struct AuditField {
    pub key: &'static str,
    pub value: String,
}

/// An entry of the audit log. No fields stand for no metadata.
#[derive(Debug)]
pub struct AuditEntry {
    pub action: &'static str,
    pub fields: Vec<AuditField>,
}

/// What an audit entry says.
pub ghost struct AuditView {
    pub action: Seq<char>,
    pub fields: Seq<(Seq<char>, Seq<char>)>,
}

impl View for AuditEntry {
    type V = AuditView;

    open spec fn view(&self) -> AuditView {
        AuditView {
            action: self.action@,
            fields: self.fields@.map_values(|f: AuditField| (f.key@, f.value@)),
        }
    }
}

/// What the entries of a list say.
pub open spec fn audits(v: Seq<AuditEntry>) -> Seq<AuditView> {
    v.map_values(|e: AuditEntry| e@)
}

fn audit(action: &'static str) -> (r: AuditEntry)
    ensures
        r@ == (AuditView { action: action@, fields: Seq::empty() }),
{
    let r = AuditEntry { action, fields: Vec::new() };
    assert(r@.fields =~= Seq::<(Seq<char>, Seq<char>)>::empty());
    r
}

fn audit_with(action: &'static str, key: &'static str, value: String) -> (r: AuditEntry)
    ensures
        r@ == (AuditView { action: action@, fields: seq![(key@, value@)] }),
{
    let mut fields: Vec<AuditField> = Vec::new();
    fields.push(AuditField { key, value });
    let r = AuditEntry { action, fields };
    assert(r@.fields =~= seq![(key@, value@)]);
    r
}

fn audit_with_two(
    action: &'static str,
    key: &'static str,
    value: String,
    key2: &'static str,
    value2: String,
) -> (r: AuditEntry)
    ensures
        r@ == (AuditView { action: action@, fields: seq![(key@, value@), (key2@, value2@)] }),
{
    let mut fields: Vec<AuditField> = Vec::new();
    fields.push(AuditField { key, value });
    fields.push(AuditField { key: key2, value: value2 });
    let r = AuditEntry { action, fields };
    assert(r@.fields =~= seq![(key@, value@), (key2@, value2@)]);
    r
}

/// The outcome of an update of an org's fields.
#[derive(Debug)]
pub enum UpdateOrgOutcome {
    Updated(Organization),
    NotFound,
    SlugTaken,
}

/// An org's row after an update, with the slug and name it had before.
#[derive(Debug)]
pub struct UpdateRow {
    pub org: OrgRow,
    pub prev_slug: String,
    pub prev_name: String,
}

/// What the database made of an update.
#[derive(Debug)]
pub enum UpdateAttempt {
    /// A live org was written.
    Written(UpdateRow),
    /// No live org has the id.
    Missing,
    /// Another org holds the slug.
    Conflict,
}

/// The audit entries of an update: one per field that actually changed.
pub open spec fn update_audits(row: UpdateRow) -> Seq<AuditView> {
    let slug = AuditView {
        action: "org.slug_changed"@,
        fields: seq![("from"@, row.prev_slug@), ("to"@, row.org.slug@)],
    };
    let name = AuditView { action: "org.renamed"@, fields: seq![("name"@, row.org.name@)] };
    let slug_changed = row.org.slug@ != row.prev_slug@;
    let name_changed = row.org.name@ != row.prev_name@;
    if slug_changed && name_changed {
        seq![slug, name]
    } else if slug_changed {
        seq![slug]
    } else if name_changed {
        seq![name]
    } else {
        Seq::empty()
    }
}

/// What an update comes to: its outcome and the audit entries to write with it. Only a
/// written update is committed.
pub fn update_org_fields(attempt: UpdateAttempt) -> (r: (UpdateOrgOutcome, Vec<AuditEntry>))
    ensures
        match attempt {
            UpdateAttempt::Written(row) => r.0 == UpdateOrgOutcome::Updated(org_of(row.org))
                && audits(r.1@) == update_audits(row),
            UpdateAttempt::Missing => r.0 is NotFound && r.1@.len() == 0,
            UpdateAttempt::Conflict => r.0 is SlugTaken && r.1@.len() == 0,
        },
{
    match attempt {
        UpdateAttempt::Missing => (UpdateOrgOutcome::NotFound, Vec::new()),
        UpdateAttempt::Conflict => (UpdateOrgOutcome::SlugTaken, Vec::new()),
        UpdateAttempt::Written(row) => {
            let ghost whole = row;
            let mut entries: Vec<AuditEntry> = Vec::new();
            let slug_changed = !str_eq(row.org.slug.as_str(), row.prev_slug.as_str());
            let name_changed = !str_eq(row.org.name.as_str(), row.prev_name.as_str());
            if slug_changed {
                entries.push(
                    audit_with_two(
                        "org.slug_changed",
                        "from",
                        row.prev_slug.clone(),
                        "to",
                        row.org.slug.clone(),
                    ),
                );
            }
            if name_changed {
                entries.push(audit_with("org.renamed", "name", row.org.name.clone()));
            }
            assert(audits(entries@) =~= update_audits(whole));
            (UpdateOrgOutcome::Updated(row.org.into_org()), entries)
        },
    }
}

/// An update that changes nothing writes no audit entry, and one that changes something
/// writes one per change.
pub proof fn law_audit_follows_change(row: UpdateRow)
    ensures
        update_audits(row).len() == 0 <==> row.org.slug@ == row.prev_slug@ && row.org.name@
            == row.prev_name@,
        update_audits(row).len() <= 2,
{
}

/// The outcome of a restore.
#[derive(Debug)]
pub enum RestoreOutcome {
    Restored(Organization),
    NotFound,
    NotDeleted,
    WindowExpired,
}

/// Whole days between two instants, rounded towards zero.
pub open spec fn days_between(from: Timestamp, to: Timestamp) -> int {
    let d = to.nanos - from.nanos;
    let day = SECS_PER_DAY * NANOS_PER_SEC;
    if d >= 0 {
        d / day
    } else {
        -((-d) / day)
    }
}

fn whole_days(from: Timestamp, to: Timestamp) -> (r: i128)
    requires
        from.wf(),
        to.wf(),
    ensures
        r == days_between(from, to),
{
    let d: i128 = to.nanos - from.nanos;
    let day: i128 = SECS_PER_DAY as i128 * NANOS_PER_SEC;
    if d >= 0 {
        d / day
    } else {
        let size: i128 = -d;
        assert(0 <= size / day <= size) by (nonlinear_arith)
            requires
                size > 0,
                day == 86_400 * 1_000_000_000,
        ;
        -(size / day)
    }
}

/// What a restore comes to. `restored` is the org where the write took it back;
/// otherwise `found` is what a look at the org gave: nothing, or when it was deleted. One
/// that is deleted and within the grace period, but not by the caller, is cloaked as not
/// found.
pub fn restore_org(
    restored: Option<OrgRow>,
    found: Option<Option<Timestamp>>,
    grace_days: u32,
    now: Timestamp,
) -> (r: (RestoreOutcome, Vec<AuditEntry>))
    requires
        now.wf(),
        found matches Some(Some(t)) ==> t.wf(),
    ensures
        match restored {
            Some(row) => r.0 == RestoreOutcome::Restored(org_of(row)) && audits(r.1@) == seq![
                AuditView { action: "org.restored"@, fields: Seq::empty() },
            ],
            None => r.1@.len() == 0 && match found {
                None => r.0 is NotFound,
                Some(None) => r.0 is NotDeleted,
                Some(Some(t)) => if days_between(t, now) >= grace_days {
                    r.0 is WindowExpired
                } else {
                    r.0 is NotFound
                },
            },
        },
{
    match restored {
        Some(row) => {
            let mut entries: Vec<AuditEntry> = Vec::new();
            entries.push(audit("org.restored"));
            assert(audits(entries@) =~= seq![
                AuditView { action: "org.restored"@, fields: Seq::empty() },
            ]);
            (RestoreOutcome::Restored(row.into_org()), entries)
        },
        None => {
            let outcome = match found {
                None => RestoreOutcome::NotFound,
                Some(None) => RestoreOutcome::NotDeleted,
                Some(Some(t)) => {
                    if whole_days(t, now) >= grace_days as i128 {
                        RestoreOutcome::WindowExpired
                    } else {
                        RestoreOutcome::NotFound
                    }
                },
            };
            (outcome, Vec::new())
        },
    }
}

/// The outcome of removing a member.
#[derive(Debug, Clone, Copy, PartialEq, Eq, Structural)]
pub enum RemoveOutcome {
    Removed,
    NotFound,
    LastOwner,
}

/// What to do next about removing a member.
#[derive(Debug, Clone, Copy, PartialEq, Eq, Structural)]
pub enum RemoveStep {
    /// Nothing is written.
    Refuse(RemoveOutcome),
    /// The member is an owner: count the org's owners first.
    CountOwners,
    /// Delete the membership and write the audit entry.
    Delete,
}

/// The first step of removing a member, from their role where they have one.
pub open spec fn first_removal_step(role: Option<Seq<char>>) -> RemoveStep {
    match role {
        None => RemoveStep::Refuse(RemoveOutcome::NotFound),
        Some(r) => if r == "owner"@ {
            RemoveStep::CountOwners
        } else {
            RemoveStep::Delete
        },
    }
}

/// The first step of removing a member.
pub fn remove_member(role: Option<&str>) -> (r: RemoveStep)
    ensures
        r == first_removal_step(opt_str_view(role)),
{
    match role {
        None => RemoveStep::Refuse(RemoveOutcome::NotFound),
        Some(x) => {
            if str_eq(x, "owner") {
                RemoveStep::CountOwners
            } else {
                RemoveStep::Delete
            }
        },
    }
}

/// The step once the owners are counted: the last one stays.
pub open spec fn owner_removal_step(owners: i64) -> RemoveStep {
    if owners <= 1 {
        RemoveStep::Refuse(RemoveOutcome::LastOwner)
    } else {
        RemoveStep::Delete
    }
}

/// The step once the owners are counted.
pub fn remove_owner(owners: i64) -> (r: RemoveStep)
    ensures
        r == owner_removal_step(owners),
{
    if owners <= 1 {
        RemoveStep::Refuse(RemoveOutcome::LastOwner)
    } else {
        RemoveStep::Delete
    }
}

/// The audit entry of a removal.
pub fn removal_audit(user: UserId) -> (r: AuditEntry)
    ensures
        r@ == (AuditView {
            action: "member.removed"@,
            fields: seq![("user_id"@, uuid_text(user.0))],
        }),
{
    audit_with("member.removed", "user_id", uuid_string(user.0))
}

/// How many of an org's members are owners.
pub open spec fn owner_count(members: Seq<Role>) -> nat {
    members.filter(|r: Role| r == Role::Owner).len()
}

/// Removing a member by these steps never leaves an org headless: where an owner is
/// deleted, another one is left.
pub proof fn law_an_org_keeps_an_owner(members: Seq<Role>, i: int)
    requires
        0 <= i < members.len(),
        owner_count(members) >= 1,
        owner_count(members) <= i64::MAX,
        first_removal_step(Some(members[i].name())) == RemoveStep::Delete || (
        first_removal_step(Some(members[i].name())) == RemoveStep::CountOwners
            && owner_removal_step(owner_count(members) as i64) == RemoveStep::Delete),
    ensures
        owner_count(members.remove(i)) >= 1,
{
    let p = |r: Role| r == Role::Owner;
    let front = members.take(i);
    let back = members.skip(i + 1);
    law_role_round_trip(members[i]);
    lemma_filter_split(front, back, p);
    assert(members.remove(i) =~= front + back);
    let with = front.push(members[i]);
    crate::collections::lemma_filter_push(front, members[i], p);
    lemma_filter_split(with, back, p);
    assert(members =~= with + back);
    assert(members[i].name() == "owner"@ ==> members[i] == Role::Owner);
    assert(members[i] == Role::Owner ==> first_removal_step(Some(members[i].name()))
        == RemoveStep::CountOwners);
}

proof fn lemma_filter_split(a: Seq<Role>, b: Seq<Role>, p: spec_fn(Role) -> bool)
    ensures
        (a + b).filter(p).len() == a.filter(p).len() + b.filter(p).len(),
    decreases b.len(),
{
    reveal(Seq::filter);
    if b.len() == 0 {
        assert(a + b =~= a);
    } else {
        lemma_filter_split(a, b.drop_last(), p);
        assert((a + b).drop_last() =~= a + b.drop_last());
        assert((a + b).last() == b.last());
    }
}

/// The outcome of adding a member.
#[derive(Debug, Clone, Copy, PartialEq, Eq, Structural)]
pub enum AddMemberOutcome {
    Added,
    AlreadyMember,
    /// The org already holds `limit` members; nothing was inserted. `current` is the
    /// member count before this attempt.
    LimitReached { current: i64, limit: i64 },
}

/// What adding a member comes to: `members_after` is the count once the row was inserted,
/// or `None` where they were a member already. An insert that crossed the cap is undone.
pub open spec fn addition(members_after: Option<i64>, max_members: u32) -> AddMemberOutcome {
    match members_after {
        None => AddMemberOutcome::AlreadyMember,
        Some(n) => if n > max_members {
            AddMemberOutcome::LimitReached { current: (n - 1) as i64, limit: max_members as i64 }
        } else {
            AddMemberOutcome::Added
        },
    }
}

/// What adding a member comes to.
pub fn add_member(members_after: Option<i64>, max_members: u32) -> (r: AddMemberOutcome)
    ensures
        r == addition(members_after, max_members),
{
    match members_after {
        None => AddMemberOutcome::AlreadyMember,
        Some(n) => {
            if n > max_members as i64 {
                AddMemberOutcome::LimitReached { current: n - 1, limit: max_members as i64 }
            } else {
                AddMemberOutcome::Added
            }
        },
    }
}

/// A member is added only within the cap; re-adding one is never refused by it.
pub proof fn law_the_member_cap_holds(members_after: Option<i64>, max_members: u32)
    ensures
        addition(members_after, max_members) is Added ==> members_after is Some
            && members_after->Some_0 <= max_members,
        members_after is None ==> addition(members_after, max_members) is AlreadyMember,
        addition(members_after, max_members) matches AddMemberOutcome::LimitReached {
            current,
            limit,
        } ==> current >= limit,
{
}

/// The audit entry of an addition.
pub fn addition_audit(user: UserId, role: Role) -> (r: AuditEntry)
    ensures
        r@ == (AuditView {
            action: "member.added"@,
            fields: seq![("user_id"@, uuid_text(user.0)), ("role"@, role.name())],
        }),
{
    audit_with_two("member.added", "user_id", uuid_string(user.0), "role", owned(role.as_db_str()))
}

/// What creating an org comes to. `org` is its row, or `None` where the slug is held;
/// `owner_inserted` says whether the owner's membership was within the limit. Nothing of
/// a refused create stays.
pub fn create_org_with_owner(org: Option<OrgRow>, owner_inserted: bool, owner_limit: u32) -> (r:
    Result<Option<(Organization, AuditEntry)>, AppError>)
    ensures
        match org {
            None => r matches Ok(None),
            Some(row) => if owner_inserted {
                r matches Ok(Some((o, a))) && o == org_of(row) && a@ == (AuditView {
                    action: "org.created"@,
                    fields: Seq::empty(),
                })
            } else {
                r matches Err(e) && e.is_unprocessable(
                    "OWNER_ORG_LIMIT"@,
                    "user already owns the limit of "@ + decimal(owner_limit as nat)
                        + " organizations"@,
                )
            },
        },
{
    match org {
        None => Ok(None),
        Some(row) => {
            if owner_inserted {
                Ok(Some((row.into_org(), audit("org.created"))))
            } else {
                let mut m = owned("user already owns the limit of ");
                let n = u64_text(owner_limit as u64);
                m.append(n.as_str());
                m.append(" organizations");
                Err(AppError::unprocessable("OWNER_ORG_LIMIT", m.as_str()))
            }
        },
    }
}

/// A count that fits 32 bits; one that does not counts as the largest.
pub fn owner_org_count(count: i64) -> (r: u32)
    ensures
        r == (if 0 <= count <= u32::MAX {
            count as int
        } else {
            u32::MAX as int
        }),
{
    if 0 <= count && count <= u32::MAX as i64 {
        count as u32
    } else {
        u32::MAX
    }
}

/// The onboarding anchor: the signup org where it is set and live, else the oldest
/// membership.
pub fn resolve_signup_org(signup: Option<OrgId>, oldest: Option<OrgId>) -> (r: Option<OrgId>)
    ensures
        r == (if signup is Some {
            signup
        } else {
            oldest
        }),
{
    match signup {
        Some(id) => Some(id),
        None => oldest,
    }
}

/// A status page and its org.
#[derive(Debug, Clone, Copy, PartialEq, Eq, Structural)]
pub struct PageRef {
    pub page: StatusPageId,
    pub org: OrgId,
}

/// A page that the unauthenticated public path resolved, kept apart from what the
/// operator path resolves.
#[derive(Debug, Clone, Copy, PartialEq, Eq, Structural)]
pub struct ResolvedPublicPage(pub PageRef);

/// The page that a public lookup found.
pub fn public_page(row: Option<(u128, u128)>) -> (r: Option<ResolvedPublicPage>)
    ensures
        r == (match row {
            Some((page, org)) => Some(
                ResolvedPublicPage(PageRef { page: StatusPageId(page), org: OrgId(org) }),
            ),
            None => None,
        }),
{
    match row {
        Some((page, org)) => Some(
            ResolvedPublicPage(PageRef { page: StatusPageId(page), org: OrgId(org) }),
        ),
        None => None,
    }
}

/// The lone org's primary page, its oldest one, where that is enabled. A younger page
/// never stands in for it.
pub fn resolve_default_page_for_lone_org(org: Option<OrgId>, oldest: Option<(u128, bool)>) -> (r:
    Option<PageRef>)
    ensures
        r == (match (org, oldest) {
            (Some(o), Some((page, true))) => Some(PageRef { page: StatusPageId(page), org: o }),
            _ => None,
        }),
{
    match (org, oldest) {
        (Some(o), Some((page, enabled))) => {
            if enabled {
                Some(PageRef { page: StatusPageId(page), org: o })
            } else {
                None
            }
        },
        _ => None,
    }
}

/// How a page presents its org.
#[derive(Debug)]
pub struct PublicOrgBranding {
    pub public_display_name: Option<String>,
    pub public_about: Option<String>,
    pub public_brand_color: Option<String>,
    pub logo_hash: Option<String>,
    pub public_show_powered_by: Option<bool>,
    pub public_style: String,
}

/// An org's name, a page's slug and the page's branding.
#[derive(Debug)]
pub struct OrgBranding {
    pub name: String,
    pub slug: String,
    pub branding: PublicOrgBranding,
}

impl OrgBranding {
    /// Header name: the page's display override if non-blank, else the org name.
    pub fn resolved_display_name(&self) -> (r: String)
        ensures
            r@ == (match non_blank(opt_view(self.branding.public_display_name)) {
                Some(s) => s,
                None => self.name@,
            }),
    {
        match trim_non_blank(&self.branding.public_display_name) {
            Some(s) => s,
            None => self.name.clone(),
        }
    }
}

/// The audit log tells a slug that changed, with what it was and what it is, and a name that
/// changed, with what it is; the slug comes first, and what did not change is not told.
pub proof fn law_an_update_tells_what_changed(row: UpdateRow, i: int)
    requires
        0 <= i < update_audits(row).len(),
    ensures
        row.org.slug@ != row.prev_slug@ ==> {
            let a = update_audits(row)[0];
            &&& a.action == "org.slug_changed"@
            &&& a.fields.len() == 2
            &&& a.fields[0] == ("from"@, row.prev_slug@)
            &&& a.fields[1] == ("to"@, row.org.slug@)
        },
        row.org.name@ != row.prev_name@ ==> {
            let a = update_audits(row).last();
            &&& a.action == "org.renamed"@
            &&& a.fields.len() == 1
            &&& a.fields[0] == ("name"@, row.org.name@)
        },
        update_audits(row).len() == (if row.org.slug@ != row.prev_slug@ {
            1int
        } else {
            0
        }) + (if row.org.name@ != row.prev_name@ {
            1int
        } else {
            0
        }),
{
}

/// An org carries what its row holds.
pub proof fn law_an_org_is_its_row(r: OrgRow)
    ensures
        org_of(r).id.0 == r.id,
        org_of(r).slug == r.slug,
        org_of(r).name == r.name,
        org_of(r).created_at == r.created_at,
        org_of(r).updated_at == r.updated_at,
        org_of(r).deleted_at == r.deleted_at,
{
}

/// A grace period of some days is over once that many times 86400 seconds have passed, and not
/// a nanosecond before.
pub proof fn law_the_grace_period_is_whole_days(deleted: Timestamp, now: Timestamp, days: u32)
    requires
        days > 0,
    ensures
        days_between(deleted, now) >= days <==> now.nanos - deleted.nanos >= days
            * 86_400_000_000_000,
{
    let d = now.nanos - deleted.nanos;
    let q = d / 86_400_000_000_000;
    assert(days <= q <==> days * 86_400_000_000_000 <= d);
    if d < 0 {
        assert((-d) / 86_400_000_000_000 >= 0);
    }
}

/// A user is an owner where the org is live and their role says so, a member where it is live
/// and their role says anything else, and absent otherwise.
pub proof fn law_a_deleted_org_has_no_members(role: Seq<char>, live: bool)
    ensures
        status_of(None) == MembershipStatus::Absent,
        !live ==> status_of(Some((role, live))) == MembershipStatus::Absent,
        live && role == "owner"@ ==> status_of(Some((role, live))) == MembershipStatus::Owner,
        live && role != "owner"@ ==> status_of(Some((role, live))) == MembershipStatus::Member,
{
}

/// Nobody's removal is not found, a plain member's goes ahead, an owner's first counts the
/// owners; the last owner's is refused as such, and only that.
pub proof fn law_only_the_last_owner_stays(role: Seq<char>, owners: i64)
    ensures
        first_removal_step(None) == RemoveStep::Refuse(RemoveOutcome::NotFound),
        role == "owner"@ ==> first_removal_step(Some(role)) == RemoveStep::CountOwners,
        role != "owner"@ ==> first_removal_step(Some(role)) == RemoveStep::Delete,
        owners > 1 ==> owner_removal_step(owners) == RemoveStep::Delete,
        owners <= 1 ==> owner_removal_step(owners) == RemoveStep::Refuse(RemoveOutcome::LastOwner),
{
}

/// An addition that leaves the org within its cap stands; one that takes it over the cap tells
/// the count before it and the cap.
pub proof fn law_an_addition_over_the_cap_is_told(members_after: i64, max_members: u32)
    requires
        members_after > i64::MIN,
    ensures
        members_after <= max_members ==> addition(Some(members_after), max_members)
            == AddMemberOutcome::Added,
        members_after > max_members ==> (addition(Some(members_after), max_members) matches
            AddMemberOutcome::LimitReached { current, limit } && current == members_after - 1
            && limit == max_members),
{
}

/// What an audit entry says is its action and its fields, in order.
pub proof fn law_an_audit_entry_says_what_it_holds(e: AuditEntry, i: int)
    requires
        0 <= i < e.fields@.len(),
    ensures
        e@.action == e.action@,
        e@.fields.len() == e.fields@.len(),
        e@.fields[i] == (e.fields@[i].key@, e.fields@[i].value@),
{
}

} // verus!
