//! Organisations: membership, lifecycle and their audit trail.

use status_monitor::error::AppError;
use status_monitor::ids::{OrgId, StatusPageId, UserId};
use status_monitor::storage::orgs::{
    add_member, addition_audit, create_org_with_owner, find_lone_active_org, membership_status,
    owner_org_count, public_page, remove_member, remove_owner, removal_audit,
    resolve_default_page_for_lone_org, resolve_signup_org, restore_org, update_org_fields,
    AddMemberOutcome, AuditEntry, MemberRow, MembershipStatus, OrgBranding, OrgRow,
    OrgWithRoleRow, PublicOrgBranding, RemoveOutcome, RemoveStep, RestoreOutcome, Role,
    UpdateAttempt, UpdateOrgOutcome, UpdateRow,
};
use status_monitor::time::Timestamp;
use uuid::Uuid;

fn t0() -> Timestamp {
    Timestamp::from_secs(1_700_000_000)
}

fn row(slug: &str, name: &str) -> OrgRow {
    OrgRow {
        id: 7,
        slug: slug.into(),
        name: name.into(),
        created_at: t0(),
        updated_at: t0(),
        deleted_at: None,
    }
}

fn actions(entries: &[AuditEntry]) -> Vec<&str> {
    entries.iter().map(|e| e.action).collect()
}

#[test]
fn an_update_logs_each_changed_field() {
    let written = |slug: &str, name: &str| {
        UpdateAttempt::Written(UpdateRow {
            org: row(slug, name),
            prev_slug: "old".into(),
            prev_name: "Old".into(),
        })
    };
    let (out, audit) = update_org_fields(written("new", "New"));
    assert!(matches!(out, UpdateOrgOutcome::Updated(o) if o.slug == "new" && o.id == OrgId(7)));
    assert_eq!(audit.len(), 2);
    let (_, audit) = update_org_fields(written("old", "New"));
    assert_eq!(audit.len(), 1);
    let (_, audit) = update_org_fields(written("old", "Old"));
    assert!(audit.is_empty());
    let (out, audit) = update_org_fields(UpdateAttempt::Missing);
    assert!(matches!(out, UpdateOrgOutcome::NotFound) && audit.is_empty());
    let (out, audit) = update_org_fields(UpdateAttempt::Conflict);
    assert!(matches!(out, UpdateOrgOutcome::SlugTaken) && audit.is_empty());
}

#[test]
fn a_restore_says_why_it_failed() {
    let (out, audit) = restore_org(Some(row("a", "A")), None, 30, t0());
    assert!(matches!(out, RestoreOutcome::Restored(_)));
    assert_eq!(actions(&audit), vec!["org.restored"]);
    let (out, audit) = restore_org(None, None, 30, t0());
    assert!(matches!(out, RestoreOutcome::NotFound) && audit.is_empty());
    let (out, _) = restore_org(None, Some(None), 30, t0());
    assert!(matches!(out, RestoreOutcome::NotDeleted));
    let (out, _) = restore_org(None, Some(Some(t0().plus_secs(-31 * 86_400))), 30, t0());
    assert!(matches!(out, RestoreOutcome::WindowExpired));
}

#[test]
fn the_last_owner_stays() {
    assert!(matches!(remove_member(None), RemoveStep::Refuse(RemoveOutcome::NotFound)));
    assert!(matches!(remove_member(Some("member")), RemoveStep::Delete));
    assert!(matches!(remove_member(Some("owner")), RemoveStep::CountOwners));
    assert!(matches!(remove_owner(1), RemoveStep::Refuse(RemoveOutcome::LastOwner)));
    assert!(matches!(remove_owner(2), RemoveStep::Delete));
}

#[test]
fn members_join_up_to_the_cap() {
    assert!(matches!(add_member(None, 5), AddMemberOutcome::AlreadyMember));
    assert!(matches!(add_member(Some(5), 5), AddMemberOutcome::Added));
    assert!(matches!(
        add_member(Some(6), 5),
        AddMemberOutcome::LimitReached { current: 5, limit: 5 }
    ));
}

#[test]
fn audit_entries_name_the_user() {
    let id: u128 = 0x0123_4567_89ab_cdef_0123_4567_89ab_cdef;
    let text = Uuid::from_u128(id).to_string();
    let gone = removal_audit(UserId(id));
    assert!(gone.fields.iter().any(|f| f.value == text));
    let added = addition_audit(UserId(id), Role::Owner);
    assert!(added.fields.iter().any(|f| f.value == text));
    assert!(added.fields.iter().any(|f| f.value == Role::Owner.as_db_str()));
    assert_ne!(gone.action, added.action);
}

#[test]
fn an_org_is_made_with_its_owner() {
    let made = create_org_with_owner(Some(row("a", "A")), true, 3).unwrap().unwrap();
    assert_eq!(made.0.slug, "a");
    assert!(create_org_with_owner(None, true, 3).unwrap().is_none());
    match create_org_with_owner(Some(row("a", "A")), false, 3) {
        Err(AppError::Unprocessable { code, message }) => {
            assert_eq!(code, "OWNER_ORG_LIMIT");
            assert_eq!(message, "user already owns the limit of 3 organizations");
        }
        other => panic!("expected a refusal, got {other:?}"),
    }
    assert_eq!(owner_org_count(-1), u32::MAX);
    assert_eq!(owner_org_count(2), 2);
}

#[test]
fn one_active_org_is_found_alone() {
    assert_eq!(find_lone_active_org(&vec![]), None);
    assert_eq!(find_lone_active_org(&vec![4]), Some(OrgId(4)));
    assert_eq!(find_lone_active_org(&vec![4, 5]), None);
}

#[test]
fn a_deleted_org_has_no_members() {
    let status = |role: &str, active: bool| membership_status(Some((role.to_string(), active)));
    assert_eq!(membership_status(None), MembershipStatus::Absent);
    assert_eq!(status("owner", true), MembershipStatus::Owner);
    assert_eq!(status("member", true), MembershipStatus::Member);
    assert_eq!(status("owner", false), MembershipStatus::Absent);
}

#[test]
fn rows_become_members_and_roles() {
    let m = MemberRow {
        user_id: 3,
        role: "owner".into(),
        created_at: t0(),
        email: "a@b.test".into(),
    }
    .into_view(OrgId(9));
    assert_eq!(m.membership.user_id, UserId(3));
    assert_eq!(m.membership.role, Role::Owner);
    assert_eq!(m.membership.org_id, OrgId(9));
    let o = OrgWithRoleRow { org: row("s", "N"), role: "member".into() }.into_dto();
    assert_eq!(o.role, Role::Member);
    assert_eq!(o.org.name, "N");
    assert_eq!(Role::from_db_str(Role::Owner.as_db_str()), Some(Role::Owner));
    assert_eq!(Role::from_db_str("guest"), None);
}

#[test]
fn the_signup_org_precedes_the_oldest() {
    let (a, b) = (OrgId(1), OrgId(2));
    assert_eq!(resolve_signup_org(Some(a), Some(b)), Some(a));
    assert_eq!(resolve_signup_org(None, Some(b)), Some(b));
    assert_eq!(resolve_signup_org(None, None), None);
}

#[test]
fn public_pages_resolve() {
    let p = public_page(Some((1, 2))).unwrap();
    assert_eq!((p.0.page, p.0.org), (StatusPageId(1), OrgId(2)));
    assert!(public_page(None).is_none());
    let lone = resolve_default_page_for_lone_org(Some(OrgId(2)), Some((1, true))).unwrap();
    assert_eq!(lone.page, StatusPageId(1));
    assert!(resolve_default_page_for_lone_org(Some(OrgId(2)), Some((1, false))).is_none());
    assert!(resolve_default_page_for_lone_org(None, Some((1, true))).is_none());
    assert!(resolve_default_page_for_lone_org(Some(OrgId(2)), None).is_none());
}

#[test]
fn a_brand_without_a_name_shows_the_org() {
    let brand = |display: Option<&str>| OrgBranding {
        name: "Org".into(),
        slug: "org".into(),
        branding: PublicOrgBranding {
            public_display_name: display.map(|s| s.to_string()),
            public_about: None,
            public_brand_color: None,
            logo_hash: None,
            public_show_powered_by: None,
            public_style: "default".into(),
        },
    };
    assert_eq!(brand(Some("Shown")).resolved_display_name(), "Shown");
    assert_eq!(brand(None).resolved_display_name(), "Org");
}
