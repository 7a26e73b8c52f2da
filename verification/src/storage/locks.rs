//! Keys of the Postgres advisory locks.
//!
//! Several flows guard a "count then write under a cap" sequence that is not
//! race-safe under READ COMMITTED on its own: they lock the subject, count, then
//! write, all in one transaction. The key is load-bearing: flows that must
//! serialise against each other have to hash the *same* string, and flows that
//! must not collide have to differ. This module is the single owner of the key
//! derivation:
//!
//! - [`org_lock_key`] — one org: member adds, invitations, target caps, account
//!   deletion's per-org freeze.
//! - [`user_lock_key`] — one user: owner-org and API-token caps.
//! - [`user_delete_lock_key`] — one user, in a namespace of its own so account
//!   deletion does not serialise against unrelated per-user cap writes.
//! - [`signup_lock_key`] — one global key for every signup.
//! - [`job_lock_key`] — one named background job.
//! - [`incident_lock_key`] — one incident's lifecycle.

use vstd::prelude::*;

use crate::ids::{
    lemma_uuid_text_injective, lemma_uuid_text_start, uuid_string, uuid_text, OrgId, UserId,
};
use crate::strings::owned;

verus! {

/// Lock key for a per-org critical section (membership / target caps, the
/// deletion-time membership freeze).
pub fn org_lock_key(org: OrgId) -> (r: String)
    ensures
        r@ == org_key(org),
        r@ == uuid_text(org.0),
{
    uuid_string(org.0)
}

/// Lock key for a per-user cap critical section (owner-org / API-token
/// counts).
pub fn user_lock_key(user: UserId) -> (r: String)
    ensures
        r@ == user_key(user),
        r@ == uuid_text(user.0),
{
    uuid_string(user.0)
}

/// Lock key for account deletion. Distinct namespace from [`user_lock_key`]
/// on purpose: deletion must not contend with unrelated per-user cap writes.
pub fn user_delete_lock_key(user: UserId) -> (r: String)
    ensures
        r@ == user_delete_key(user),
        r@ == "user_delete:"@ + uuid_text(user.0),
{
    let mut key = owned("user_delete:");
    key.append(uuid_string(user.0).as_str());
    key
}

/// Global lock key for the founding-plan signup cutoff. Every signup hashes
/// the same string, so they serialise while counting toward the first-N
/// founding cutoff and cannot overshoot it. Own namespace.
pub fn signup_lock_key() -> (r: &'static str)
    ensures
        r@ == signup_key(),
        r@ == "signup:founding"@,
{
    "signup:founding"
}

/// Lock key for a named background job. Distinct namespace from any
/// per-org / per-user keys so a job lock cannot accidentally collide with
/// user-flow critical sections.
pub fn job_lock_key(job: &str) -> (r: String)
    ensures
        r@ == job_key(job@),
        r@ == "job:"@ + job@,
{
    let mut key = owned("job:");
    key.append(job);
    key
}

/// Lock key for an incident's lifecycle critical section. Concurrent
/// acknowledge / assign / resolve / escalate must serialise on the same
/// incident so the state machine cannot be raced. Own namespace.
pub fn incident_lock_key(incident_id: u128) -> (r: String)
    ensures
        r@ == incident_key(incident_id),
        r@ == "incident:"@ + uuid_text(incident_id),
{
    let mut key = owned("incident:");
    key.append(uuid_string(incident_id).as_str());
    key
}

pub open spec fn org_key(org: OrgId) -> Seq<char> {
    uuid_text(org.0)
}

pub open spec fn user_key(user: UserId) -> Seq<char> {
    uuid_text(user.0)
}

pub open spec fn user_delete_key(user: UserId) -> Seq<char> {
    "user_delete:"@ + uuid_text(user.0)
}

pub open spec fn signup_key() -> Seq<char> {
    "signup:founding"@
}

pub open spec fn job_key(job: Seq<char>) -> Seq<char> {
    "job:"@ + job
}

pub open spec fn incident_key(incident_id: u128) -> Seq<char> {
    "incident:"@ + uuid_text(incident_id)
}

/// Keys of different namespaces never collide: bare ids, account deletion,
/// signup, jobs and incidents hash different strings whatever they name.
pub proof fn law_namespaces_are_disjoint(id: u128, user: UserId, job: Seq<char>, incident: u128)
    ensures
        uuid_text(id) != user_delete_key(user),
        uuid_text(id) != signup_key(),
        uuid_text(id) != job_key(job),
        uuid_text(id) != incident_key(incident),
        user_delete_key(user) != signup_key(),
        user_delete_key(user) != job_key(job),
        user_delete_key(user) != incident_key(incident),
        signup_key() != job_key(job),
        signup_key() != incident_key(incident),
        job_key(job) != incident_key(incident),
{
    lemma_uuid_text_start(id);
    reveal_strlit("user_delete:");
    reveal_strlit("signup:founding");
    reveal_strlit("job:");
    reveal_strlit("incident:");
    assert(user_delete_key(user)[0] == 'u');
    assert(signup_key()[0] == 's');
    assert(job_key(job)[0] == 'j');
    assert(incident_key(incident)[0] == 'i');
}

/// Within a namespace two subjects share a key only if they are the same.
pub proof fn law_keys_name_one_subject(a: u128, b: u128)
    ensures
        org_key(OrgId(a)) == org_key(OrgId(b)) ==> a == b,
        user_key(UserId(a)) == user_key(UserId(b)) ==> a == b,
        user_delete_key(UserId(a)) == user_delete_key(UserId(b)) ==> a == b,
        incident_key(a) == incident_key(b) ==> a == b,
{
    if uuid_text(a) == uuid_text(b) {
        lemma_uuid_text_injective(a, b);
    }
    let u = "user_delete:"@;
    let i = "incident:"@;
    if user_delete_key(UserId(a)) == user_delete_key(UserId(b)) {
        assert((u + uuid_text(a)).skip(u.len() as int) =~= uuid_text(a));
        assert((u + uuid_text(b)).skip(u.len() as int) =~= uuid_text(b));
    }
    if incident_key(a) == incident_key(b) {
        assert((i + uuid_text(a)).skip(i.len() as int) =~= uuid_text(a));
        assert((i + uuid_text(b)).skip(i.len() as int) =~= uuid_text(b));
    }
}

/// Two jobs share a key only if they have the same name.
pub proof fn law_job_keys_name_one_job(a: Seq<char>, b: Seq<char>)
    ensures
        job_key(a) == job_key(b) ==> a == b,
{
    let j = "job:"@;
    if job_key(a) == job_key(b) {
        assert((j + a).skip(j.len() as int) =~= a);
        assert((j + b).skip(j.len() as int) =~= b);
    }
}

} // verus!
