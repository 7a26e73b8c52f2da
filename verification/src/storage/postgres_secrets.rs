//! Credentials inside a stored `check_spec`: which slots hold them, how they are
//! sealed, opened and redacted.

use vstd::prelude::*;

use crate::collections::lemma_index_where;
use crate::json::{
    envelope_str, envelope_text, law_envelope_round_trip, law_replacing_a_slot_is_local, named,
    same_value, set_slot, slot_replaced, wrap_envelope, wraps, Json,
};
use crate::storage::variables::{is_envelope, is_sealed, law_an_envelope_is_told_by_its_mark};
use crate::strings::owned;
use crate::time::Timestamp;

verus! {

/// The first credential slot. A check's fields stand at the root of its JSON, and a
/// check without such a field has no such slot.
pub const BASIC_AUTH: &'static str = "basic_auth";

/// The second credential slot.
pub const BEARER_TOKEN: &'static str = "bearer_token";

/// The slot holds a sealed envelope already.
pub open spec fn already_sealed(v: Json) -> bool {
    envelope_text(v) matches Some(e) && is_sealed(e)
}

fn is_already_envelope(v: &Json) -> (r: bool)
    ensures
        r == already_sealed(*v),
{
    match envelope_str(v) {
        Some(e) => is_envelope(e),
        None => false,
    }
}

fn extract_envelope(v: &Json) -> (r: Option<String>)
    ensures
        match r {
            Some(s) => envelope_text(*v) == Some(s@),
            None => envelope_text(*v) is None,
        },
{
    match envelope_str(v) {
        Some(e) => Some(owned(e)),
        None => None,
    }
}

/// The slot holds a credential in the clear.
pub open spec fn wants_sealing(check: Json, key: Seq<char>) -> bool {
    check.slot(key) matches Some(v) && !already_sealed(v) && !(v is Null)
}

/// What sealing one slot does and returns, where `sealed` is what the cipher made
/// of the slot's bytes.
pub open spec fn slot_sealed(
    before: Json,
    after: Json,
    r: Result<(), String>,
    key: Seq<char>,
    sealed: Result<String, String>,
) -> bool {
    if wants_sealing(before, key) {
        match sealed {
            Ok(env) => r is Ok && exists|v: Json|
                #[trigger] slot_replaced(before, after, key, v) && v is Object && wraps(v, env@),
            Err(why) => after == before && (r matches Err(m) && m@
                == "credential encryption failed: "@ + why@),
        }
    } else {
        r is Ok && after == before
    }
}

fn seal_slot(check: &mut Json, key: &str, sealed: Result<String, String>) -> (r: Result<(), String>)
    ensures
        slot_sealed(*old(check), *final(check), r, key@, sealed),
{
    match check.get(key) {
        None => {
            return Ok(());
        },
        Some(v) => {
            if is_already_envelope(v) || v.is_null() {
                return Ok(());
            }
        },
    }
    match sealed {
        Ok(env) => {
            let wrapped = wrap_envelope(env);
            set_slot(check, key, wrapped);
            Ok(())
        },
        Err(why) => {
            let mut m = owned("credential encryption failed: ");
            m.append(why.as_str());
            Err(m)
        },
    }
}

/// The credential slots that sealing would replace.
pub fn slots_to_seal(check: &Json) -> (r: (bool, bool))
    ensures
        r.0 == wants_sealing(*check, BASIC_AUTH@),
        r.1 == wants_sealing(*check, BEARER_TOKEN@),
        r.0 == wants_sealing(*check, "basic_auth"@),
        r.1 == wants_sealing(*check, "bearer_token"@),
{
    let a = match check.get(BASIC_AUTH) {
        Some(v) => !is_already_envelope(v) && !v.is_null(),
        None => false,
    };
    let b = match check.get(BEARER_TOKEN) {
        Some(v) => !is_already_envelope(v) && !v.is_null(),
        None => false,
    };
    (a, b)
}

/// Sealing both slots, the first one first; a failure ends it.
pub open spec fn sealed_in_place(
    before: Json,
    after: Json,
    r: Result<(), String>,
    basic_auth: Result<String, String>,
    bearer_token: Result<String, String>,
) -> bool {
    exists|mid: Json, first: Result<(), String>|
        {
            &&& #[trigger] slot_sealed(before, mid, first, BASIC_AUTH@, basic_auth)
            &&& first is Err ==> after == mid && r == first
            &&& first is Ok ==> slot_sealed(mid, after, r, BEARER_TOKEN@, bearer_token)
        }
}

/// Seals the credentials of a check. Each argument is what the cipher made of that
/// slot's bytes; it is not looked at where the slot is absent, null or sealed
/// already.
pub fn encrypt_in_place(
    check: &mut Json,
    basic_auth: Result<String, String>,
    bearer_token: Result<String, String>,
) -> (r: Result<(), String>)
    ensures
        sealed_in_place(*old(check), *final(check), r, basic_auth, bearer_token),
{
    let ghost before = *check;
    let first = seal_slot(check, BASIC_AUTH, basic_auth);
    assert(slot_sealed(before, *check, first, BASIC_AUTH@, basic_auth));
    match first {
        Err(m) => Err(m),
        Ok(()) => seal_slot(check, BEARER_TOKEN, bearer_token),
    }
}

/// What opening an envelope came to.
#[derive(Debug)]
pub enum Opened {
    /// The value that was sealed.
    Value(Json),
    /// The cipher refused, and why.
    Refused(String),
    /// The opened bytes are no JSON.
    Malformed,
}

/// What opening one slot does and returns.
pub open spec fn slot_opened(
    before: Json,
    after: Json,
    r: Result<(), String>,
    key: Seq<char>,
    opened: Opened,
) -> bool {
    match before.slot(key) {
        Some(v) if envelope_text(v) is Some => match opened {
            Opened::Value(plain) => r is Ok && slot_replaced(before, after, key, plain),
            Opened::Refused(why) => after == before && (r matches Err(m) && m@
                == "credential decryption failed: "@ + why@),
            Opened::Malformed => after == before && (r matches Err(m) && m@
                == "decoding decrypted credential payload"@),
        },
        _ => r is Ok && after == before,
    }
}

fn open_slot(check: &mut Json, key: &str, opened: Opened) -> (r: Result<(), String>)
    ensures
        slot_opened(*old(check), *final(check), r, key@, opened),
{
    match check.get(key) {
        None => {
            return Ok(());
        },
        Some(v) => {
            if extract_envelope(v).is_none() {
                return Ok(());
            }
        },
    }
    match opened {
        Opened::Value(plain) => {
            set_slot(check, key, plain);
            Ok(())
        },
        Opened::Refused(why) => {
            let mut m = owned("credential decryption failed: ");
            m.append(why.as_str());
            Err(m)
        },
        Opened::Malformed => Err(owned("decoding decrypted credential payload")),
    }
}

/// The sealed text of each credential slot, where it holds one.
pub fn slots_to_open(check: &Json) -> (r: (Option<String>, Option<String>))
    ensures
        crate::strings::opt_view(r.0) == (match check.slot(BASIC_AUTH@) {
            Some(v) => envelope_text(v),
            None => None,
        }),
        crate::strings::opt_view(r.1) == (match check.slot(BEARER_TOKEN@) {
            Some(v) => envelope_text(v),
            None => None,
        }),
{
    let a = match check.get(BASIC_AUTH) {
        Some(v) => extract_envelope(v),
        None => None,
    };
    let b = match check.get(BEARER_TOKEN) {
        Some(v) => extract_envelope(v),
        None => None,
    };
    (a, b)
}

/// Opening both slots, the first one first; a failure ends it.
pub open spec fn opened_in_place(
    before: Json,
    after: Json,
    r: Result<(), String>,
    basic_auth: Opened,
    bearer_token: Opened,
) -> bool {
    exists|mid: Json, first: Result<(), String>|
        {
            &&& #[trigger] slot_opened(before, mid, first, BASIC_AUTH@, basic_auth)
            &&& first is Err ==> after == mid && r == first
            &&& first is Ok ==> slot_opened(mid, after, r, BEARER_TOKEN@, bearer_token)
        }
}

/// Opens the credentials of a check. Each argument is what opening that slot's
/// envelope came to; it is not looked at where the slot holds none.
pub fn decrypt_in_place(check: &mut Json, basic_auth: Opened, bearer_token: Opened) -> (r: Result<
    (),
    String,
>)
    ensures
        opened_in_place(*old(check), *final(check), r, basic_auth, bearer_token),
{
    let ghost before = *check;
    let first = open_slot(check, BASIC_AUTH, basic_auth);
    assert(slot_opened(before, *check, first, BASIC_AUTH@, basic_auth));
    match first {
        Err(m) => Err(m),
        Ok(()) => open_slot(check, BEARER_TOKEN, bearer_token),
    }
}

/// What redacting one slot does: a value that is set, sealed or not, becomes the
/// sentinel.
pub open spec fn slot_redacted(before: Json, after: Json, key: Seq<char>) -> bool {
    match before.slot(key) {
        Some(v) if !(v is Null) => exists|s: Json|
            #[trigger] slot_replaced(before, after, key, s) && s.text() == Some("***"@),
        _ => after == before,
    }
}

fn redact_slot(check: &mut Json, key: &str)
    ensures
        slot_redacted(*old(check), *final(check), key@),
{
    match check.get(key) {
        None => {
            return ;
        },
        Some(v) => {
            if v.is_null() {
                return ;
            }
        },
    }
    set_slot(check, key, Json::String(owned("***")));
}

/// Redacting both slots.
pub open spec fn redacted(before: Json, after: Json) -> bool {
    exists|mid: Json| #[trigger]
        slot_redacted(before, mid, BASIC_AUTH@) && slot_redacted(mid, after, BEARER_TOKEN@)
}

/// Overwrites every credential slot of a raw `check_spec` with the sentinel
/// `"***"`: the copy proves that a secret was set without disclosing it.
pub fn redact_credentials(check: &mut Json)
    ensures
        redacted(*old(check), *final(check)),
{
    let ghost before = *check;
    redact_slot(check, BASIC_AUTH);
    assert(slot_redacted(before, *check, BASIC_AUTH@));
    redact_slot(check, BEARER_TOKEN);
}

/// The credential-bearing target columns exactly as they sit at rest.
#[derive(Debug)]
pub struct RawTargetRow {
    pub id: u128,
    pub name: String,
    pub check_spec: Json,
    pub interval_secs: i32,
    pub enabled: bool,
    pub tags: Vec<String>,
    pub group_name: Option<String>,
    pub owner_user_id: Option<u128>,
    pub created_at: Timestamp,
    pub updated_at: Timestamp,
}

/// A target row whose credentials have been replaced with `"***"`. Its only
/// constructor redacts.
#[derive(Debug)]
pub struct RedactedTarget {
    pub id: u128,
    pub name: String,
    /// `check_spec` with every credential slot forced to `"***"`.
    pub check: Json,
    pub interval_secs: i32,
    pub enabled: bool,
    pub tags: Vec<String>,
    pub group_name: Option<String>,
    pub owner_user_id: Option<u128>,
    pub created_at: Timestamp,
    pub updated_at: Timestamp,
    /// Non-null while the target is soft-deleted but not yet purged.
    pub deleted_at: Option<Timestamp>,
}

impl RedactedTarget {
    /// Redacts the at-rest credential slots and stamps the target with the
    /// lifecycle state that governs it.
    pub fn from_row(row: RawTargetRow, deleted_at: Option<Timestamp>) -> (r: Self)
        ensures
            redacted(row.check_spec, r.check),
            r == (RedactedTarget {
                id: row.id,
                name: row.name,
                check: r.check,
                interval_secs: row.interval_secs,
                enabled: row.enabled,
                tags: row.tags,
                group_name: row.group_name,
                owner_user_id: row.owner_user_id,
                created_at: row.created_at,
                updated_at: row.updated_at,
                deleted_at,
            }),
    {
        let mut check = row.check_spec;
        redact_credentials(&mut check);
        RedactedTarget {
            id: row.id,
            name: row.name,
            check,
            interval_secs: row.interval_secs,
            enabled: row.enabled,
            tags: row.tags,
            group_name: row.group_name,
            owner_user_id: row.owner_user_id,
            created_at: row.created_at,
            updated_at: row.updated_at,
            deleted_at,
        }
    }
}

proof fn lemma_slots_differ()
    ensures
        BASIC_AUTH@ != BEARER_TOKEN@,
{
    reveal_strlit("basic_auth");
    reveal_strlit("bearer_token");
    assert(BASIC_AUTH@.len() != BEARER_TOKEN@.len());
}

/// Sealing a slot that wants it and then opening the envelope with what was sealed
/// gives the credential back, and no other member changes on the way.
pub proof fn law_seal_then_open(
    before: Json,
    sealed: Json,
    after: Json,
    key: Seq<char>,
    env: String,
    plain: Json,
    r1: Result<(), String>,
    r2: Result<(), String>,
    other: Seq<char>,
)
    requires
        wants_sealing(before, key),
        before.slot(key) == Some(plain),
        slot_sealed(before, sealed, r1, key, Ok(env)),
        slot_opened(sealed, after, r2, key, Opened::Value(plain)),
        other != key,
    ensures
        r1 is Ok,
        r2 is Ok,
        envelope_text(sealed.slot(key)->Some_0) == Some(env@),
        after.slot(key) == before.slot(key),
        sealed.slot(other) == before.slot(other),
        after.slot(other) == before.slot(other),
{
    let v = choose|v: Json| #[trigger]
        slot_replaced(before, sealed, key, v) && v is Object && wraps(v, env@);
    law_replacing_a_slot_is_local(before, sealed, key, v, other);
    law_envelope_round_trip(v, env@);
    law_replacing_a_slot_is_local(sealed, after, key, plain, other);
}

/// The slot holds no envelope object.
pub open spec fn in_the_clear(check: Json, key: Seq<char>) -> bool {
    check.slot(key) matches Some(v) ==> envelope_text(v) is None
}

/// What the cipher makes of the envelope in a slot, where the slot holds one.
pub open spec fn opened_by(check: Json, key: Seq<char>, opens: spec_fn(Seq<char>) -> Opened) -> Opened {
    match check.slot(key) {
        Some(v) => match envelope_text(v) {
            Some(env) => opens(env),
            None => Opened::Malformed,
        },
        None => Opened::Malformed,
    }
}

/// The credential in a slot.
pub open spec fn credential(check: Json, key: Seq<char>) -> Option<Json> {
    match check.slot(key) {
        Some(v) if !(v is Null) => Some(v),
        _ => None,
    }
}

proof fn lemma_sealed_slot(
    before: Json,
    after: Json,
    r: Result<(), String>,
    key: Seq<char>,
    env: String,
    other: Seq<char>,
)
    requires
        in_the_clear(before, key),
        slot_sealed(before, after, r, key, Ok(env)),
        other != key,
    ensures
        r is Ok,
        after.slot(other) == before.slot(other),
        after.slot_at(other) == before.slot_at(other),
        after.slot_at(key) == before.slot_at(key),
        credential(before, key) is None ==> after == before,
        credential(before, key) is Some ==> {
            &&& after is Object
            &&& after.slot(key) matches Some(v) && envelope_text(v) == Some(env@)
            &&& slot_replaced(before, after, key, after.slot(key)->Some_0)
        },
{
    if wants_sealing(before, key) {
        let v = choose|v: Json| #[trigger]
            slot_replaced(before, after, key, v) && v is Object && wraps(v, env@);
        law_replacing_a_slot_is_local(before, after, key, v, other);
        law_envelope_round_trip(v, env@);
    }
}

/// Sealing the credentials of a check that holds them in the clear succeeds where the
/// cipher does, and opening the result with a cipher that gives back what was sealed
/// restores the whole check: both slots, and every other member.
pub proof fn law_encrypt_then_decrypt(
    before: Json,
    sealed: Json,
    after: Json,
    r1: Result<(), String>,
    r2: Result<(), String>,
    env_a: String,
    env_b: String,
    opens: spec_fn(Seq<char>) -> Opened,
)
    requires
        in_the_clear(before, BASIC_AUTH@),
        in_the_clear(before, BEARER_TOKEN@),
        sealed_in_place(before, sealed, r1, Ok(env_a), Ok(env_b)),
        credential(before, BASIC_AUTH@) matches Some(v) ==> opens(env_a@) == Opened::Value(v),
        credential(before, BEARER_TOKEN@) matches Some(v) ==> opens(env_b@) == Opened::Value(v),
        opened_in_place(
            sealed,
            after,
            r2,
            opened_by(sealed, BASIC_AUTH@, opens),
            opened_by(sealed, BEARER_TOKEN@, opens),
        ),
    ensures
        r1 is Ok,
        r2 is Ok,
        same_value(after, before),
{
    lemma_slots_differ();
    let (ka, kb) = (BASIC_AUTH@, BEARER_TOKEN@);
    let (mid, first) = choose|mid: Json, first: Result<(), String>|
        {
            &&& #[trigger] slot_sealed(before, mid, first, ka, Ok(env_a))
            &&& first is Err ==> sealed == mid && r1 == first
            &&& first is Ok ==> slot_sealed(mid, sealed, r1, kb, Ok(env_b))
        };
    lemma_sealed_slot(before, mid, first, ka, env_a, kb);
    lemma_sealed_slot(mid, sealed, r1, kb, env_b, ka);
    let (oa, ob) = (opened_by(sealed, ka, opens), opened_by(sealed, kb, opens));
    let (half, second) = choose|half: Json, second: Result<(), String>|
        {
            &&& #[trigger] slot_opened(sealed, half, second, ka, oa)
            &&& second is Err ==> after == half && r2 == second
            &&& second is Ok ==> slot_opened(half, after, r2, kb, ob)
        };
    let m = before.members();
    if credential(before, ka) is Some {
        let i = before.slot_at(ka)->Some_0;
        lemma_index_where(m, named(ka));
        law_replacing_a_slot_is_local(sealed, half, ka, before.slot(ka)->Some_0, kb);
        assert(before is Object);
    }
    if credential(before, kb) is Some {
        let j = before.slot_at(kb)->Some_0;
        lemma_index_where(m, named(kb));
        law_replacing_a_slot_is_local(half, after, kb, before.slot(kb)->Some_0, ka);
        assert(before is Object);
    }
    if before.slot_at(ka) is Some && before.slot_at(kb) is Some {
        lemma_index_where(m, named(ka));
        lemma_index_where(m, named(kb));
        assert(named(ka)(m[before.slot_at(ka)->Some_0]));
        assert(named(kb)(m[before.slot_at(kb)->Some_0]));
        assert(before.slot_at(ka) != before.slot_at(kb));
    }
    if credential(before, ka) is Some || credential(before, kb) is Some {
        assert(after.members() =~= m);
    }
}

/// Opening fails where the cipher does not give back a credential that was sealed, as
/// one with another key does not.
pub proof fn law_a_refused_credential_is_an_error(
    before: Json,
    sealed: Json,
    after: Json,
    r1: Result<(), String>,
    r2: Result<(), String>,
    env_a: String,
    env_b: String,
    opens: spec_fn(Seq<char>) -> Opened,
)
    requires
        in_the_clear(before, BASIC_AUTH@),
        in_the_clear(before, BEARER_TOKEN@),
        sealed_in_place(before, sealed, r1, Ok(env_a), Ok(env_b)),
        opened_in_place(
            sealed,
            after,
            r2,
            opened_by(sealed, BASIC_AUTH@, opens),
            opened_by(sealed, BEARER_TOKEN@, opens),
        ),
    ensures
        credential(before, BASIC_AUTH@) is Some && !(opens(env_a@) is Value) ==> r2 is Err,
        credential(before, BEARER_TOKEN@) is Some && !(opens(env_b@) is Value) ==> r2 is Err,
{
    lemma_slots_differ();
    let (ka, kb) = (BASIC_AUTH@, BEARER_TOKEN@);
    let (mid, first) = choose|mid: Json, first: Result<(), String>|
        {
            &&& #[trigger] slot_sealed(before, mid, first, ka, Ok(env_a))
            &&& first is Err ==> sealed == mid && r1 == first
            &&& first is Ok ==> slot_sealed(mid, sealed, r1, kb, Ok(env_b))
        };
    lemma_sealed_slot(before, mid, first, ka, env_a, kb);
    lemma_sealed_slot(mid, sealed, r1, kb, env_b, ka);
    let (oa, ob) = (opened_by(sealed, ka, opens), opened_by(sealed, kb, opens));
    let (half, second) = choose|half: Json, second: Result<(), String>|
        {
            &&& #[trigger] slot_opened(sealed, half, second, ka, oa)
            &&& second is Err ==> after == half && r2 == second
            &&& second is Ok ==> slot_opened(half, after, r2, kb, ob)
        };
    if second is Ok && credential(before, ka) is Some {
        law_replacing_a_slot_is_local(sealed, half, ka, oa->Value_0, kb);
    }
}

/// A slot that was sealed is not sealed again.
pub proof fn law_sealing_is_idempotent(
    before: Json,
    sealed: Json,
    key: Seq<char>,
    env: String,
    r: Result<(), String>,
)
    requires
        slot_sealed(before, sealed, r, key, Ok(env)),
        is_sealed(env@),
    ensures
        !wants_sealing(sealed, key),
{
    if wants_sealing(before, key) {
        let v = choose|v: Json| #[trigger]
            slot_replaced(before, sealed, key, v) && v is Object && wraps(v, env@);
        assert(key.push('x').len() != key.len());
        law_replacing_a_slot_is_local(before, sealed, key, v, key.push('x'));
        law_envelope_round_trip(v, env@);
    }
}

/// After redaction a credential slot holds the sentinel, null, or does not exist;
/// every other member is as it was.
pub proof fn law_redaction_leaves_no_credential(before: Json, after: Json, other: Seq<char>)
    requires
        redacted(before, after),
        other != BASIC_AUTH@,
        other != BEARER_TOKEN@,
    ensures
        after.slot(BASIC_AUTH@) matches Some(v) ==> v is Null || v.text() == Some("***"@),
        after.slot(BEARER_TOKEN@) matches Some(v) ==> v is Null || v.text() == Some("***"@),
        after.slot(BASIC_AUTH@) is Some <==> before.slot(BASIC_AUTH@) is Some,
        after.slot(BEARER_TOKEN@) is Some <==> before.slot(BEARER_TOKEN@) is Some,
        after.slot(other) == before.slot(other),
{
    lemma_slots_differ();
    let mid = choose|mid: Json| #[trigger]
        slot_redacted(before, mid, BASIC_AUTH@) && slot_redacted(mid, after, BEARER_TOKEN@);
    let wants_a = before.slot(BASIC_AUTH@) is Some && !(before.slot(BASIC_AUTH@)->Some_0 is Null);
    if wants_a {
        let s = choose|s: Json| #[trigger]
            slot_replaced(before, mid, BASIC_AUTH@, s) && s.text() == Some("***"@);
        law_replacing_a_slot_is_local(before, mid, BASIC_AUTH@, s, BEARER_TOKEN@);
        law_replacing_a_slot_is_local(before, mid, BASIC_AUTH@, s, other);
    }
    let wants_b = mid.slot(BEARER_TOKEN@) is Some && !(mid.slot(BEARER_TOKEN@)->Some_0 is Null);
    if wants_b {
        let s = choose|s: Json| #[trigger]
            slot_replaced(mid, after, BEARER_TOKEN@, s) && s.text() == Some("***"@);
        law_replacing_a_slot_is_local(mid, after, BEARER_TOKEN@, s, BASIC_AUTH@);
        law_replacing_a_slot_is_local(mid, after, BEARER_TOKEN@, s, other);
    }
}

/// A slot wants sealing where it is there, is not null, and does not hold an envelope object
/// around text that carries the seal's mark.
pub proof fn law_what_wants_sealing(check: Json, key: Seq<char>)
    ensures
        check.slot(key) is None ==> !wants_sealing(check, key),
        check.slot(key) matches Some(v) ==> (wants_sealing(check, key) <==> !(v is Null) && (
        envelope_text(v) matches Some(e) ==> !(e.len() >= 3 && e[0] == 'v' && e[1] == '1' && e[2]
            == ':'))),
{
    if let Some(v) = check.slot(key) {
        if let Some(e) = envelope_text(v) {
            law_an_envelope_is_told_by_its_mark(e);
        }
    }
}

/// A credential that is set reads as three stars once it is redacted, one that is null stays
/// null.
pub proof fn law_redaction_stars_what_is_set(before: Json, after: Json, second: bool)
    requires
        redacted(before, after),
    ensures
        ({
            let key = if second {
                "bearer_token"@
            } else {
                "basic_auth"@
            };
            before.slot(key) matches Some(v) ==> {
                &&& !(v is Null) ==> (after.slot(key) matches Some(s) && s.text() == Some("***"@))
                &&& v is Null ==> after.slot(key) == Some(v)
            }
        }),
{
    lemma_slots_differ();
    let (ka, kb) = (BASIC_AUTH@, BEARER_TOKEN@);
    let mid = choose|mid: Json| #[trigger]
        slot_redacted(before, mid, ka) && slot_redacted(mid, after, kb);
    if before.slot(ka) is Some && !(before.slot(ka)->Some_0 is Null) {
        let s = choose|s: Json| #[trigger]
            slot_replaced(before, mid, ka, s) && s.text() == Some("***"@);
        law_replacing_a_slot_is_local(before, mid, ka, s, kb);
    }
    if mid.slot(kb) is Some && !(mid.slot(kb)->Some_0 is Null) {
        let s = choose|s: Json| #[trigger]
            slot_replaced(mid, after, kb, s) && s.text() == Some("***"@);
        law_replacing_a_slot_is_local(mid, after, kb, s, ka);
    }
}

/// Where the cipher fails on the first credential, nothing of the check is sealed and the error
/// says why; where it fails on the second, the error says that.
pub proof fn law_a_failed_cipher_is_told(
    before: Json,
    after: Json,
    r: Result<(), String>,
    a: Result<String, String>,
    b: Result<String, String>,
)
    requires
        sealed_in_place(before, after, r, a, b),
        in_the_clear(before, "basic_auth"@),
        in_the_clear(before, "bearer_token"@),
    ensures
        credential(before, "basic_auth"@) is Some && a is Err ==> after == before && (r matches Err(
            m,
        ) && m@ == "credential encryption failed: "@ + a->Err_0@),
        a is Ok && credential(before, "bearer_token"@) is Some && b is Err ==> (r matches Err(m)
            && m@ == "credential encryption failed: "@ + b->Err_0@),
        a is Ok && b is Ok ==> r is Ok,
        credential(before, "basic_auth"@) is None && credential(before, "bearer_token"@) is None
            ==> r is Ok && after == before,
{
    lemma_slots_differ();
    let (ka, kb) = (BASIC_AUTH@, BEARER_TOKEN@);
    let (mid, first) = choose|mid: Json, first: Result<(), String>|
        {
            &&& #[trigger] slot_sealed(before, mid, first, ka, a)
            &&& first is Err ==> after == mid && r == first
            &&& first is Ok ==> slot_sealed(mid, after, r, kb, b)
        };
    if let Ok(env) = a {
        lemma_sealed_slot(before, mid, first, ka, env, kb);
    }
}

/// A credential whose envelope the cipher refuses, or whose opened bytes are no value, is an
/// error that says so; the second is looked at only where the first was opened.
pub proof fn law_a_failed_opening_is_told(
    before: Json,
    after: Json,
    r: Result<(), String>,
    a: Opened,
    b: Opened,
    env: Json,
)
    requires
        opened_in_place(before, after, r, a, b),
        before.slot("basic_auth"@) == Some(env),
        envelope_text(env) is Some,
    ensures
        a matches Opened::Refused(why) ==> after == before && (r matches Err(m) && m@
            == "credential decryption failed: "@ + why@),
        a matches Opened::Malformed ==> after == before && (r matches Err(m) && m@
            == "decoding decrypted credential payload"@),
        a is Value && before.slot("bearer_token"@) is None ==> r is Ok && slot_replaced(
            before,
            after,
            "basic_auth"@,
            a->Value_0,
        ),
{
    lemma_slots_differ();
    let (ka, kb) = (BASIC_AUTH@, BEARER_TOKEN@);
    let (mid, first) = choose|mid: Json, first: Result<(), String>|
        {
            &&& #[trigger] slot_opened(before, mid, first, ka, a)
            &&& first is Err ==> after == mid && r == first
            &&& first is Ok ==> slot_opened(mid, after, r, kb, b)
        };
    if a is Value {
        law_replacing_a_slot_is_local(before, mid, ka, a->Value_0, kb);
    }
}

} // verus!
