//! Heartbeat monitors: tokens, signals and the runs they time.

use status_monitor::crypto::token_hash;
use status_monitor::ids::{OrgId, UserId};
use status_monitor::storage::heartbeats::{
    exit_code_of, ping_state_of, run_ms_of, AcceptedRow, HeartbeatRow, InMemoryHeartbeatStore,
    PingSignal,
};
use status_monitor::storage::locks::{
    incident_lock_key, job_lock_key, org_lock_key, signup_lock_key, user_delete_lock_key,
    user_lock_key,
};
use status_monitor::time::{now, Timestamp};
use uuid::Uuid;

fn new_id() -> u128 {
    Uuid::new_v4().as_u128()
}

#[test]
fn ensure_is_idempotent_and_ping_round_trips() {
    let mut store = InMemoryHeartbeatStore::new();
    let org = OrgId(new_id());
    let target = new_id();
    let a = store.ensure(org, target, "first token");
    let b = store.ensure(org, target, "second token");
    assert_eq!(a.token, b.token, "repeated ensure must keep the token");
    assert!(a.last_ping_at.is_none());

    let ok = store
        .record_signal_by_token(a.token.as_deref().unwrap(), PingSignal::Success, None)
        .expect("token resolves");
    assert_eq!(ok.target_id, target);
    let read = store.get(org, target).unwrap();
    assert_eq!(read.last_ping_at, Some(ok.at));
    assert!(
        store
            .record_signal_by_token("nope", PingSignal::Success, None)
            .is_none(),
        "unknown tokens record nothing"
    );
}

#[test]
fn a_finish_measures_the_run_its_start_opened() {
    let mut store = InMemoryHeartbeatStore::new();
    let org = OrgId(new_id());
    let target = new_id();
    let token = store.ensure(org, target, "tok").token.unwrap();

    let started = store
        .record_signal_by_token(&token, PingSignal::Start, None)
        .unwrap();
    assert!(started.run_ms.is_none(), "a start closes nothing");
    assert!(started.state.run_open_since().is_some());

    let failed = store
        .record_signal_by_token(&token, PingSignal::Fail, Some(2))
        .unwrap();
    assert!(failed.run_ms.is_some(), "the fail closed the open run");
    assert_eq!(failed.state.failing().and_then(|f| f.exit_code), Some(2));
    assert!(failed.state.run_open_since().is_none());

    // Nothing is open now, so the next finish measures no run.
    let done = store
        .record_signal_by_token(&token, PingSignal::Success, None)
        .unwrap();
    assert!(done.run_ms.is_none(), "an unpaired finish times nothing");
    assert!(done.state.failing().is_none(), "success clears the failure");
}

#[test]
fn the_first_ping_of_any_signal_wires_the_monitor_up_once() {
    let mut store = InMemoryHeartbeatStore::new();
    let org = OrgId(new_id());
    let target = new_id();
    let fresh = store.ensure(org, target, "tok");
    assert!(
        fresh.first_ping_at.is_none(),
        "creating a monitor is not the job speaking"
    );

    // A start is the job speaking too, so it ends the pending state.
    let started = store
        .record_signal_by_token(fresh.token.as_deref().unwrap(), PingSignal::Start, None)
        .unwrap();
    let wired = store.get(org, target).unwrap().first_ping_at;
    assert_eq!(wired, Some(started.at));

    store
        .record_signal_by_token(fresh.token.as_deref().unwrap(), PingSignal::Success, None)
        .unwrap();
    assert_eq!(
        store.get(org, target).unwrap().first_ping_at,
        wired,
        "later pings leave the wired-up point alone"
    );
}

#[test]
fn removed_token_stops_recording() {
    let mut store = InMemoryHeartbeatStore::new();
    let org = OrgId(new_id());
    let target = new_id();
    let m = store.ensure(org, target, "tok");
    assert!(store.remove(org, target));
    assert!(store
        .record_signal_by_token(m.token.as_deref().unwrap(), PingSignal::Success, None)
        .is_none());
}

#[test]
fn an_out_of_range_exit_code_reads_as_unknown_not_success() {
    assert_eq!(exit_code_of(Some(137)), Some(137));
    assert_eq!(exit_code_of(Some(0)), Some(0));
    assert_eq!(exit_code_of(Some(256)), None);
    assert_eq!(exit_code_of(Some(-1)), None);
    assert_eq!(exit_code_of(None), None);
}

#[test]
fn the_anchor_is_the_later_of_arm_and_success() {
    let armed = now();
    let earlier = armed.plus_secs(-3_600);
    let later = armed.plus_secs(3_600);
    let at = |ping| ping_state_of(armed, ping, None, None, None).success_at;
    assert_eq!(at(None), armed);
    assert_eq!(at(Some(earlier)), armed);
    assert_eq!(at(Some(later)), later);
}

#[test]
fn a_re_arm_outranks_a_failure_recorded_before_it() {
    // Resume must not inherit the failure the pause froze.
    let armed = now();
    let state = ping_state_of(armed, None, None, Some(armed.plus_secs(-3_600)), Some(1));
    assert!(state.failing().is_none());
}

#[test]
fn a_run_is_timed_in_milliseconds() {
    let armed = Timestamp::from_secs(1_700_000_000);
    let opened = ping_state_of(armed, None, Some(armed.plus_secs(10)), None, None);
    let at = Timestamp::from_parts(1_700_000_012, 345_678_900);
    assert_eq!(run_ms_of(&opened, PingSignal::Success, at), Some(2_345));
    assert_eq!(run_ms_of(&opened, PingSignal::Start, at), None);
    assert_eq!(run_ms_of(&opened, PingSignal::Fail, armed), Some(0));
    let far = Timestamp::from_secs(1_800_000_000);
    assert_eq!(run_ms_of(&opened, PingSignal::Fail, far), Some(u32::MAX));
}

#[test]
fn stored_rows_read_back_as_monitors_and_pings() {
    let t = Timestamp::from_secs(1_700_000_000);
    let row = HeartbeatRow {
        last_ping_at: None,
        armed_at: t,
        first_ping_at: None,
        created_at: t,
        last_start_at: Some(t.plus_secs(5)),
        last_fail_at: None,
        last_exit_code: Some(300),
    };
    let m = row.into_monitor(Some("tok".to_string()));
    assert!(m.is_pending());
    assert_eq!(m.token.as_deref(), Some("tok"));
    assert_eq!(m.last_exit_code, None);
    assert_eq!(m.ping_state().run_open_since(), Some(t.plus_secs(5)));

    let accepted = AcceptedRow {
        org_id: OrgId(1),
        target_id: 2,
        armed_at: t,
        last_ping_at: Some(t.plus_secs(9)),
        last_start_at: Some(t.plus_secs(5)),
        last_fail_at: None,
        last_exit_code: None,
        prev_ping_at: None,
        prev_start_at: Some(t.plus_secs(5)),
        prev_fail_at: None,
        prev_armed_at: t,
        prev_first_ping_at: None,
        enabled: true,
    }
    .into_accepted(PingSignal::Success);
    assert_eq!(accepted.run_ms, Some(4_000));
    assert!(accepted.first);
    assert_eq!(accepted.at, t.plus_secs(9));
}

#[test]
fn signals_have_names_and_numbers() {
    assert_eq!(PingSignal::Start.as_str(), "start");
    assert_eq!(PingSignal::Success.as_str(), "success");
    assert_eq!(PingSignal::Fail.as_str(), "fail");
    assert!(!PingSignal::Start.is_finish());
    assert!(PingSignal::Success.is_finish());
    assert_eq!(PingSignal::Fail.as_enum8(), 3);
}

#[test]
fn tokens_are_stored_as_sha256_in_hex() {
    assert_eq!(
        token_hash("abc"),
        "ba7816bf8f01cfea414140de5dae2223b00361a396177a9cb410ff61f20015ad"
    );
}

#[test]
fn job_lock_key_is_namespaced_to_avoid_org_or_user_collisions() {
    let key = job_lock_key("retention");
    // The "job:" prefix is the namespace contract; org / user keys are
    // bare UUIDs and the user-delete key has its own "user_delete:"
    // prefix, so this layout guarantees no collision in the shared
    // 64-bit `hashtextextended` space.
    assert!(key.starts_with("job:"));
    assert_eq!(key, "job:retention");
}

#[test]
fn lock_keys_write_ids_as_uuids() {
    let id: u128 = 0x0123_4567_89ab_cdef_0123_4567_89ab_cdef;
    let text = Uuid::from_u128(id).to_string();
    assert_eq!(org_lock_key(OrgId(id)), text);
    assert_eq!(user_lock_key(UserId(id)), text);
    assert_eq!(user_delete_lock_key(UserId(id)), format!("user_delete:{text}"));
    assert_eq!(incident_lock_key(id), format!("incident:{text}"));
    assert_ne!(signup_lock_key(), job_lock_key("signup"));
}
