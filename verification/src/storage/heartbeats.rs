//! `heartbeat_monitors`: inbound ping state per heartbeat-kind target. The
//! SHA-256 hex of a token is its lookup key.

use vstd::prelude::*;

use crate::collections::{
    index_where, lemma_filter_members, lemma_index_where, lemma_index_where_is,
    lemma_index_where_none, position, retain,
};
use crate::crypto::{token_hash, token_key};
use crate::ids::OrgId;
use crate::strings::{opt_clone, owned, str_eq};
use crate::time::{floor_div, later, later_of, now, Timestamp, NANOS_PER_MILLI};

verus! {

/// What a job reports of its run.
#[derive(Debug, Clone, Copy, PartialEq, Eq, Structural)]
pub enum PingSignal {
    Start,
    Success,
    Fail,
}

impl PingSignal {
    pub open spec fn name(self) -> Seq<char> {
        match self {
            PingSignal::Start => "start"@,
            PingSignal::Success => "success"@,
            PingSignal::Fail => "fail"@,
        }
    }

    pub fn as_str(self) -> (r: &'static str)
        ensures
            r@ == self.name(),
            match self {
                PingSignal::Start => r@ == "start"@,
                PingSignal::Success => r@ == "success"@,
                PingSignal::Fail => r@ == "fail"@,
            },
    {
        match self {
            PingSignal::Start => "start",
            PingSignal::Success => "success",
            PingSignal::Fail => "fail",
        }
    }

    /// The number the signal is stored as.
    pub open spec fn number(self) -> i8 {
        match self {
            PingSignal::Start => 1,
            PingSignal::Success => 2,
            PingSignal::Fail => 3,
        }
    }

    /// The number the signal is stored as.
    pub fn as_enum8(self) -> (r: i8)
        ensures
            r == self.number(),
            match self {
                PingSignal::Start => r == 1,
                PingSignal::Success => r == 2,
                PingSignal::Fail => r == 3,
            },
    {
        match self {
            PingSignal::Start => 1,
            PingSignal::Success => 2,
            PingSignal::Fail => 3,
        }
    }

    /// The signal ends a run.
    pub fn is_finish(self) -> (r: bool)
        ensures
            r == (self != PingSignal::Start),
    {
        match self {
            PingSignal::Start => false,
            _ => true,
        }
    }
}

/// A run that failed.
#[derive(Debug, Clone, Copy, PartialEq, Eq, Structural)]
pub struct Failure {
    pub at: Timestamp,
    pub exit_code: Option<u8>,
}

/// What a monitor's pings add up to.
#[derive(Debug, Clone, Copy, PartialEq, Eq, Structural)]
pub struct PingState {
    /// Later of the last success and the point from which silence counts.
    pub success_at: Timestamp,
    pub start_at: Option<Timestamp>,
    pub fail: Option<Failure>,
}

impl PingState {
    /// When the run that is under way began: the last start, unless a success or a
    /// failure came after it.
    pub open spec fn open_since(self) -> Option<Timestamp> {
        match self.start_at {
            Some(s) if s.nanos >= self.success_at.nanos && (self.fail matches Some(f) ==> f.at.nanos
                < s.nanos) => Some(s),
            _ => None,
        }
    }

    /// The failure that stands: one that came after the last success and re-arm.
    pub open spec fn standing_failure(self) -> Option<Failure> {
        match self.fail {
            Some(f) if f.at.nanos > self.success_at.nanos => Some(f),
            _ => None,
        }
    }

    pub fn run_open_since(&self) -> (r: Option<Timestamp>)
        ensures
            r == self.open_since(),
    {
        match self.start_at {
            Some(s) => {
                let failed_since = match self.fail {
                    Some(f) => f.at.nanos >= s.nanos,
                    None => false,
                };
                if s.nanos >= self.success_at.nanos && !failed_since {
                    Some(s)
                } else {
                    None
                }
            },
            None => None,
        }
    }

    pub fn failing(&self) -> (r: Option<Failure>)
        ensures
            r == self.standing_failure(),
    {
        match self.fail {
            Some(f) => {
                if f.at.nanos > self.success_at.nanos {
                    Some(f)
                } else {
                    None
                }
            },
            None => None,
        }
    }
}

/// A heartbeat monitor.
#[derive(Debug)]
pub struct HeartbeatMonitor {
    /// `None` when the stored copy can't be opened.
    pub token: Option<String>,
    /// Last *success*. A `/start` must not hold a monitor up while the job it
    /// announced hangs, so it lives in `last_start_at` instead.
    pub last_ping_at: Option<Timestamp>,
    /// Silence-window start: creation, the wiring ping, every disabled→enabled
    /// flip. A failing wiring ping does not move it, or the failure it carries
    /// would be cleared by the ping that recorded it.
    pub armed_at: Timestamp,
    /// Wired-up point: the first ping of any signal, never cleared. `None`
    /// means the job has never spoken, which is not the same as silent.
    pub first_ping_at: Option<Timestamp>,
    pub created_at: Timestamp,
    pub last_start_at: Option<Timestamp>,
    pub last_fail_at: Option<Timestamp>,
    pub last_exit_code: Option<u8>,
}

impl Clone for HeartbeatMonitor {
    fn clone(&self) -> (r: Self)
        ensures
            r == *self,
    {
        HeartbeatMonitor {
            token: opt_clone(&self.token),
            last_ping_at: self.last_ping_at,
            armed_at: self.armed_at,
            first_ping_at: self.first_ping_at,
            created_at: self.created_at,
            last_start_at: self.last_start_at,
            last_fail_at: self.last_fail_at,
            last_exit_code: self.last_exit_code,
        }
    }
}

impl HeartbeatMonitor {
    /// What the monitor's pings add up to.
    pub open spec fn state(self) -> PingState {
        state_of(
            self.armed_at,
            self.last_ping_at,
            self.last_start_at,
            self.last_fail_at,
            self.last_exit_code,
        )
    }

    /// No ping of any signal yet: not evaluated, not alerting, no data. Single
    /// owner of the rule, since the API projection and the badge both ask.
    pub fn is_pending(&self) -> (r: bool)
        ensures
            r == (self.first_ping_at is None),
    {
        self.first_ping_at.is_none()
    }

    pub fn ping_state(&self) -> (r: PingState)
        ensures
            r == self.state(),
    {
        ping_state_of(
            self.armed_at,
            self.last_ping_at,
            self.last_start_at,
            self.last_fail_at,
            self.last_exit_code,
        )
    }
}

/// Anchors on the later of the last success and the re-arm point, so a
/// pause/resume can't inherit stale silence or a stale failure.
pub open spec fn state_of(
    armed_at: Timestamp,
    last_ping_at: Option<Timestamp>,
    last_start_at: Option<Timestamp>,
    last_fail_at: Option<Timestamp>,
    last_exit_code: Option<u8>,
) -> PingState {
    PingState {
        success_at: match last_ping_at {
            Some(p) => later(p, armed_at),
            None => armed_at,
        },
        start_at: last_start_at,
        fail: match last_fail_at {
            Some(at) => Some(Failure { at, exit_code: last_exit_code }),
            None => None,
        },
    }
}

/// Anchors on the later of the last success and the re-arm point.
pub fn ping_state_of(
    armed_at: Timestamp,
    last_ping_at: Option<Timestamp>,
    last_start_at: Option<Timestamp>,
    last_fail_at: Option<Timestamp>,
    last_exit_code: Option<u8>,
) -> (r: PingState)
    ensures
        r == state_of(armed_at, last_ping_at, last_start_at, last_fail_at, last_exit_code),
{
    PingState {
        success_at: match last_ping_at {
            Some(p) => later_of(p, armed_at),
            None => armed_at,
        },
        start_at: last_start_at,
        fail: match last_fail_at {
            Some(at) => Some(Failure { at, exit_code: last_exit_code }),
            None => None,
        },
    }
}

/// A CHECK keeps the column in range, so anything outside it is corruption:
/// truncating would read 256 back as 0, reporting a failed run as a clean exit.
pub open spec fn exit_code(stored: Option<i16>) -> Option<u8> {
    match stored {
        Some(c) if 0 <= c <= 255 => Some(c as u8),
        _ => None,
    }
}

/// The exit code that a stored number stands for.
pub fn exit_code_of(stored: Option<i16>) -> (r: Option<u8>)
    ensures
        r == exit_code(stored),
{
    match stored {
        Some(c) => {
            if 0 <= c && c <= 255 {
                Some(c as u8)
            } else {
                None
            }
        },
        None => None,
    }
}

/// Whole milliseconds from `from` to `to`, at least zero and at most what 32 bits
/// hold.
pub open spec fn elapsed_ms(from: Timestamp, to: Timestamp) -> u32 {
    let ms = (to.nanos - from.nanos) / NANOS_PER_MILLI as int;
    if to.nanos <= from.nanos {
        0
    } else if ms > u32::MAX {
        u32::MAX
    } else {
        ms as u32
    }
}

/// How long the run took that the signal ended.
pub open spec fn run_ms(prev: PingState, signal: PingSignal, at: Timestamp) -> Option<u32> {
    if signal == PingSignal::Start {
        None
    } else {
        match prev.open_since() {
            Some(started) => Some(elapsed_ms(started, at)),
            None => None,
        }
    }
}

/// Measured against the state as it stood *before* the signal landed.
/// Saturates: a run open past 49 days is a stuck job, not a negative duration.
pub fn run_ms_of(prev: &PingState, signal: PingSignal, at: Timestamp) -> (r: Option<u32>)
    requires
        at.wf(),
        prev.start_at matches Some(s) ==> s.wf(),
    ensures
        r == run_ms(*prev, signal, at),
{
    if !signal.is_finish() {
        return None;
    }
    match prev.run_open_since() {
        Some(started) => {
            if at.nanos <= started.nanos {
                return Some(0);
            }
            let span: i128 = at.nanos - started.nanos;
            let ms: i128 = floor_div(span, NANOS_PER_MILLI);
            if ms > u32::MAX as i128 {
                Some(u32::MAX)
            } else {
                Some(ms as u32)
            }
        },
        None => None,
    }
}

/// A ping that was accepted.
#[derive(Debug, Clone, Copy, PartialEq, Eq, Structural)]
pub struct PingAccepted {
    pub org_id: OrgId,
    pub target_id: u128,
    pub at: Timestamp,
    pub state: PingState,
    /// `None` on a start, and on a finish whose start never arrived.
    pub run_ms: Option<u32>,
    /// The signal that ended the pending wait. Nothing else reports on this
    /// monitor yet: it reaches the registry a refresh from now.
    pub first: bool,
    /// A paused monitor still accepts pings but reports no health.
    pub enabled: bool,
}

/// A stored monitor, its token still sealed.
#[derive(Debug)]
pub struct HeartbeatRow {
    pub last_ping_at: Option<Timestamp>,
    pub armed_at: Timestamp,
    pub first_ping_at: Option<Timestamp>,
    pub created_at: Timestamp,
    pub last_start_at: Option<Timestamp>,
    pub last_fail_at: Option<Timestamp>,
    pub last_exit_code: Option<i16>,
}

impl HeartbeatRow {
    /// The monitor that the row stands for, with the token that its sealed copy
    /// opened to.
    pub fn into_monitor(self, token: Option<String>) -> (r: HeartbeatMonitor)
        ensures
            r == (HeartbeatMonitor {
                token,
                last_ping_at: self.last_ping_at,
                armed_at: self.armed_at,
                first_ping_at: self.first_ping_at,
                created_at: self.created_at,
                last_start_at: self.last_start_at,
                last_fail_at: self.last_fail_at,
                last_exit_code: exit_code(self.last_exit_code),
            }),
    {
        HeartbeatMonitor {
            token,
            last_ping_at: self.last_ping_at,
            armed_at: self.armed_at,
            first_ping_at: self.first_ping_at,
            created_at: self.created_at,
            last_start_at: self.last_start_at,
            last_fail_at: self.last_fail_at,
            last_exit_code: exit_code_of(self.last_exit_code),
        }
    }
}

/// What the statement that records a ping returns: the row after it, and the one
/// before it.
#[derive(Debug, Clone, Copy, PartialEq, Eq, Structural)]
pub struct AcceptedRow {
    pub org_id: OrgId,
    pub target_id: u128,
    pub armed_at: Timestamp,
    pub last_ping_at: Option<Timestamp>,
    pub last_start_at: Option<Timestamp>,
    pub last_fail_at: Option<Timestamp>,
    pub last_exit_code: Option<i16>,
    pub prev_ping_at: Option<Timestamp>,
    pub prev_start_at: Option<Timestamp>,
    pub prev_fail_at: Option<Timestamp>,
    pub prev_armed_at: Timestamp,
    pub prev_first_ping_at: Option<Timestamp>,
    pub enabled: bool,
}

impl AcceptedRow {
    /// Every instant in the row lies within the calendar.
    pub open spec fn wf(self) -> bool {
        &&& self.armed_at.wf()
        &&& self.last_ping_at matches Some(t) ==> t.wf()
        &&& self.last_start_at matches Some(t) ==> t.wf()
        &&& self.last_fail_at matches Some(t) ==> t.wf()
        &&& self.prev_start_at matches Some(t) ==> t.wf()
    }

    /// What the row says of the monitor after the ping.
    pub open spec fn state(self) -> PingState {
        state_of(
            self.armed_at,
            self.last_ping_at,
            self.last_start_at,
            self.last_fail_at,
            exit_code(self.last_exit_code),
        )
    }

    /// When the ping was accepted: whichever column the statement's clock wrote.
    pub open spec fn accepted_at(self, signal: PingSignal) -> Timestamp {
        let column = match signal {
            PingSignal::Start => self.last_start_at,
            PingSignal::Success => self.last_ping_at,
            PingSignal::Fail => self.last_fail_at,
        };
        match column {
            Some(t) => t,
            None => self.state().success_at,
        }
    }

    /// The ping that the row records.
    pub fn into_accepted(self, signal: PingSignal) -> (r: PingAccepted)
        requires
            self.wf(),
        ensures
            r == (PingAccepted {
                org_id: self.org_id,
                target_id: self.target_id,
                at: self.accepted_at(signal),
                state: self.state(),
                run_ms: run_ms(
                    state_of(
                        self.prev_armed_at,
                        self.prev_ping_at,
                        self.prev_start_at,
                        self.prev_fail_at,
                        None,
                    ),
                    signal,
                    self.accepted_at(signal),
                ),
                first: self.prev_first_ping_at is None,
                enabled: self.enabled,
            }),
    {
        let state = ping_state_of(
            self.armed_at,
            self.last_ping_at,
            self.last_start_at,
            self.last_fail_at,
            exit_code_of(self.last_exit_code),
        );
        let column = match signal {
            PingSignal::Start => self.last_start_at,
            PingSignal::Success => self.last_ping_at,
            PingSignal::Fail => self.last_fail_at,
        };
        let at = match column {
            Some(t) => t,
            None => state.success_at,
        };
        let prev = ping_state_of(
            self.prev_armed_at,
            self.prev_ping_at,
            self.prev_start_at,
            self.prev_fail_at,
            None,
        );
        PingAccepted {
            org_id: self.org_id,
            target_id: self.target_id,
            at,
            state,
            run_ms: run_ms_of(&prev, signal, at),
            first: self.prev_first_ping_at.is_none(),
            enabled: self.enabled,
        }
    }
}

/// What a ping at `now` makes of a monitor. The first ping of any signal wires it
/// up, and re-arms it unless it reports a failure.
pub open spec fn pinged(
    m: HeartbeatMonitor,
    signal: PingSignal,
    code: Option<u8>,
    now: Timestamp,
) -> HeartbeatMonitor {
    HeartbeatMonitor {
        armed_at: if m.first_ping_at is None && signal != PingSignal::Fail {
            now
        } else {
            m.armed_at
        },
        first_ping_at: if m.first_ping_at is None {
            Some(now)
        } else {
            m.first_ping_at
        },
        last_start_at: if signal == PingSignal::Start {
            Some(now)
        } else {
            m.last_start_at
        },
        last_ping_at: if signal == PingSignal::Success {
            Some(now)
        } else {
            m.last_ping_at
        },
        last_fail_at: if signal == PingSignal::Fail {
            Some(now)
        } else {
            m.last_fail_at
        },
        last_exit_code: if signal == PingSignal::Fail {
            code
        } else {
            m.last_exit_code
        },
        ..m
    }
}

/// One monitor of the store.
#[derive(Debug)]
pub struct HeartbeatEntry {
    pub org: OrgId,
    pub target_id: u128,
    pub monitor: HeartbeatMonitor,
    pub token_hash: String,
}

/// The entry is this target's in this org.
pub open spec fn entry_of(org: OrgId, target_id: u128) -> spec_fn(HeartbeatEntry) -> bool {
    |m: HeartbeatEntry| m.org == org && m.target_id == target_id
}

/// The entry answers to this token.
pub open spec fn answers_to(key: Seq<char>) -> spec_fn(HeartbeatEntry) -> bool {
    |m: HeartbeatEntry| m.token_hash@ == key
}

/// What ensuring a monitor does and returns: one that is there stays; otherwise
/// one is made with the minted token.
pub open spec fn ensured(
    before: Seq<HeartbeatEntry>,
    after: Seq<HeartbeatEntry>,
    r: HeartbeatMonitor,
    org: OrgId,
    target_id: u128,
    token: Seq<char>,
    now: Timestamp,
) -> bool {
    match index_where(before, entry_of(org, target_id)) {
        Some(i) => after == before && r == before[i].monitor,
        None => {
            &&& after.len() == before.len() + 1
            &&& after.drop_last() == before
            &&& after.last().org == org
            &&& after.last().target_id == target_id
            &&& after.last().monitor == r
            &&& after.last().token_hash@ == token_key(token)
            &&& r.token matches Some(t) && t@ == token
            &&& r == (HeartbeatMonitor {
                token: r.token,
                last_ping_at: None,
                armed_at: now,
                first_ping_at: None,
                created_at: now,
                last_start_at: None,
                last_fail_at: None,
                last_exit_code: None,
            })
        },
    }
}

/// What a ping at `now` under the token key `key` does and returns.
pub open spec fn signalled(
    before: Seq<HeartbeatEntry>,
    after: Seq<HeartbeatEntry>,
    r: Option<PingAccepted>,
    key: Seq<char>,
    signal: PingSignal,
    code: Option<u8>,
    now: Timestamp,
) -> bool {
    match index_where(before, answers_to(key)) {
        Some(i) => {
            let m = pinged(before[i].monitor, signal, code, now);
            &&& after == before.update(i, HeartbeatEntry { monitor: m, ..before[i] })
            &&& r == Some(
                PingAccepted {
                    org_id: before[i].org,
                    target_id: before[i].target_id,
                    at: now,
                    state: m.state(),
                    run_ms: run_ms(before[i].monitor.state(), signal, now),
                    first: before[i].monitor.first_ping_at is None,
                    enabled: true,
                },
            )
        },
        None => after == before && r is None,
    }
}

/// Heartbeat monitors in memory. No target/org tables here, so the org-membership
/// and soft-delete guards are absent.
#[derive(Debug)]
pub struct InMemoryHeartbeatStore {
    entries: Vec<HeartbeatEntry>,
}

impl View for InMemoryHeartbeatStore {
    type V = Seq<HeartbeatEntry>;

    closed spec fn view(&self) -> Seq<HeartbeatEntry> {
        self.entries@
    }
}

impl InMemoryHeartbeatStore {
    /// Every start that was recorded lies within the calendar.
    pub open spec fn wf(self) -> bool {
        forall|i: int|
            0 <= i < self@.len() ==> ((#[trigger] self@[i]).monitor.last_start_at matches Some(t)
                ==> t.wf())
    }

    pub fn new() -> (r: Self)
        ensures
            r@ == Seq::<HeartbeatEntry>::empty(),
            r.wf(),
    {
        InMemoryHeartbeatStore { entries: Vec::new() }
    }

    fn find(&self, org: OrgId, target_id: u128) -> (r: Option<usize>)
        ensures
            match r {
                Some(i) => index_where(self@, entry_of(org, target_id)) == Some(i as int) && i
                    < self@.len(),
                None => index_where(self@, entry_of(org, target_id)) is None,
            },
    {
        let same = |m: &HeartbeatEntry| -> (b: bool)
            ensures
                b == (m.org == org && m.target_id == target_id),
        { m.org == org && m.target_id == target_id };
        position(&self.entries, same, Ghost(entry_of(org, target_id)))
    }

    /// The target's monitor, made at `now` with the minted token if there is none.
    pub fn ensure_at(&mut self, org: OrgId, target_id: u128, token: &str, now: Timestamp) -> (r:
        HeartbeatMonitor)
        requires
            old(self).wf(),
        ensures
            ensured(old(self)@, final(self)@, r, org, target_id, token@, now),
            final(self).wf(),
    {
        if let Some(i) = self.find(org, target_id) {
            return self.entries[i].monitor.clone();
        }
        let ghost before = self.entries@;
        let monitor = HeartbeatMonitor {
            token: Some(owned(token)),
            last_ping_at: None,
            armed_at: now,
            first_ping_at: None,
            created_at: now,
            last_start_at: None,
            last_fail_at: None,
            last_exit_code: None,
        };
        let shown = monitor.clone();
        self.entries.push(
            HeartbeatEntry { org, target_id, monitor, token_hash: token_hash(token) },
        );
        assert(self.entries@.drop_last() =~= before);
        proof {
            assert forall|i: int| 0 <= i < self@.len() implies ((
            #[trigger] self@[i]).monitor.last_start_at matches Some(t) ==> t.wf()) by {
                if i < before.len() {
                    assert(self@[i] == before[i]);
                }
            }
        }
        shown
    }

    /// The target's monitor, made with the minted token if there is none.
    pub fn ensure(&mut self, org: OrgId, target_id: u128, token: &str) -> (r: HeartbeatMonitor)
        requires
            old(self).wf(),
        ensures
            exists|t: Timestamp|
                t.wf() && #[trigger] ensured(
                    old(self)@,
                    final(self)@,
                    r,
                    org,
                    target_id,
                    token@,
                    t,
                ),
            final(self).wf(),
    {
        let t = now();
        self.ensure_at(org, target_id, token, t)
    }

    /// Never mints, so a read-scoped credential can't create a write capability.
    pub fn get(&self, org: OrgId, target_id: u128) -> (r: Option<HeartbeatMonitor>)
        ensures
            r == (match index_where(self@, entry_of(org, target_id)) {
                Some(i) => Some(self@[i].monitor),
                None => None,
            }),
    {
        match self.find(org, target_id) {
            Some(i) => Some(self.entries[i].monitor.clone()),
            None => None,
        }
    }

    /// Forgets the target's monitor; `false` if there was none.
    pub fn remove(&mut self, org: OrgId, target_id: u128) -> (r: bool)
        requires
            old(self).wf(),
        ensures
            final(self)@ == old(self)@.filter(|m: HeartbeatEntry| !entry_of(org, target_id)(m)),
            r == (final(self)@.len() < old(self)@.len()),
            final(self).wf(),
    {
        let ghost all = self.entries@;
        let before: usize = self.entries.len();
        let keep = |m: &HeartbeatEntry| -> (b: bool)
            ensures
                b == !(m.org == org && m.target_id == target_id),
        { !(m.org == org && m.target_id == target_id) };
        retain(
            &mut self.entries,
            keep,
            Ghost(|m: HeartbeatEntry| !entry_of(org, target_id)(m)),
        );
        proof {
            let p = |m: HeartbeatEntry| !entry_of(org, target_id)(m);
            lemma_filter_members(all, p);
            assert forall|i: int| 0 <= i < self@.len() implies ((
            #[trigger] self@[i]).monitor.last_start_at matches Some(t) ==> t.wf()) by {
                assert(all.filter(p).contains(self@[i]));
                assert(all.contains(self@[i]));
            }
        }
        self.entries.len() < before
    }

    /// Records a ping at `now` under the raw token.
    pub fn record_signal_at(
        &mut self,
        raw_token: &str,
        signal: PingSignal,
        code: Option<u8>,
        now: Timestamp,
    ) -> (r: Option<PingAccepted>)
        requires
            old(self).wf(),
            now.wf(),
        ensures
            signalled(old(self)@, final(self)@, r, token_key(raw_token@), signal, code, now),
            final(self).wf(),
    {
        let key = token_hash(raw_token);
        let same = |m: &HeartbeatEntry| -> (b: bool)
            ensures
                b == (m.token_hash@ == key@),
        { str_eq(m.token_hash.as_str(), key.as_str()) };
        let Some(i) = position(&self.entries, same, Ghost(answers_to(key@))) else {
            return None;
        };
        let ghost before = self.entries@;
        assert(self@[i as int].monitor.last_start_at matches Some(t) ==> t.wf());
        let prev = self.entries[i].monitor.ping_state();
        let first = self.entries[i].monitor.is_pending();
        let mut m = self.entries[i].monitor.clone();
        if first {
            if signal != PingSignal::Fail {
                m.armed_at = now;
            }
            m.first_ping_at = Some(now);
        }
        match signal {
            PingSignal::Start => {
                m.last_start_at = Some(now);
            },
            PingSignal::Success => {
                m.last_ping_at = Some(now);
            },
            PingSignal::Fail => {
                m.last_fail_at = Some(now);
                m.last_exit_code = code;
            },
        }
        let state = m.ping_state();
        self.entries[i].monitor = m;
        let entry = &self.entries[i];
        proof {
            assert(self@ =~= before.update(
                i as int,
                HeartbeatEntry {
                    monitor: pinged(before[i as int].monitor, signal, code, now),
                    ..before[i as int]
                },
            ));
            assert forall|k: int| 0 <= k < self@.len() implies ((
            #[trigger] self@[k]).monitor.last_start_at matches Some(t) ==> t.wf()) by {
                if k != i {
                    assert(self@[k] == before[k]);
                }
            }
        }
        Some(
            PingAccepted {
                org_id: entry.org,
                target_id: entry.target_id,
                at: now,
                state,
                run_ms: run_ms_of(&prev, signal, now),
                first,
                enabled: true,
            },
        )
    }

    /// Records a ping under the raw token; `None` for an unknown one.
    pub fn record_signal_by_token(
        &mut self,
        raw_token: &str,
        signal: PingSignal,
        code: Option<u8>,
    ) -> (r: Option<PingAccepted>)
        requires
            old(self).wf(),
        ensures
            exists|t: Timestamp|
                t.wf() && #[trigger] signalled(
                    old(self)@,
                    final(self)@,
                    r,
                    token_key(raw_token@),
                    signal,
                    code,
                    t,
                ),
            final(self).wf(),
    {
        let t = now();
        self.record_signal_at(raw_token, signal, code, t)
    }
}

/// Ensuring a monitor again keeps it, token included.
pub proof fn law_ensure_is_idempotent(
    before: Seq<HeartbeatEntry>,
    middle: Seq<HeartbeatEntry>,
    after: Seq<HeartbeatEntry>,
    first: HeartbeatMonitor,
    second: HeartbeatMonitor,
    org: OrgId,
    target_id: u128,
    token: Seq<char>,
    other: Seq<char>,
    at: Timestamp,
    later: Timestamp,
)
    requires
        ensured(before, middle, first, org, target_id, token, at),
        ensured(middle, after, second, org, target_id, other, later),
    ensures
        second == first,
        after == middle,
{
    lemma_index_where(before, entry_of(org, target_id));
    if index_where(before, entry_of(org, target_id)) is None {
        let n = before.len() as int;
        assert forall|j: int| 0 <= j < n implies !entry_of(org, target_id)(#[trigger] middle[j]) by {
            assert(middle[j] == middle.drop_last()[j]);
        }
        lemma_index_where_is(middle, entry_of(org, target_id), n);
    }
}

/// The first ping of any signal wires a monitor up, and no later ping moves that
/// point.
pub proof fn law_first_ping_wires_up_once(
    m: HeartbeatMonitor,
    signal: PingSignal,
    code: Option<u8>,
    at: Timestamp,
    next: PingSignal,
    next_code: Option<u8>,
    later: Timestamp,
)
    ensures
        pinged(m, signal, code, at).first_ping_at is Some,
        m.first_ping_at is None ==> pinged(m, signal, code, at).first_ping_at == Some(at),
        pinged(pinged(m, signal, code, at), next, next_code, later).first_ping_at == pinged(
            m,
            signal,
            code,
            at,
        ).first_ping_at,
{
}

/// A success clears a failure that came before it, and a run that its start
/// opened is closed by the finish that follows.
pub proof fn law_finish_closes_and_success_clears(
    m: HeartbeatMonitor,
    signal: PingSignal,
    code: Option<u8>,
    now: Timestamp,
)
    requires
        m.last_start_at matches Some(t) ==> t.nanos < now.nanos,
        m.last_fail_at matches Some(t) ==> t.nanos <= now.nanos,
        signal != PingSignal::Start,
    ensures
        pinged(m, signal, code, now).state().open_since() is None,
        signal == PingSignal::Success ==> pinged(
            m,
            signal,
            code,
            now,
        ).state().standing_failure() is None,
{
}

/// A failing wiring ping is not cleared by the ping that recorded it.
pub proof fn law_failing_wiring_ping_stands(m: HeartbeatMonitor, code: Option<u8>, now: Timestamp)
    requires
        m.first_ping_at is None,
        m.last_ping_at is None,
        m.armed_at.nanos < now.nanos,
    ensures
        pinged(m, PingSignal::Fail, code, now).state().standing_failure() == Some(
            Failure { at: now, exit_code: code },
        ),
{
}

/// A re-arm outranks a failure recorded before it.
pub proof fn law_re_arm_outranks_an_older_failure(
    armed_at: Timestamp,
    last_ping_at: Option<Timestamp>,
    last_start_at: Option<Timestamp>,
    failed_at: Timestamp,
    code: Option<u8>,
)
    requires
        failed_at.nanos <= armed_at.nanos,
    ensures
        state_of(armed_at, last_ping_at, last_start_at, Some(failed_at), code).standing_failure()
            is None,
{
}

/// Once a monitor is removed, its token records nothing, as long as no other
/// monitor shares the token.
pub proof fn law_removed_token_stops_recording(
    before: Seq<HeartbeatEntry>,
    org: OrgId,
    target_id: u128,
    key: Seq<char>,
)
    requires
        forall|i: int|
            0 <= i < before.len() && (#[trigger] before[i]).token_hash@ == key ==> entry_of(
                org,
                target_id,
            )(before[i]),
    ensures
        index_where(
            before.filter(|m: HeartbeatEntry| !entry_of(org, target_id)(m)),
            answers_to(key),
        ) is None,
{
    let p = |m: HeartbeatEntry| !entry_of(org, target_id)(m);
    let after = before.filter(p);
    lemma_filter_members(before, p);
    assert forall|j: int| 0 <= j < after.len() implies !answers_to(key)(#[trigger] after[j]) by {
        assert(after.contains(after[j]));
        assert(before.contains(after[j]) && p(after[j]));
        let i = before.index_of(after[j]);
        assert(before[i] == after[j]);
    }
    lemma_index_where_none(after, answers_to(key));
}

/// Each signal moves its own instant and no other: only a success moves the last success,
/// only a start the last start, only a failure the last failure and its exit code. Token and
/// creation never move, and after the first ping neither does the point from which silence
/// counts.
pub proof fn law_a_signal_moves_its_own_instant(
    m: HeartbeatMonitor,
    signal: PingSignal,
    code: Option<u8>,
    now: Timestamp,
)
    ensures
        ({
            let a = pinged(m, signal, code, now);
            &&& signal == PingSignal::Start ==> a.last_start_at == Some(now) && a.last_ping_at
                == m.last_ping_at && a.last_fail_at == m.last_fail_at && a.last_exit_code
                == m.last_exit_code
            &&& signal == PingSignal::Success ==> a.last_ping_at == Some(now) && a.last_start_at
                == m.last_start_at && a.last_fail_at == m.last_fail_at && a.last_exit_code
                == m.last_exit_code
            &&& signal == PingSignal::Fail ==> a.last_fail_at == Some(now) && a.last_exit_code
                == code && a.last_ping_at == m.last_ping_at && a.last_start_at == m.last_start_at
            &&& a.token == m.token && a.created_at == m.created_at
            &&& m.first_ping_at is Some ==> a.armed_at == m.armed_at && a.first_ping_at
                == m.first_ping_at
            &&& m.first_ping_at is None && signal != PingSignal::Fail ==> a.armed_at == now
            &&& m.first_ping_at is None && signal == PingSignal::Fail ==> a.armed_at == m.armed_at
        }),
{
}

/// A start holds nothing up: on a monitor that has been pinged before, the silence since the
/// last success goes on counting and a failure that stood still stands.
pub proof fn law_a_start_is_no_success(m: HeartbeatMonitor, code: Option<u8>, now: Timestamp)
    requires
        m.first_ping_at is Some,
    ensures
        ({
            let a = pinged(m, PingSignal::Start, code, now);
            &&& a.state().success_at == m.state().success_at
            &&& a.state().fail == m.state().fail
            &&& a.state().standing_failure() == m.state().standing_failure()
            &&& a.state().start_at == Some(now)
        }),
{
}

/// What a monitor's instants add up to: silence counts from the later of the last success
/// and the re-arm, and start and failure stand as they were reported.
pub proof fn law_silence_counts_from_the_later(
    armed_at: Timestamp,
    ping: Option<Timestamp>,
    start: Option<Timestamp>,
    fail: Option<Timestamp>,
    code: Option<u8>,
)
    ensures
        ({
            let s = state_of(armed_at, ping, start, fail, code);
            &&& s.success_at.nanos >= armed_at.nanos
            &&& ping matches Some(p) ==> s.success_at.nanos >= p.nanos
            &&& s.success_at == armed_at || ping == Some(s.success_at)
            &&& s.start_at == start
            &&& fail is None ==> s.fail is None
            &&& fail matches Some(t) ==> s.fail == Some(Failure { at: t, exit_code: code })
        }),
{
}

/// A run is open from its start until a success or a failure that is not before it; a failure
/// stands until a success or a re-arm that is not before it.
pub proof fn law_what_is_open_and_what_stands(s: PingState)
    ensures
        s.open_since() matches Some(t) ==> s.start_at == Some(t),
        s.open_since() is Some <==> {
            &&& s.start_at is Some
            &&& s.start_at->Some_0.nanos >= s.success_at.nanos
            &&& s.fail is Some ==> s.fail->Some_0.at.nanos < s.start_at->Some_0.nanos
        },
        s.standing_failure() matches Some(f) ==> s.fail == Some(f),
        s.standing_failure() is Some <==> s.fail is Some && s.fail->Some_0.at.nanos
            > s.success_at.nanos,
{
}

/// A run is timed from the start that opened it to the signal that ended it, in whole
/// milliseconds; a start ends no run.
pub proof fn law_a_run_is_timed(prev: PingState, signal: PingSignal, at: Timestamp)
    ensures
        signal == PingSignal::Start ==> run_ms(prev, signal, at) is None,
        signal != PingSignal::Start ==> (run_ms(prev, signal, at) is Some <==> prev.open_since()
            is Some),
        run_ms(prev, signal, at) matches Some(ms) ==> {
            let from = prev.start_at->Some_0;
            &&& at.nanos <= from.nanos ==> ms == 0
            &&& at.nanos > from.nanos && ms < u32::MAX ==> ms * NANOS_PER_MILLI <= at.nanos
                - from.nanos < (ms + 1) * NANOS_PER_MILLI
            &&& ms == u32::MAX ==> at.nanos - from.nanos >= u32::MAX * NANOS_PER_MILLI
        },
{
}

/// A ping is recorded on the monitor whose token it carries, on no other, and its answer
/// names that monitor, that instant, what the pings now add up to, and the run that it ended.
pub proof fn law_a_ping_reaches_its_monitor(
    before: Seq<HeartbeatEntry>,
    after: Seq<HeartbeatEntry>,
    r: Option<PingAccepted>,
    key: Seq<char>,
    signal: PingSignal,
    code: Option<u8>,
    now: Timestamp,
    i: int,
)
    requires
        signalled(before, after, r, key, signal, code, now),
        0 <= i < before.len(),
        before[i].token_hash@ == key,
        forall|j: int| 0 <= j < i ==> (#[trigger] before[j]).token_hash@ != key,
    ensures
        after.len() == before.len(),
        forall|j: int| 0 <= j < before.len() && j != i ==> #[trigger] after[j] == before[j],
        after[i].monitor == pinged(before[i].monitor, signal, code, now),
        after[i].org == before[i].org,
        after[i].target_id == before[i].target_id,
        after[i].token_hash == before[i].token_hash,
        r matches Some(a) && {
            &&& a.org_id == before[i].org
            &&& a.target_id == before[i].target_id
            &&& a.at == now
            &&& a.state == after[i].monitor.state()
            &&& a.run_ms == run_ms(before[i].monitor.state(), signal, now)
            &&& a.first <==> before[i].monitor.first_ping_at is None
            &&& a.enabled
        },
{
    lemma_index_where_is(before, answers_to(key), i);
}

/// A ping whose token no monitor has changes nothing and is not accepted.
pub proof fn law_an_unknown_token_is_refused(
    before: Seq<HeartbeatEntry>,
    after: Seq<HeartbeatEntry>,
    r: Option<PingAccepted>,
    key: Seq<char>,
    signal: PingSignal,
    code: Option<u8>,
    now: Timestamp,
)
    requires
        signalled(before, after, r, key, signal, code, now),
        forall|j: int| 0 <= j < before.len() ==> (#[trigger] before[j]).token_hash@ != key,
    ensures
        after == before,
        r is None,
{
    lemma_index_where_none(before, answers_to(key));
}

/// Ensuring a target's monitor the first time makes one that was never pinged, armed at that
/// instant, under the minted token; the others stay.
pub proof fn law_a_new_monitor_was_never_pinged(
    before: Seq<HeartbeatEntry>,
    after: Seq<HeartbeatEntry>,
    r: HeartbeatMonitor,
    org: OrgId,
    target_id: u128,
    token: Seq<char>,
    now: Timestamp,
)
    requires
        ensured(before, after, r, org, target_id, token, now),
        forall|j: int|
            0 <= j < before.len() ==> !((#[trigger] before[j]).org == org && before[j].target_id
                == target_id),
    ensures
        after == before.push(after.last()),
        after.last().org == org && after.last().target_id == target_id,
        after.last().monitor == r,
        after.last().token_hash@ == token_key(token),
        r.token matches Some(t) && t@ == token,
        r.armed_at == now && r.created_at == now,
        r.first_ping_at is None && r.last_ping_at is None && r.last_start_at is None,
        r.last_fail_at is None && r.last_exit_code is None,
{
    lemma_index_where_none(before, entry_of(org, target_id));
    assert(after =~= before.push(after.last()));
}

/// An exit code is read as it was stored, and a number that is none is not read as one.
pub proof fn law_an_exit_code_is_not_truncated(stored: i16)
    ensures
        exit_code(Some(stored)) matches Some(c) ==> c == stored,
        exit_code(Some(stored)) is None <==> stored < 0 || stored > 255,
        exit_code(None) is None,
{
}

/// Signals are stored and shown under names and numbers of their own.
pub proof fn law_signals_are_told_apart(a: PingSignal, b: PingSignal)
    ensures
        a.number() == b.number() <==> a == b,
        PingSignal::Start.name() == "start"@,
        PingSignal::Success.name() == "success"@,
        PingSignal::Fail.name() == "fail"@,
{
}

/// The first ping of any signal wires a monitor up at its instant, and later ones do not move
/// that.
pub proof fn law_the_first_ping_wires_a_monitor_up(
    m: HeartbeatMonitor,
    signal: PingSignal,
    code: Option<u8>,
    now: Timestamp,
)
    ensures
        m.first_ping_at is None ==> pinged(m, signal, code, now).first_ping_at == Some(now),
        m.first_ping_at is Some ==> pinged(m, signal, code, now).first_ping_at == m.first_ping_at,
{
}

/// What a monitor's own instants add up to: its last start and its last failure as they are,
/// and as the last success the later of its last success and its re-arm.
pub proof fn law_a_monitor_adds_up_its_own_instants(m: HeartbeatMonitor)
    ensures
        m.state().start_at == m.last_start_at,
        m.last_fail_at is None ==> m.state().fail is None,
        m.last_fail_at matches Some(t) ==> m.state().fail == Some(
            Failure { at: t, exit_code: m.last_exit_code },
        ),
        m.state().success_at.nanos >= m.armed_at.nanos,
        m.last_ping_at matches Some(p) ==> m.state().success_at.nanos >= p.nanos,
        m.state().success_at == m.armed_at || m.last_ping_at == Some(m.state().success_at),
{
}

/// A stored ping adds up the row's own columns after it, and was accepted at the instant that
/// its own signal's column holds.
pub proof fn law_a_row_adds_up_its_own_columns(row: AcceptedRow, t: Timestamp)
    ensures
        row.state().start_at == row.last_start_at,
        row.last_fail_at is None ==> row.state().fail is None,
        row.last_fail_at matches Some(f) ==> row.state().fail == Some(
            Failure { at: f, exit_code: exit_code(row.last_exit_code) },
        ),
        row.state().success_at.nanos >= row.armed_at.nanos,
        row.last_ping_at matches Some(p) ==> row.state().success_at.nanos >= p.nanos,
        row.state().success_at == row.armed_at || row.last_ping_at == Some(row.state().success_at),
        row.last_start_at == Some(t) ==> row.accepted_at(PingSignal::Start) == t,
        row.last_ping_at == Some(t) ==> row.accepted_at(PingSignal::Success) == t,
        row.last_fail_at == Some(t) ==> row.accepted_at(PingSignal::Fail) == t,
{
}

/// Ensuring a monitor that is there changes nothing and gives it back: the one of that org and
/// that target.
pub proof fn law_an_ensured_monitor_stays(
    before: Seq<HeartbeatEntry>,
    after: Seq<HeartbeatEntry>,
    r: HeartbeatMonitor,
    org: OrgId,
    target_id: u128,
    token: Seq<char>,
    now: Timestamp,
    i: int,
)
    requires
        ensured(before, after, r, org, target_id, token, now),
        0 <= i < before.len(),
        before[i].org == org && before[i].target_id == target_id,
        forall|j: int|
            0 <= j < i ==> (#[trigger] before[j]).org != org || before[j].target_id != target_id,
    ensures
        after == before,
        r == before[i].monitor,
{
    lemma_index_where_is(before, entry_of(org, target_id), i);
}

} // verus!
