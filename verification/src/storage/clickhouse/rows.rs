//! The rows that are written and read, and what reads fold them into.

use vstd::prelude::*;

use crate::collections::{index_where, lemma_index_where_is, lemma_index_where_none, position};
use crate::domain::{CheckResult, CheckStatus};
use crate::storage::heartbeats::PingSignal;
use crate::storage::memory::sink::{is_outage, LatencyBucket, StatusBreakdown};
use crate::storage::org_ttl::RetentionDays;
use crate::storage::traits::TimeRange;
use crate::strings::{opt_str_view, opt_view, owned, str_eq};
use crate::time::{Timestamp, NANOS_PER_SEC};

verus! {

/// An instant as the database stores it: whole seconds that fit 32 bits.
pub open spec fn stored_secs(t: Timestamp) -> u32 {
    if t.unix() < 0 {
        0
    } else if t.unix() > u32::MAX {
        u32::MAX
    } else {
        t.unix() as u32
    }
}

/// An instant as the database stores it.
pub fn to_unix_secs(t: Timestamp) -> (r: u32)
    ensures
        r == stored_secs(t),
{
    let secs: i64 = t.timestamp();
    if secs < 0 {
        0
    } else if secs > u32::MAX as i64 {
        u32::MAX
    } else {
        secs as u32
    }
}

/// The instant of a stored second.
pub open spec fn instant_of(secs: u32) -> Timestamp {
    Timestamp { nanos: (secs * NANOS_PER_SEC) as i128 }
}

/// The instant of a stored second.
pub fn from_unix_secs(secs: u32) -> (r: Timestamp)
    ensures
        r == instant_of(secs),
        r.wf(),
        r.unix() == secs,
{
    Timestamp::from_secs(secs as i64)
}

/// A stored instant reads back as itself to the second.
pub proof fn law_instants_read_back(t: Timestamp)
    requires
        0 <= t.nanos,
        t.nanos as int / NANOS_PER_SEC as int <= u32::MAX,
    ensures
        instant_of(stored_secs(t)).nanos <= t.nanos,
        t.nanos < instant_of(stored_secs(t)).nanos + NANOS_PER_SEC,
        stored_secs(instant_of(stored_secs(t))) == stored_secs(t),
{
    let n = NANOS_PER_SEC as int;
    let q = t.nanos as int / n;
    assert(q * n <= t.nanos < q * n + n && q >= 0) by (nonlinear_arith)
        requires
            n == 1_000_000_000,
            q == t.nanos as int / n,
            t.nanos >= 0,
    ;
    assert(stored_secs(t) == q);
    let m = instant_of(stored_secs(t));
    assert(m.nanos == q * n);
    assert((q * n) / n == q) by (nonlinear_arith)
        requires
            n == 1_000_000_000,
    ;
}

/// A check result as it is written.
#[derive(Debug)]
pub struct CheckResultRow<'a> {
    pub org_id: u128,
    pub target_id: u128,
    /// Sent explicitly: the rollup groups on the inserted block.
    pub region: &'a str,
    pub timestamp: u32,
    pub agent_id: &'a str,
    pub status: i8,
    pub duration_ms: u32,
    pub dns_ms: Option<u16>,
    pub connect_ms: Option<u16>,
    pub tls_ms: Option<u16>,
    pub ttfb_ms: Option<u16>,
    pub response_code: Option<u16>,
    pub response_size: Option<u32>,
    pub error: Option<&'a str>,
    pub ttl_days: u16,
}

/// The row holds the result, tagged with its region and agent.
pub open spec fn is_row_of(
    row: CheckResultRow,
    r: CheckResult,
    region: Seq<char>,
    agent_id: Seq<char>,
    ttl_days: u16,
) -> bool {
    &&& row.org_id == r.org_id
    &&& row.target_id == r.target_id
    &&& row.region@ == region
    &&& row.timestamp == stored_secs(r.timestamp)
    &&& row.agent_id@ == agent_id
    &&& row.status == r.status.number()
    &&& row.duration_ms == r.duration_ms
    &&& row.dns_ms == r.dns_ms
    &&& row.connect_ms == r.connect_ms
    &&& row.tls_ms == r.tls_ms
    &&& row.ttfb_ms == r.ttfb_ms
    &&& row.response_code == r.response_code
    &&& row.response_size == r.response_size
    &&& opt_str_view(row.error) == opt_view(r.error)
    &&& row.ttl_days == ttl_days
}

impl<'a> CheckResultRow<'a> {
    /// The row of a result.
    pub fn from_result(r: &'a CheckResult, region: &'a str, agent_id: &'a str, ttl_days: u16) -> (row:
        Self)
        ensures
            is_row_of(row, *r, region@, agent_id@, ttl_days),
    {
        let error = match &r.error {
            Some(e) => Some(e.as_str()),
            None => None,
        };
        CheckResultRow {
            org_id: r.org_id,
            target_id: r.target_id,
            region,
            timestamp: to_unix_secs(r.timestamp),
            agent_id,
            status: r.status.as_enum8(),
            duration_ms: r.duration_ms,
            dns_ms: r.dns_ms,
            connect_ms: r.connect_ms,
            tls_ms: r.tls_ms,
            ttfb_ms: r.ttfb_ms,
            response_code: r.response_code,
            response_size: r.response_size,
            error,
            ttl_days,
        }
    }
}

/// The rows of a batch: each result with the retention of its org.
pub fn batch_rows<'a>(
    results: &'a Vec<CheckResult>,
    ttls: &Vec<RetentionDays>,
    region: &'a str,
    agent_id: &'a str,
) -> (out: Vec<CheckResultRow<'a>>)
    requires
        ttls@.len() == results@.len(),
    ensures
        out@.len() == results@.len(),
        forall|i: int|
            0 <= i < out@.len() ==> is_row_of(
                #[trigger] out@[i],
                results@[i],
                region@,
                agent_id@,
                ttls@[i].row,
            ),
{
    let mut out: Vec<CheckResultRow<'a>> = Vec::new();
    let mut i: usize = 0;
    while i < results.len()
        invariant
            i <= results@.len(),
            ttls@.len() == results@.len(),
            out@.len() == i,
            forall|k: int|
                0 <= k < i ==> is_row_of(
                    #[trigger] out@[k],
                    results@[k],
                    region@,
                    agent_id@,
                    ttls@[k].row,
                ),
        decreases results.len() - i,
    {
        out.push(CheckResultRow::from_result(&results[i], region, agent_id, ttls[i].row));
        i += 1;
    }
    out
}

/// The orgs of a batch, one per result.
pub fn batch_orgs(results: &Vec<CheckResult>) -> (out: Vec<u128>)
    ensures
        out@ == results@.map_values(|r: CheckResult| r.org_id),
{
    let mut out: Vec<u128> = Vec::new();
    let mut i: usize = 0;
    while i < results.len()
        invariant
            i <= results@.len(),
            out@ == results@.take(i as int).map_values(|r: CheckResult| r.org_id),
        decreases results.len() - i,
    {
        out.push(results[i].org_id);
        i += 1;
        assert(out@ =~= results@.take(i as int).map_values(|r: CheckResult| r.org_id));
    }
    assert(results@.take(i as int) =~= results@);
    out
}

/// How a step of a flow went.
#[derive(Debug, Clone, Copy, PartialEq, Eq, Structural)]
pub enum StepOutcome {
    Passed,
    Failed,
    Skipped,
}

impl StepOutcome {
    /// The number the outcome is stored as.
    pub open spec fn number(self) -> i8 {
        match self {
            StepOutcome::Passed => 1,
            StepOutcome::Failed => 2,
            StepOutcome::Skipped => 3,
        }
    }

    /// The outcome a stored number stands for.
    pub open spec fn of_number(n: i8) -> StepOutcome {
        if n == 1 {
            StepOutcome::Passed
        } else if n == 2 {
            StepOutcome::Failed
        } else {
            StepOutcome::Skipped
        }
    }

    /// The number the outcome is stored as.
    pub fn as_enum8(self) -> (r: i8)
        ensures
            r == self.number(),
            match self {
                StepOutcome::Passed => r == 1,
                StepOutcome::Failed => r == 2,
                StepOutcome::Skipped => r == 3,
            },
    {
        match self {
            StepOutcome::Passed => 1,
            StepOutcome::Failed => 2,
            StepOutcome::Skipped => 3,
        }
    }

    /// The outcome a stored number stands for.
    pub fn from_enum8(n: i8) -> (r: StepOutcome)
        ensures
            r == StepOutcome::of_number(n),
            r == StepOutcome::Passed <==> n == 1,
            r == StepOutcome::Failed <==> n == 2,
    {
        if n == 1 {
            StepOutcome::Passed
        } else if n == 2 {
            StepOutcome::Failed
        } else {
            StepOutcome::Skipped
        }
    }
}

/// One step of a run.
#[derive(Debug)]
pub struct StepTrace {
    pub op: String,
    pub outcome: StepOutcome,
    pub duration_ms: u32,
}

/// One line of the page's console.
#[derive(Debug)]
pub struct ConsoleLine {
    pub level: String,
    pub text: String,
}

/// The page at the moment a run stopped.
#[derive(Debug)]
pub struct FlowEvidence {
    pub final_url: Option<String>,
    pub title: Option<String>,
    pub text_snippet: Option<String>,
    pub console: Vec<ConsoleLine>,
}

/// One run of a browser flow.
#[derive(Debug)]
pub struct FlowRunRecord {
    pub org_id: u128,
    pub target_id: u128,
    pub timestamp: Timestamp,
    pub status: CheckStatus,
    pub duration_ms: u32,
    pub error: Option<String>,
    pub steps: Vec<StepTrace>,
    pub evidence: Option<FlowEvidence>,
}

/// A run as it is written.
#[derive(Debug)]
pub struct FlowRunRow {
    pub org_id: u128,
    pub target_id: u128,
    pub region: String,
    pub timestamp: u32,
    pub status: i8,
    pub duration_ms: u32,
    pub stopped_step: Option<u16>,
    pub error: String,
    pub step_op: Vec<String>,
    pub step_outcome: Vec<i8>,
    pub step_ms: Vec<u32>,
    pub final_url: String,
    pub title: String,
    pub text_snippet: String,
    pub console_level: Vec<String>,
    pub console_text: Vec<String>,
    pub evidence_days: u16,
    pub ttl_days: u16,
}

/// The step did not pass.
pub open spec fn not_passed() -> spec_fn(StepTrace) -> bool {
    |s: StepTrace| s.outcome != StepOutcome::Passed
}

/// The first step that did not pass: the one a run failed on, or the one it never got to.
pub open spec fn stopped_at(steps: Seq<StepTrace>) -> Option<u16> {
    match index_where(steps, not_passed()) {
        None => None,
        Some(i) => if i > u16::MAX {
            Some(u16::MAX)
        } else {
            Some(i as u16)
        },
    }
}

/// A text that may be missing, where nothing stands for a missing one.
pub open spec fn text_or_empty(t: Option<String>) -> Seq<char> {
    match t {
        Some(s) => s@,
        None => Seq::empty(),
    }
}

fn filled(t: &Option<String>) -> (r: String)
    ensures
        r@ == text_or_empty(*t),
{
    match t {
        Some(s) => s.clone(),
        None => {
            let s = String::new();
            assert(s@ =~= Seq::<char>::empty());
            s
        },
    }
}

/// The console of a run's evidence.
pub open spec fn console_of(r: FlowRunRecord) -> Seq<ConsoleLine> {
    match r.evidence {
        Some(e) => e.console@,
        None => Seq::empty(),
    }
}

/// The row holds the run.
pub open spec fn is_flow_row_of(
    row: FlowRunRow,
    r: FlowRunRecord,
    region: Seq<char>,
    ttl: RetentionDays,
) -> bool {
    &&& row.org_id == r.org_id
    &&& row.target_id == r.target_id
    &&& row.region@ == region
    &&& row.timestamp == stored_secs(r.timestamp)
    &&& row.status == r.status.number()
    &&& row.duration_ms == r.duration_ms
    &&& row.stopped_step == stopped_at(r.steps@)
    &&& row.error@ == text_or_empty(r.error)
    &&& row.step_op@ == r.steps@.map_values(|s: StepTrace| s.op)
    &&& row.step_outcome@ == r.steps@.map_values(|s: StepTrace| s.outcome.number())
    &&& row.step_ms@ == r.steps@.map_values(|s: StepTrace| s.duration_ms)
    &&& row.final_url@ == (match r.evidence {
        Some(e) => text_or_empty(e.final_url),
        None => Seq::empty(),
    })
    &&& row.title@ == (match r.evidence {
        Some(e) => text_or_empty(e.title),
        None => Seq::empty(),
    })
    &&& row.text_snippet@ == (match r.evidence {
        Some(e) => text_or_empty(e.text_snippet),
        None => Seq::empty(),
    })
    &&& row.console_level@ == console_of(r).map_values(|c: ConsoleLine| c.level)
    &&& row.console_text@ == console_of(r).map_values(|c: ConsoleLine| c.text)
    &&& row.evidence_days == ttl.evidence
    &&& row.ttl_days == ttl.row
}

impl FlowRunRow {
    /// The row of a run.
    pub fn from_record(r: &FlowRunRecord, region: &str, ttl: RetentionDays) -> (row: Self)
        ensures
            is_flow_row_of(row, *r, region@, ttl),
    {
        let not_ok = |s: &StepTrace| -> (b: bool)
            ensures
                b == (s.outcome != StepOutcome::Passed),
        { s.outcome != StepOutcome::Passed };
        let stopped_step = match position(&r.steps, not_ok, Ghost(not_passed())) {
            None => None,
            Some(i) => if i > u16::MAX as usize {
                Some(u16::MAX)
            } else {
                Some(i as u16)
            },
        };
        let mut step_op: Vec<String> = Vec::new();
        let mut step_outcome: Vec<i8> = Vec::new();
        let mut step_ms: Vec<u32> = Vec::new();
        let mut i: usize = 0;
        while i < r.steps.len()
            invariant
                i <= r.steps@.len(),
                step_op@ == r.steps@.take(i as int).map_values(|s: StepTrace| s.op),
                step_outcome@ == r.steps@.take(i as int).map_values(
                    |s: StepTrace| s.outcome.number(),
                ),
                step_ms@ == r.steps@.take(i as int).map_values(|s: StepTrace| s.duration_ms),
            decreases r.steps.len() - i,
        {
            step_op.push(r.steps[i].op.clone());
            step_outcome.push(r.steps[i].outcome.as_enum8());
            step_ms.push(r.steps[i].duration_ms);
            i += 1;
            assert(step_op@ =~= r.steps@.take(i as int).map_values(|s: StepTrace| s.op));
            assert(step_outcome@ =~= r.steps@.take(i as int).map_values(
                |s: StepTrace| s.outcome.number(),
            ));
            assert(step_ms@ =~= r.steps@.take(i as int).map_values(|s: StepTrace| s.duration_ms));
        }
        assert(r.steps@.take(i as int) =~= r.steps@);
        let mut final_url = String::new();
        let mut title = String::new();
        let mut text_snippet = String::new();
        let mut console_level: Vec<String> = Vec::new();
        let mut console_text: Vec<String> = Vec::new();
        match &r.evidence {
            Some(e) => {
                final_url = filled(&e.final_url);
                title = filled(&e.title);
                text_snippet = filled(&e.text_snippet);
                let mut k: usize = 0;
                while k < e.console.len()
                    invariant
                        k <= e.console@.len(),
                        console_level@ == e.console@.take(k as int).map_values(
                            |c: ConsoleLine| c.level,
                        ),
                        console_text@ == e.console@.take(k as int).map_values(
                            |c: ConsoleLine| c.text,
                        ),
                    decreases e.console.len() - k,
                {
                    console_level.push(e.console[k].level.clone());
                    console_text.push(e.console[k].text.clone());
                    k += 1;
                    assert(console_level@ =~= e.console@.take(k as int).map_values(
                        |c: ConsoleLine| c.level,
                    ));
                    assert(console_text@ =~= e.console@.take(k as int).map_values(
                        |c: ConsoleLine| c.text,
                    ));
                }
                assert(e.console@.take(k as int) =~= e.console@);
            },
            None => {
                assert(final_url@ =~= Seq::<char>::empty());
                assert(console_level@ =~= console_of(*r).map_values(|c: ConsoleLine| c.level));
                assert(console_text@ =~= console_of(*r).map_values(|c: ConsoleLine| c.text));
            },
        }
        FlowRunRow {
            org_id: r.org_id,
            target_id: r.target_id,
            region: owned(region),
            timestamp: to_unix_secs(r.timestamp),
            status: r.status.as_enum8(),
            duration_ms: r.duration_ms,
            stopped_step,
            error: filled(&r.error),
            step_op,
            step_outcome,
            step_ms,
            final_url,
            title,
            text_snippet,
            console_level,
            console_text,
            evidence_days: ttl.evidence,
            ttl_days: ttl.row,
        }
    }
}

/// One accepted heartbeat signal.
#[derive(Debug)]
pub struct HeartbeatPingRecord {
    pub org_id: u128,
    pub target_id: u128,
    pub received_at: Timestamp,
    pub signal: PingSignal,
    pub exit_code: Option<u8>,
    pub duration_ms: Option<u32>,
    pub body: String,
}

/// A signal as it is written.
#[derive(Debug)]
pub struct HeartbeatPingRow<'a> {
    pub org_id: u128,
    pub target_id: u128,
    pub received_at: u32,
    pub signal: i8,
    pub exit_code: Option<u8>,
    pub duration_ms: Option<u32>,
    pub body: &'a str,
    pub evidence_days: u16,
    pub ttl_days: u16,
}

impl<'a> HeartbeatPingRow<'a> {
    /// The row of a signal.
    pub fn from_record(r: &'a HeartbeatPingRecord, ttl: RetentionDays) -> (row: Self)
        ensures
            row.org_id == r.org_id,
            row.target_id == r.target_id,
            row.received_at == stored_secs(r.received_at),
            row.signal == r.signal.number(),
            row.exit_code == r.exit_code,
            row.duration_ms == r.duration_ms,
            row.body@ == r.body@,
            row.evidence_days == ttl.evidence,
            row.ttl_days == ttl.row,
    {
        HeartbeatPingRow {
            org_id: r.org_id,
            target_id: r.target_id,
            received_at: to_unix_secs(r.received_at),
            signal: r.signal.as_enum8(),
            exit_code: r.exit_code,
            duration_ms: r.duration_ms,
            body: r.body.as_str(),
            evidence_days: ttl.evidence,
            ttl_days: ttl.row,
        }
    }
}

/// A run as it is read.
#[derive(Debug)]
pub struct StoredFlowRunRow {
    pub timestamp: u32,
    pub region: String,
    pub status: i8,
    pub duration_ms: u32,
    pub stopped_step: Option<u16>,
    pub error: String,
    pub step_op: Vec<String>,
    pub step_outcome: Vec<i8>,
    pub step_ms: Vec<u32>,
    pub final_url: String,
    pub title: String,
    pub text_snippet: String,
    pub console_level: Vec<String>,
    pub console_text: Vec<String>,
    pub evidence_expired: u8,
}

/// A run as a page shows it.
#[derive(Debug)]
pub struct FlowRunView {
    pub timestamp: Timestamp,
    pub region: String,
    pub status: CheckStatus,
    pub duration_ms: u32,
    pub stopped_step: Option<usize>,
    pub error: Option<String>,
    pub steps: Vec<StepTrace>,
    pub evidence_expired: bool,
    pub evidence: Option<FlowEvidence>,
}

/// A text that is missing where it is empty: an expired column reads empty.
pub open spec fn if_filled(s: String) -> Option<String> {
    if s@.len() == 0 {
        None
    } else {
        Some(s)
    }
}

fn some_if_filled(s: String) -> (r: Option<String>)
    ensures
        r == if_filled(s),
{
    if s.as_str().is_empty() {
        None
    } else {
        Some(s)
    }
}

/// The smaller of two lengths.
pub open spec fn shorter(a: nat, b: nat) -> nat {
    if a < b {
        a
    } else {
        b
    }
}

/// The steps of a stored run: as many as all three columns hold.
pub open spec fn steps_of(r: StoredFlowRunRow) -> Seq<StepTrace> {
    Seq::new(
        shorter(shorter(r.step_op@.len(), r.step_outcome@.len()), r.step_ms@.len()),
        |i: int|
            StepTrace {
                op: r.step_op@[i],
                outcome: StepOutcome::of_number(r.step_outcome@[i]),
                duration_ms: r.step_ms@[i],
            },
    )
}

/// The console of a stored run.
pub open spec fn lines_of(r: StoredFlowRunRow) -> Seq<ConsoleLine> {
    Seq::new(
        shorter(r.console_level@.len(), r.console_text@.len()),
        |i: int| ConsoleLine { level: r.console_level@[i], text: r.console_text@[i] },
    )
}

/// The stored run still holds something of the page.
pub open spec fn has_page(r: StoredFlowRunRow) -> bool {
    r.final_url@.len() > 0 || r.title@.len() > 0 || r.text_snippet@.len() > 0 || lines_of(r).len()
        > 0
}

/// What a page shows of a stored run. The window decides whether the page is shown, never
/// what is still there: the column is emptied some time after the window closes.
pub open spec fn shows(v: FlowRunView, r: StoredFlowRunRow) -> bool {
    let past_window = r.evidence_expired != 0;
    &&& v.timestamp == instant_of(r.timestamp)
    &&& v.region == r.region
    &&& v.status == CheckStatus::of_number(r.status)
    &&& v.duration_ms == r.duration_ms
    &&& v.stopped_step == (match r.stopped_step {
        Some(n) => Some(n as usize),
        None => None,
    })
    &&& v.error == if_filled(r.error)
    &&& v.steps@ == steps_of(r)
    &&& v.evidence_expired == (past_window && r.stopped_step is Some)
    &&& match v.evidence {
        Some(e) => {
            &&& has_page(r) && !past_window
            &&& e.final_url == if_filled(r.final_url)
            &&& e.title == if_filled(r.title)
            &&& e.text_snippet == if_filled(r.text_snippet)
            &&& e.console@ == lines_of(r)
        },
        None => !has_page(r) || past_window,
    }
}

fn zip_steps(op: &Vec<String>, outcome: &Vec<i8>, ms: &Vec<u32>) -> (out: Vec<StepTrace>)
    ensures
        out@.len() == shorter(shorter(op@.len(), outcome@.len()), ms@.len()),
        forall|i: int|
            0 <= i < out@.len() ==> #[trigger] out@[i] == (StepTrace {
                op: op@[i],
                outcome: StepOutcome::of_number(outcome@[i]),
                duration_ms: ms@[i],
            }),
{
    let mut out: Vec<StepTrace> = Vec::new();
    let mut i: usize = 0;
    while i < op.len() && i < outcome.len() && i < ms.len()
        invariant
            i <= op@.len(),
            i <= outcome@.len(),
            i <= ms@.len(),
            out@.len() == i,
            forall|k: int|
                0 <= k < i ==> #[trigger] out@[k] == (StepTrace {
                    op: op@[k],
                    outcome: StepOutcome::of_number(outcome@[k]),
                    duration_ms: ms@[k],
                }),
        decreases op.len() - i,
    {
        out.push(
            StepTrace {
                op: op[i].clone(),
                outcome: StepOutcome::from_enum8(outcome[i]),
                duration_ms: ms[i],
            },
        );
        i += 1;
    }
    out
}

fn zip_lines(level: &Vec<String>, text: &Vec<String>) -> (out: Vec<ConsoleLine>)
    ensures
        out@.len() == shorter(level@.len(), text@.len()),
        forall|i: int|
            0 <= i < out@.len() ==> #[trigger] out@[i] == (ConsoleLine {
                level: level@[i],
                text: text@[i],
            }),
{
    let mut out: Vec<ConsoleLine> = Vec::new();
    let mut i: usize = 0;
    while i < level.len() && i < text.len()
        invariant
            i <= level@.len(),
            i <= text@.len(),
            out@.len() == i,
            forall|k: int|
                0 <= k < i ==> #[trigger] out@[k] == (ConsoleLine {
                    level: level@[k],
                    text: text@[k],
                }),
        decreases level.len() - i,
    {
        out.push(ConsoleLine { level: level[i].clone(), text: text[i].clone() });
        i += 1;
    }
    out
}

impl FlowRunView {
    /// What a page shows of a stored run.
    pub fn from(r: StoredFlowRunRow) -> (v: Self)
        ensures
            shows(v, r),
    {
        let steps = zip_steps(&r.step_op, &r.step_outcome, &r.step_ms);
        let console = zip_lines(&r.console_level, &r.console_text);
        assert(steps@ =~= steps_of(r));
        assert(console@ =~= lines_of(r));
        let final_url = some_if_filled(r.final_url);
        let title = some_if_filled(r.title);
        let text_snippet = some_if_filled(r.text_snippet);
        let page = final_url.is_some() || title.is_some() || text_snippet.is_some()
            || console.len() > 0;
        let past_window = r.evidence_expired != 0;
        let stopped_step = match r.stopped_step {
            Some(n) => Some(n as usize),
            None => None,
        };
        let evidence = if page && !past_window {
            Some(FlowEvidence { final_url, title, text_snippet, console })
        } else {
            None
        };
        FlowRunView {
            timestamp: from_unix_secs(r.timestamp),
            region: r.region,
            status: CheckStatus::from_enum8(r.status),
            duration_ms: r.duration_ms,
            stopped_step,
            error: some_if_filled(r.error),
            steps,
            evidence_expired: past_window && r.stopped_step.is_some(),
            evidence,
        }
    }
}

/// The stored row holds the columns of a written one.
pub open spec fn stored_as(row: FlowRunRow, s: StoredFlowRunRow) -> bool {
    &&& s.timestamp == row.timestamp
    &&& s.status == row.status
    &&& s.duration_ms == row.duration_ms
    &&& s.stopped_step == row.stopped_step
    &&& s.step_op@ == row.step_op@
    &&& s.step_outcome@ == row.step_outcome@
    &&& s.step_ms@ == row.step_ms@
}

/// A run's trace reads back as it was written, whatever became of the page.
pub proof fn law_flow_trace_reads_back(
    rec: FlowRunRecord,
    region: Seq<char>,
    ttl: RetentionDays,
    row: FlowRunRow,
    stored: StoredFlowRunRow,
    v: FlowRunView,
)
    requires
        is_flow_row_of(row, rec, region, ttl),
        stored_as(row, stored),
        shows(v, stored),
    ensures
        v.steps@ == rec.steps@,
        v.status == rec.status,
        v.duration_ms == rec.duration_ms,
        v.stopped_step is Some <==> index_where(rec.steps@, not_passed()) is Some,
{
    assert(v.steps@.len() == rec.steps@.len());
    assert forall|i: int| 0 <= i < rec.steps@.len() implies v.steps@[i] == rec.steps@[i] by {
        assert(stored.step_op@[i] == rec.steps@[i].op);
        assert(stored.step_outcome@[i] == rec.steps@[i].outcome.number());
        assert(stored.step_ms@[i] == rec.steps@[i].duration_ms);
    }
    assert(v.steps@ =~= rec.steps@);
}

/// A page past its window is not shown even while its columns are still there, and only a
/// run that stopped at a step ever lost one.
pub proof fn law_the_window_decides(r: StoredFlowRunRow, v: FlowRunView)
    requires
        shows(v, r),
    ensures
        r.evidence_expired != 0 ==> v.evidence is None,
        v.evidence_expired ==> v.evidence is None && r.stopped_step is Some,
        r.evidence_expired == 0 ==> !v.evidence_expired,
{
}

/// A result as it is read.
#[derive(Debug)]
pub struct OwnedResultRow {
    pub target_id: u128,
    pub timestamp: u32,
    pub status: i8,
    pub duration_ms: u32,
    pub dns_ms: Option<u16>,
    pub connect_ms: Option<u16>,
    pub tls_ms: Option<u16>,
    pub ttfb_ms: Option<u16>,
    pub response_code: Option<u16>,
    pub response_size: Option<u32>,
    pub error: Option<String>,
}

/// The result of a row of an org.
pub open spec fn result_of(row: OwnedResultRow, org_id: u128) -> CheckResult {
    CheckResult {
        target_id: row.target_id,
        org_id,
        timestamp: instant_of(row.timestamp),
        status: CheckStatus::of_number(row.status),
        duration_ms: row.duration_ms,
        dns_ms: row.dns_ms,
        connect_ms: row.connect_ms,
        tls_ms: row.tls_ms,
        ttfb_ms: row.ttfb_ms,
        response_code: row.response_code,
        response_size: row.response_size,
        error: row.error,
    }
}

/// The result of a row of an org.
pub fn row_to_result(row: OwnedResultRow, org_id: u128) -> (r: CheckResult)
    ensures
        r == result_of(row, org_id),
{
    CheckResult {
        target_id: row.target_id,
        org_id,
        timestamp: from_unix_secs(row.timestamp),
        status: CheckStatus::from_enum8(row.status),
        duration_ms: row.duration_ms,
        dns_ms: row.dns_ms,
        connect_ms: row.connect_ms,
        tls_ms: row.tls_ms,
        ttfb_ms: row.ttfb_ms,
        response_code: row.response_code,
        response_size: row.response_size,
        error: row.error,
    }
}

/// A result with its region as it is read.
#[derive(Debug)]
pub struct RegionResultRow {
    pub region: String,
    pub result: OwnedResultRow,
}

impl RegionResultRow {
    /// The region and the result of a row of an org.
    pub fn split(self, org_id: u128) -> (r: (String, CheckResult))
        ensures
            r == (self.region, result_of(self.result, org_id)),
    {
        let region = self.region;
        (region, row_to_result(self.result, org_id))
    }
}

/// A result with its org and region as it is read.
#[derive(Debug)]
pub struct MultiResultRow {
    pub org_id: u128,
    pub region: String,
    pub result: OwnedResultRow,
}

impl MultiResultRow {
    /// The region and the result of a row.
    pub fn split(self) -> (r: (String, CheckResult))
        ensures
            r == (self.region, result_of(self.result, self.org_id)),
    {
        let region = self.region;
        (region, row_to_result(self.result, self.org_id))
    }
}

/// A result that is written and read back is the same to the second.
pub proof fn law_results_read_back(
    r: CheckResult,
    row: CheckResultRow,
    back: OwnedResultRow,
    region: Seq<char>,
    agent_id: Seq<char>,
    ttl_days: u16,
)
    requires
        is_row_of(row, r, region, agent_id, ttl_days),
        back.target_id == row.target_id,
        back.timestamp == row.timestamp,
        back.status == row.status,
        back.duration_ms == row.duration_ms,
        back.dns_ms == row.dns_ms,
        back.connect_ms == row.connect_ms,
        back.tls_ms == row.tls_ms,
        back.ttfb_ms == row.ttfb_ms,
        back.response_code == row.response_code,
        back.response_size == row.response_size,
        opt_view(back.error) == opt_str_view(row.error),
    ensures
        result_of(back, row.org_id) == (CheckResult {
            timestamp: instant_of(stored_secs(r.timestamp)),
            error: back.error,
            ..r
        }),
        opt_view(back.error) == opt_view(r.error),
{
}

/// How many of some stored verdicts stand for this one.
pub open spec fn verdicts(s: Seq<i8>, v: CheckStatus) -> nat
    decreases s.len(),
{
    if s.len() == 0 {
        0
    } else {
        verdicts(s.drop_last(), v) + (if CheckStatus::of_number(s.last()) == v {
            1nat
        } else {
            0
        })
    }
}

/// Counts the newest verdict of each target.
pub fn breakdown_of(statuses: &Vec<i8>) -> (r: StatusBreakdown)
    ensures
        r.up == verdicts(statuses@, CheckStatus::Up),
        r.down == verdicts(statuses@, CheckStatus::Down),
        r.degraded == verdicts(statuses@, CheckStatus::Degraded),
        r.error == verdicts(statuses@, CheckStatus::Error),
{
    let mut up: u64 = 0;
    let mut down: u64 = 0;
    let mut degraded: u64 = 0;
    let mut error: u64 = 0;
    let mut i: usize = 0;
    assert(statuses@.take(0) =~= Seq::<i8>::empty());
    while i < statuses.len()
        invariant
            i <= statuses@.len(),
            up == verdicts(statuses@.take(i as int), CheckStatus::Up),
            down == verdicts(statuses@.take(i as int), CheckStatus::Down),
            degraded == verdicts(statuses@.take(i as int), CheckStatus::Degraded),
            error == verdicts(statuses@.take(i as int), CheckStatus::Error),
            up <= i,
            down <= i,
            degraded <= i,
            error <= i,
        decreases statuses.len() - i,
    {
        assert(statuses@.take(i + 1).drop_last() =~= statuses@.take(i as int));
        match CheckStatus::from_enum8(statuses[i]) {
            CheckStatus::Up => {
                up += 1;
            },
            CheckStatus::Down => {
                down += 1;
            },
            CheckStatus::Degraded => {
                degraded += 1;
            },
            CheckStatus::Error => {
                error += 1;
            },
        }
        i += 1;
    }
    assert(statuses@.take(i as int) =~= statuses@);
    StatusBreakdown { up, down, degraded, error }
}

/// One verdict of a fleet's history.
#[derive(Debug, Clone, Copy, PartialEq, Eq, Structural)]
pub struct VerdictRow {
    pub target_id: u128,
    pub status: i8,
}

/// The verdict is an outage.
pub open spec fn is_bad(r: VerdictRow) -> bool {
    is_outage(CheckStatus::of_number(r.status))
}

/// How many runs of failed checks a history holds that is ordered by target and time: a
/// failed check starts one where the check before it is another target's or had not
/// failed.
pub open spec fn fleet_outages(rows: Seq<VerdictRow>) -> nat
    decreases rows.len(),
{
    if rows.len() == 0 {
        0
    } else {
        let r = rows.last();
        let starts = is_bad(r) && (rows.len() == 1 || rows[rows.len() - 2].target_id
            != r.target_id || !is_bad(rows[rows.len() - 2]));
        fleet_outages(rows.drop_last()) + (if starts {
            1nat
        } else {
            0
        })
    }
}

/// How many runs of failed checks a history holds.
pub fn count_fleet_outages(rows: &Vec<VerdictRow>) -> (n: u64)
    ensures
        n == fleet_outages(rows@),
{
    let mut n: u64 = 0;
    let mut i: usize = 0;
    assert(rows@.take(0) =~= Seq::<VerdictRow>::empty());
    while i < rows.len()
        invariant
            i <= rows@.len(),
            n == fleet_outages(rows@.take(i as int)),
            n <= i,
        decreases rows.len() - i,
    {
        assert(rows@.take(i + 1).drop_last() =~= rows@.take(i as int));
        let bad = match CheckStatus::from_enum8(rows[i].status) {
            CheckStatus::Down | CheckStatus::Error => true,
            _ => false,
        };
        let continues = if i == 0 {
            false
        } else {
            let was_bad = match CheckStatus::from_enum8(rows[i - 1].status) {
                CheckStatus::Down | CheckStatus::Error => true,
                _ => false,
            };
            rows[i - 1].target_id == rows[i].target_id && was_bad
        };
        if bad && !continues {
            n += 1;
        }
        i += 1;
    }
    assert(rows@.take(i as int) =~= rows@);
    n
}

/// The histories of two targets, one behind the other, hold the outages of each.
pub proof fn law_outages_add_up_over_targets(a: Seq<VerdictRow>, b: Seq<VerdictRow>)
    requires
        a.len() == 0 || b.len() == 0 || a.last().target_id != b.first().target_id,
    ensures
        fleet_outages(a + b) == fleet_outages(a) + fleet_outages(b),
    decreases b.len(),
{
    if b.len() == 0 {
        assert(a + b =~= a);
    } else {
        let front = b.drop_last();
        assert((a + b).drop_last() =~= a + front);
        assert((a + b).last() == b.last());
        if front.len() > 0 {
            assert(front.first() == b.first());
            law_outages_add_up_over_targets(a, front);
            assert((a + b)[(a + b).len() - 2] == b[b.len() - 2]);
        } else {
            law_outages_add_up_over_targets(a, front);
            assert(a + front =~= a);
            if a.len() > 0 {
                assert((a + b)[(a + b).len() - 2] == a.last());
            }
        }
    }
}

/// Latency of one region over one slot, as it is read and rounded.
#[derive(Debug)]
pub struct RegionLatencyRow {
    pub region: String,
    pub bucket: LatencyBucket,
}

/// Latency of one region over time.
#[derive(Debug)]
pub struct RegionLatencySeries {
    pub region: String,
    pub label: String,
    pub buckets: Vec<LatencyBucket>,
}

/// What a series says.
pub ghost struct SeriesView {
    pub region: Seq<char>,
    pub buckets: Seq<LatencyBucket>,
}

/// A series' region and buckets; it has no label yet.
pub open spec fn series_model(s: RegionLatencySeries) -> SeriesView {
    SeriesView { region: s.region@, buckets: s.buckets@ }
}

/// The series of rows that are ordered by region: a row extends the last series where it
/// has its region, and starts another where it does not.
pub open spec fn series_of(rows: Seq<RegionLatencyRow>) -> Seq<SeriesView>
    decreases rows.len(),
{
    if rows.len() == 0 {
        Seq::empty()
    } else {
        let front = series_of(rows.drop_last());
        let r = rows.last();
        if front.len() > 0 && front.last().region == r.region@ {
            front.drop_last().push(
                SeriesView {
                    region: front.last().region,
                    buckets: front.last().buckets.push(r.bucket),
                },
            )
        } else {
            front.push(SeriesView { region: r.region@, buckets: seq![r.bucket] })
        }
    }
}

/// Folds rows that are ordered by region into one series per region.
pub fn fold_series(rows: Vec<RegionLatencyRow>) -> (out: Vec<RegionLatencySeries>)
    ensures
        out@.map_values(|s: RegionLatencySeries| series_model(s)) == series_of(rows@),
        forall|i: int| 0 <= i < out@.len() ==> (#[trigger] out@[i]).label@ == Seq::<char>::empty(),
{
    let ghost f = |s: RegionLatencySeries| series_model(s);
    let mut out: Vec<RegionLatencySeries> = Vec::new();
    let mut i: usize = 0;
    assert(rows@.take(0) =~= Seq::<RegionLatencyRow>::empty());
    assert(out@.map_values(f) =~= series_of(rows@.take(0)));
    while i < rows.len()
        invariant
            i <= rows@.len(),
            f == (|s: RegionLatencySeries| series_model(s)),
            out@.map_values(f) == series_of(rows@.take(i as int)),
            forall|k: int|
                0 <= k < out@.len() ==> (#[trigger] out@[k]).label@ == Seq::<char>::empty(),
        decreases rows.len() - i,
    {
        let ghost front = series_of(rows@.take(i as int));
        let ghost before = out@;
        proof {
            assert(rows@.take(i + 1).drop_last() =~= rows@.take(i as int));
            assert(before.map_values(f).len() == before.len());
            if before.len() > 0 {
                assert(front.last() == series_model(before.last()));
            }
        }
        let r = &rows[i];
        let n: usize = out.len();
        let extends = n > 0 && str_eq(out[n - 1].region.as_str(), r.region.as_str());
        if extends {
            let last = out.pop();
            if let Some(mut s) = last {
                let ghost old_s = s;
                s.buckets.push(r.bucket);
                out.push(s);
                proof {
                    assert(before.drop_last().map_values(f) =~= front.drop_last());
                    assert(out@.map_values(f) =~= front.drop_last().push(series_model(s)));
                }
            }
        } else {
            let mut buckets: Vec<LatencyBucket> = Vec::new();
            buckets.push(r.bucket);
            let label = String::new();
            assert(label@ =~= Seq::<char>::empty());
            assert(buckets@ =~= seq![r.bucket]);
            out.push(RegionLatencySeries { region: r.region.clone(), label, buckets });
            assert(out@.map_values(f) =~= front.push(
                SeriesView { region: r.region@, buckets: seq![r.bucket] },
            ));
        }
        i += 1;
    }
    assert(rows@.take(i as int) =~= rows@);
    out
}

/// Every bucket of some series, one series behind the other.
pub open spec fn all_buckets(s: Seq<SeriesView>) -> Seq<LatencyBucket>
    decreases s.len(),
{
    if s.len() == 0 {
        Seq::empty()
    } else {
        all_buckets(s.drop_last()) + s.last().buckets
    }
}

/// Folding loses and reorders nothing, and neighbouring series differ in region.
pub proof fn law_series_hold_every_row(rows: Seq<RegionLatencyRow>)
    ensures
        all_buckets(series_of(rows)) == rows.map_values(|r: RegionLatencyRow| r.bucket),
        forall|i: int|
            0 <= i < series_of(rows).len() - 1 ==> (#[trigger] series_of(rows)[i]).region
                != series_of(rows)[i + 1].region,
        rows.len() > 0 ==> series_of(rows).len() > 0 && series_of(rows).last().region
            == rows.last().region@,
    decreases rows.len(),
{
    let f = |r: RegionLatencyRow| r.bucket;
    let out = series_of(rows);
    if rows.len() == 0 {
        assert(all_buckets(out) =~= rows.map_values(f));
    } else {
        law_series_hold_every_row(rows.drop_last());
        let front = series_of(rows.drop_last());
        let r = rows.last();
        assert(rows.map_values(f) =~= rows.drop_last().map_values(f).push(r.bucket));
        if front.len() > 0 && front.last().region == r.region@ {
            let merged = SeriesView {
                region: front.last().region,
                buckets: front.last().buckets.push(r.bucket),
            };
            assert(out.drop_last() =~= front.drop_last());
            assert(out.last() == merged);
            assert(all_buckets(out) =~= all_buckets(front).push(r.bucket));
            assert forall|i: int| 0 <= i < out.len() - 1 implies (#[trigger] out[i]).region
                != out[i + 1].region by {
                assert(front[i].region != front[i + 1].region);
            }
        } else {
            assert(out.drop_last() =~= front);
            assert(all_buckets(out) =~= all_buckets(front).push(r.bucket));
            assert forall|i: int| 0 <= i < out.len() - 1 implies (#[trigger] out[i]).region
                != out[i + 1].region by {
                if i < front.len() - 1 {
                    assert(front[i].region != front[i + 1].region);
                }
            }
        }
    }
}

/// A flow's step over one slot, as it is read and rounded.
#[derive(Debug)]
pub struct StepRow {
    pub step: u16,
    pub op: String,
    pub bucket: FlowStepBucket,
}

/// A step's durations over one slot. `avg` is missing where no run passed the step.
#[derive(Debug, Clone, Copy, PartialEq, Eq, Structural)]
pub struct FlowStepBucket {
    /// Start of the slot, in milliseconds since 1970.
    pub t: i64,
    pub avg: Option<u32>,
    pub samples: u64,
    pub failed: u64,
}

/// The start of a slot in milliseconds.
pub fn slot_millis(bucket_ts: u32) -> (r: i64)
    ensures
        r == bucket_ts * 1000,
{
    bucket_ts as i64 * 1000
}

/// A step's durations over time, under what it runs today.
#[derive(Debug)]
pub struct FlowStepTrend {
    pub step: u16,
    pub op: String,
    pub buckets: Vec<FlowStepBucket>,
}

/// What a trend says.
pub ghost struct TrendView {
    pub step: u16,
    pub op: Seq<char>,
    pub buckets: Seq<FlowStepBucket>,
}

/// A trend's step, label and buckets.
pub open spec fn trend_model(t: FlowStepTrend) -> TrendView {
    TrendView { step: t.step, op: t.op@, buckets: t.buckets@ }
}

/// The trends of rows that are ordered by step and time: a row extends the last trend
/// where it has its step, and labels it anew.
pub open spec fn trends_of(rows: Seq<StepRow>) -> Seq<TrendView>
    decreases rows.len(),
{
    if rows.len() == 0 {
        Seq::empty()
    } else {
        let front = trends_of(rows.drop_last());
        let r = rows.last();
        if front.len() > 0 && front.last().step == r.step {
            front.drop_last().push(
                TrendView {
                    step: r.step,
                    op: r.op@,
                    buckets: front.last().buckets.push(r.bucket),
                },
            )
        } else {
            front.push(TrendView { step: r.step, op: r.op@, buckets: seq![r.bucket] })
        }
    }
}

/// Folds rows that are ordered by step and time into one trend per step.
pub fn fold_trends(rows: Vec<StepRow>) -> (out: Vec<FlowStepTrend>)
    ensures
        out@.map_values(|t: FlowStepTrend| trend_model(t)) == trends_of(rows@),
{
    let ghost f = |t: FlowStepTrend| trend_model(t);
    let mut out: Vec<FlowStepTrend> = Vec::new();
    let mut i: usize = 0;
    assert(rows@.take(0) =~= Seq::<StepRow>::empty());
    assert(out@.map_values(f) =~= trends_of(rows@.take(0)));
    while i < rows.len()
        invariant
            i <= rows@.len(),
            f == (|t: FlowStepTrend| trend_model(t)),
            out@.map_values(f) == trends_of(rows@.take(i as int)),
        decreases rows.len() - i,
    {
        let ghost front = trends_of(rows@.take(i as int));
        let ghost before = out@;
        proof {
            assert(rows@.take(i + 1).drop_last() =~= rows@.take(i as int));
            assert(before.map_values(f).len() == before.len());
            if before.len() > 0 {
                assert(front.last() == trend_model(before.last()));
            }
        }
        let r = &rows[i];
        let n: usize = out.len();
        let extends = n > 0 && out[n - 1].step == r.step;
        if extends {
            let last = out.pop();
            if let Some(mut t) = last {
                t.op = r.op.clone();
                t.buckets.push(r.bucket);
                out.push(t);
                proof {
                    assert(before.drop_last().map_values(f) =~= front.drop_last());
                    assert(out@.map_values(f) =~= front.drop_last().push(trend_model(t)));
                }
            }
        } else {
            let mut buckets: Vec<FlowStepBucket> = Vec::new();
            buckets.push(r.bucket);
            assert(buckets@ =~= seq![r.bucket]);
            out.push(FlowStepTrend { step: r.step, op: r.op.clone(), buckets });
            assert(out@.map_values(f) =~= front.push(
                TrendView { step: r.step, op: r.op@, buckets: seq![r.bucket] },
            ));
        }
        i += 1;
    }
    assert(rows@.take(i as int) =~= rows@);
    out
}

/// Neighbouring trends differ in step, and the last trend is labelled by the last row.
pub proof fn law_trends_are_one_per_step(rows: Seq<StepRow>)
    ensures
        forall|i: int|
            0 <= i < trends_of(rows).len() - 1 ==> (#[trigger] trends_of(rows)[i]).step
                != trends_of(rows)[i + 1].step,
        rows.len() > 0 ==> trends_of(rows).len() > 0 && trends_of(rows).last().step
            == rows.last().step && trends_of(rows).last().op == rows.last().op@,
        trends_of(rows).len() <= rows.len(),
    decreases rows.len(),
{
    if rows.len() > 0 {
        law_trends_are_one_per_step(rows.drop_last());
        let front = trends_of(rows.drop_last());
        let out = trends_of(rows);
        assert forall|i: int| 0 <= i < out.len() - 1 implies (#[trigger] out[i]).step
            != out[i + 1].step by {
            if i < front.len() - 1 {
                assert(front[i].step != front[i + 1].step);
            }
        }
    }
}

/// What a failed job printed, where it printed something: an expired column reads empty.
pub fn failure_output(bodies: &Vec<String>) -> (r: Option<String>)
    ensures
        r == (if bodies@.len() == 0 || bodies@[0]@.len() == 0 {
            None
        } else {
            Some(bodies@[0])
        }),
{
    if bodies.len() == 0 {
        None
    } else if bodies[0].as_str().is_empty() {
        None
    } else {
        Some(bodies[0].clone())
    }
}

/// The period of the same span right before a range.
pub open spec fn prior_of(range: TimeRange) -> TimeRange {
    TimeRange {
        from: Timestamp { nanos: (range.from.nanos - (range.to.nanos - range.from.nanos)) as i128 },
        to: range.from,
    }
}

/// The period of the same span right before a range.
pub fn prior_window(range: TimeRange) -> (r: TimeRange)
    requires
        range.from.wf(),
        range.to.wf(),
    ensures
        r == prior_of(range),
        r.to == range.from,
        r.from.nanos == range.from.nanos - (range.to.nanos - range.from.nanos),
        range.to.nanos - range.from.nanos == r.to.nanos - r.from.nanos,
{
    let span: i128 = range.to.nanos - range.from.nanos;
    TimeRange { from: Timestamp { nanos: range.from.nanos - span }, to: range.from }
}

/// The id of a high and a low half.
pub fn id_from_halves(hi: u64, lo: u64) -> (r: u128)
    ensures
        r == hi * 0x1_0000_0000_0000_0000 + lo,
{
    hi as u128 * 0x1_0000_0000_0000_0000u128 + lo as u128
}

/// The minute of the newest sample, where there is one.
pub fn last_minute(ts: u32) -> (r: Option<i64>)
    ensures
        r == (if ts > 0 {
            Some(ts as i64)
        } else {
            None
        }),
{
    if ts > 0 {
        Some(ts as i64)
    } else {
        None
    }
}

/// An instant is stored as its whole seconds; one before 1970 as the first, one that 32 bits
/// do not hold as the last.
pub proof fn law_instants_are_stored_in_seconds(t: Timestamp)
    ensures
        0 <= t.unix() <= 0xffff_ffff ==> stored_secs(t) == t.unix(),
        t.unix() < 0 ==> stored_secs(t) == 0,
        t.unix() > 0xffff_ffff ==> stored_secs(t) == 0xffff_ffff,
        forall|secs: u32| (#[trigger] instant_of(secs)).nanos == secs * 1_000_000_000,
{
}

/// A written result is tagged with the region, the agent and the retention it was written
/// under, and is its org's.
pub proof fn law_a_result_is_tagged(
    row: CheckResultRow,
    r: CheckResult,
    region: Seq<char>,
    agent_id: Seq<char>,
    ttl_days: u16,
)
    requires
        is_row_of(row, r, region, agent_id, ttl_days),
    ensures
        row.org_id == r.org_id && row.target_id == r.target_id,
        row.region@ == region && row.agent_id@ == agent_id && row.ttl_days == ttl_days,
        r.timestamp.unix() >= 0 && r.timestamp.unix() <= 0xffff_ffff ==> row.timestamp
            == r.timestamp.unix(),
        r.status == CheckStatus::Up ==> row.status == 1,
        r.status == CheckStatus::Down ==> row.status == 2,
        r.status == CheckStatus::Degraded ==> row.status == 3,
        r.status == CheckStatus::Error ==> row.status == 4,
{
}

/// A written run is its org's and target's, tagged with its region and both retentions, and
/// names the first step that did not pass.
pub proof fn law_a_run_is_tagged(
    row: FlowRunRow,
    r: FlowRunRecord,
    region: Seq<char>,
    ttl: RetentionDays,
    i: int,
)
    requires
        is_flow_row_of(row, r, region, ttl),
        0 <= i <= r.steps@.len(),
        forall|j: int| 0 <= j < i ==> (#[trigger] r.steps@[j]).outcome == StepOutcome::Passed,
        i < r.steps@.len() ==> r.steps@[i].outcome != StepOutcome::Passed,
    ensures
        row.org_id == r.org_id && row.target_id == r.target_id && row.region@ == region,
        row.evidence_days == ttl.evidence && row.ttl_days == ttl.row,
        row.timestamp == stored_secs(r.timestamp),
        i == r.steps@.len() ==> row.stopped_step is None,
        i < r.steps@.len() && i <= 0xffff ==> (row.stopped_step matches Some(n) && n == i),
        i < r.steps@.len() && i > 0xffff ==> row.stopped_step == Some(0xffffu16),
{
    if i < r.steps@.len() {
        lemma_index_where_is(r.steps@, not_passed(), i);
    } else {
        lemma_index_where_none(r.steps@, not_passed());
    }
}

/// Within its window a run reads back with its page: its address, title, text and console, and
/// its error, where they were not empty.
pub proof fn law_a_run_reads_back_with_its_page(
    rec: FlowRunRecord,
    region: Seq<char>,
    ttl: RetentionDays,
    row: FlowRunRow,
    stored: StoredFlowRunRow,
    v: FlowRunView,
    page: FlowEvidence,
    url: String,
    title: String,
    text: String,
    error: String,
)
    requires
        is_flow_row_of(row, rec, region, ttl),
        stored_as(row, stored),
        stored.region@ == row.region@,
        stored.error@ == row.error@,
        stored.final_url@ == row.final_url@,
        stored.title@ == row.title@,
        stored.text_snippet@ == row.text_snippet@,
        stored.console_level@ == row.console_level@,
        stored.console_text@ == row.console_text@,
        stored.evidence_expired == 0,
        shows(v, stored),
        rec.evidence == Some(page),
        page.final_url == Some(url) && url@.len() > 0,
        page.title == Some(title) && title@.len() > 0,
        page.text_snippet == Some(text) && text@.len() > 0,
        rec.error == Some(error) && error@.len() > 0,
    ensures
        v.region@ == region,
        v.timestamp.unix() == stored_secs(rec.timestamp),
        opt_view(v.error) == Some(error@),
        v.evidence matches Some(e) && {
            &&& opt_view(e.final_url) == Some(url@)
            &&& opt_view(e.title) == Some(title@)
            &&& opt_view(e.text_snippet) == Some(text@)
            &&& e.console@ == page.console@
        },
        !v.evidence_expired,
{
    let e = v.evidence->Some_0;
    assert(stored.final_url@ == url@);
    assert(e.console@.len() == page.console@.len());
    assert forall|k: int| 0 <= k < page.console@.len() implies e.console@[k]
        == page.console@[k] by {
        assert(stored.console_level@[k] == page.console@[k].level);
        assert(stored.console_text@[k] == page.console@[k].text);
    }
    assert(e.console@ =~= page.console@);
    let secs = stored_secs(rec.timestamp);
    assert((secs * 1_000_000_000) / 1_000_000_000 == secs);
}

/// A run shows its error and its page's texts only where they are filled, and a page where
/// anything of it is; a run that lost its page to the window says so.
pub proof fn law_what_is_empty_is_not_shown(r: StoredFlowRunRow, v: FlowRunView)
    requires
        shows(v, r),
    ensures
        v.error is Some <==> r.error@.len() > 0,
        v.duration_ms == r.duration_ms && v.region == r.region,
        v.stopped_step is Some <==> r.stopped_step is Some,
        r.stopped_step matches Some(n) ==> v.stopped_step == Some(n as usize),
        v.evidence_expired <==> r.evidence_expired != 0 && r.stopped_step is Some,
        v.evidence is Some <==> r.evidence_expired == 0 && (r.final_url@.len() > 0 || r.title@.len()
            > 0 || r.text_snippet@.len() > 0 || (r.console_level@.len() > 0 && r.console_text@.len()
            > 0)),
        v.evidence matches Some(e) ==> {
            &&& e.final_url is Some <==> r.final_url@.len() > 0
            &&& e.title is Some <==> r.title@.len() > 0
            &&& e.text_snippet is Some <==> r.text_snippet@.len() > 0
        },
{
}

/// A breakdown counts one verdict more where a number is added that stands for it: one for up,
/// two for down, three for degraded, and any other for an error.
pub proof fn law_verdicts_are_counted_by_number(s: Seq<i8>, n: i8)
    ensures
        verdicts(Seq::empty(), CheckStatus::Up) == 0,
        verdicts(s.push(n), CheckStatus::Up) == verdicts(s, CheckStatus::Up) + (if n == 1 {
            1nat
        } else {
            0
        }),
        verdicts(s.push(n), CheckStatus::Down) == verdicts(s, CheckStatus::Down) + (if n == 2 {
            1nat
        } else {
            0
        }),
        verdicts(s.push(n), CheckStatus::Degraded) == verdicts(s, CheckStatus::Degraded) + (if n
            == 3 {
            1nat
        } else {
            0
        }),
        verdicts(s.push(n), CheckStatus::Error) == verdicts(s, CheckStatus::Error) + (if n != 1 && n
            != 2 && n != 3 {
            1nat
        } else {
            0
        }),
{
    assert(s.push(n).drop_last() =~= s);
}

/// A history of a fleet has one outage more where a check is added that is neither up nor
/// degraded, and the check before it was another target's, or up or degraded, or there was
/// none.
pub proof fn law_a_fleet_outage_begins_with_a_failure(rows: Seq<VerdictRow>, r: VerdictRow)
    ensures
        fleet_outages(Seq::empty()) == 0,
        ({
            let fails = r.status != 1 && r.status != 3;
            let goes_on = rows.len() > 0 && rows.last().target_id == r.target_id
                && rows.last().status != 1 && rows.last().status != 3;
            fleet_outages(rows.push(r)) == fleet_outages(rows) + (if fails && !goes_on {
                1nat
            } else {
                0
            })
        }),
{
    let all = rows.push(r);
    assert(all.drop_last() =~= rows);
    if rows.len() > 0 {
        assert(all[all.len() - 2] == rows.last());
    }
}

/// Every bucket of some trends, one trend behind the other.
pub open spec fn all_step_buckets(s: Seq<TrendView>) -> Seq<FlowStepBucket>
    decreases s.len(),
{
    if s.len() == 0 {
        Seq::empty()
    } else {
        all_step_buckets(s.drop_last()) + s.last().buckets
    }
}

/// Folding the rows of a flow's steps loses and reorders nothing.
pub proof fn law_trends_hold_every_row(rows: Seq<StepRow>)
    ensures
        all_step_buckets(trends_of(rows)) == rows.map_values(|r: StepRow| r.bucket),
    decreases rows.len(),
{
    let f = |r: StepRow| r.bucket;
    let out = trends_of(rows);
    if rows.len() == 0 {
        assert(all_step_buckets(out) =~= rows.map_values(f));
    } else {
        law_trends_hold_every_row(rows.drop_last());
        let front = trends_of(rows.drop_last());
        let r = rows.last();
        assert(rows.map_values(f) =~= rows.drop_last().map_values(f).push(r.bucket));
        if front.len() > 0 && front.last().step == r.step {
            assert(out.drop_last() =~= front.drop_last());
        } else {
            assert(out.drop_last() =~= front);
        }
        assert(all_step_buckets(out) =~= all_step_buckets(front).push(r.bucket));
    }
}

} // verus!
