//! What a check reports, and who wrote a row.

use vstd::prelude::*;

use crate::strings::{opt_clone, str_eq};
use crate::time::Timestamp;

verus! {

/// Verdict of one check.
#[derive(Debug, Clone, Copy, PartialEq, Eq, Structural, Hash)]
pub enum CheckStatus {
    Up,
    Down,
    Degraded,
    Error,
}

impl CheckStatus {
    /// The name that the rollup's enum stores.
    pub open spec fn name(self) -> Seq<char> {
        match self {
            CheckStatus::Up => "up"@,
            CheckStatus::Down => "down"@,
            CheckStatus::Degraded => "degraded"@,
            CheckStatus::Error => "error"@,
        }
    }

    /// The number that the rollup's enum stores.
    pub open spec fn number(self) -> i8 {
        match self {
            CheckStatus::Up => 1,
            CheckStatus::Down => 2,
            CheckStatus::Degraded => 3,
            CheckStatus::Error => 4,
        }
    }

    pub fn as_str(self) -> (r: &'static str)
        ensures
            r@ == self.name(),
            match self {
                CheckStatus::Up => r@ == "up"@,
                CheckStatus::Down => r@ == "down"@,
                CheckStatus::Degraded => r@ == "degraded"@,
                CheckStatus::Error => r@ == "error"@,
            },
    {
        match self {
            CheckStatus::Up => "up",
            CheckStatus::Down => "down",
            CheckStatus::Degraded => "degraded",
            CheckStatus::Error => "error",
        }
    }

    pub fn as_enum8(self) -> (r: i8)
        ensures
            r == self.number(),
            match self {
                CheckStatus::Up => r == 1,
                CheckStatus::Down => r == 2,
                CheckStatus::Degraded => r == 3,
                CheckStatus::Error => r == 4,
            },
    {
        match self {
            CheckStatus::Up => 1,
            CheckStatus::Down => 2,
            CheckStatus::Degraded => 3,
            CheckStatus::Error => 4,
        }
    }

    /// The status that a stored number stands for. The column's domain is closed;
    /// a number outside it reads as an error.
    pub open spec fn of_number(n: i8) -> CheckStatus {
        if n == 1 {
            CheckStatus::Up
        } else if n == 2 {
            CheckStatus::Down
        } else if n == 3 {
            CheckStatus::Degraded
        } else {
            CheckStatus::Error
        }
    }

    pub fn from_enum8(n: i8) -> (r: CheckStatus)
        ensures
            r == CheckStatus::of_number(n),
            r == CheckStatus::Up <==> n == 1,
            r == CheckStatus::Down <==> n == 2,
            r == CheckStatus::Degraded <==> n == 3,
    {
        if n == 1 {
            CheckStatus::Up
        } else if n == 2 {
            CheckStatus::Down
        } else if n == 3 {
            CheckStatus::Degraded
        } else {
            CheckStatus::Error
        }
    }
}

/// A status reads back from the number it is stored as.
pub proof fn law_status_round_trip(s: CheckStatus)
    ensures
        CheckStatus::of_number(s.number()) == s,
{
}

/// Result of one check of one target.
#[derive(Debug)]
pub struct CheckResult {
    pub target_id: u128,
    pub org_id: u128,
    pub timestamp: Timestamp,
    pub status: CheckStatus,
    pub duration_ms: u32,
    pub dns_ms: Option<u16>,
    pub connect_ms: Option<u16>,
    pub tls_ms: Option<u16>,
    pub ttfb_ms: Option<u16>,
    pub response_code: Option<u16>,
    pub response_size: Option<u32>,
    pub error: Option<String>,
}

impl Clone for CheckResult {
    fn clone(&self) -> (r: Self)
        ensures
            r == *self,
    {
        CheckResult {
            target_id: self.target_id,
            org_id: self.org_id,
            timestamp: self.timestamp,
            status: self.status,
            duration_ms: self.duration_ms,
            dns_ms: self.dns_ms,
            connect_ms: self.connect_ms,
            tls_ms: self.tls_ms,
            ttfb_ms: self.ttfb_ms,
            response_code: self.response_code,
            response_size: self.response_size,
            error: opt_clone(&self.error),
        }
    }
}

/// Where a write came from.
#[derive(Debug, Clone, Copy, PartialEq, Eq, Structural)]
pub enum WriteSource {
    Ui,
    Api,
}

impl WriteSource {
    /// The source as the database writes it.
    pub open spec fn name(self) -> Seq<char> {
        match self {
            WriteSource::Ui => "ui"@,
            WriteSource::Api => "api"@,
        }
    }

    /// The source a stored name stands for.
    pub open spec fn of_name(name: Seq<char>) -> WriteSource {
        if name == "api"@ {
            WriteSource::Api
        } else {
            WriteSource::Ui
        }
    }

    /// The source as the database writes it.
    pub fn as_str(self) -> (r: &'static str)
        ensures
            r@ == self.name(),
            match self {
                WriteSource::Ui => r@ == "ui"@,
                WriteSource::Api => r@ == "api"@,
            },
    {
        match self {
            WriteSource::Ui => "ui",
            WriteSource::Api => "api",
        }
    }

    /// The source a stored name stands for.
    pub fn from_db(s: &str) -> (r: WriteSource)
        ensures
            r == WriteSource::of_name(s@),
            r == (if s@ == "api"@ {
                WriteSource::Api
            } else {
                WriteSource::Ui
            }),
    {
        if str_eq(s, "api") {
            WriteSource::Api
        } else {
            WriteSource::Ui
        }
    }
}

/// A written source reads back.
pub proof fn law_write_source_round_trip(s: WriteSource)
    ensures
        WriteSource::of_name(s.name()) == s,
{
    reveal_strlit("ui");
    reveal_strlit("api");
    assert("ui"@.len() != "api"@.len());
}

} // verus!
