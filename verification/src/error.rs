//! The errors that stores report.

use vstd::prelude::*;

use crate::strings::owned;

verus! {

/// Why a store refused or failed a request.
#[derive(Debug)]
pub enum AppError {
    /// A plan limit would be crossed.
    QuotaExceeded { quota: String, current: i64, limit: i64, plan: String },
    /// The request is well-formed but cannot be carried out.
    Unprocessable { code: String, message: String },
    /// Anything else, with its diagnostic.
    Other(String),
}

impl AppError {
    /// A plan limit would be crossed.
    pub fn quota_exceeded(quota: &str, current: i64, limit: i64, plan: &str) -> (r: AppError)
        ensures
            r.is_quota(quota@, current, limit, plan@),
            r matches AppError::QuotaExceeded { quota: q, current: c, limit: l, plan: p } && q@
                == quota@ && c == current && l == limit && p@ == plan@,
    {
        AppError::QuotaExceeded { quota: owned(quota), current, limit, plan: owned(plan) }
    }

    /// A refusal with its code.
    pub fn unprocessable(code: &str, message: &str) -> (r: AppError)
        ensures
            r.is_unprocessable(code@, message@),
            r matches AppError::Unprocessable { code: c, message: m } && c@ == code@ && m@
                == message@,
    {
        AppError::Unprocessable { code: owned(code), message: owned(message) }
    }

    /// Anything else.
    pub fn other(message: &str) -> (r: AppError)
        ensures
            r matches AppError::Other(m) && m@ == message@,
    {
        AppError::Other(owned(message))
    }

    /// The error reports this quota with these numbers.
    pub open spec fn is_quota(
        self,
        quota: Seq<char>,
        current: i64,
        limit: i64,
        plan: Seq<char>,
    ) -> bool {
        self matches AppError::QuotaExceeded { quota: q, current: c, limit: l, plan: p } && q@
            == quota && c == current && l == limit && p@ == plan
    }

    /// The error is a refusal with this code and message.
    pub open spec fn is_unprocessable(self, code: Seq<char>, message: Seq<char>) -> bool {
        self matches AppError::Unprocessable { code: c, message: m } && c@ == code && m@ == message
    }
}

} // verus!
