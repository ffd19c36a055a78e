//! What can go wrong on the way to an answer, and what the caller is told of it.

use crate::text::decimal_text;
#[allow(unused_imports)]
use crate::text::decimal;
use crate::types::Stage;
use vstd::prelude::*;
use vstd::string::*;

verus! {

/// How a query of the index failed.
#[derive(Debug, Clone, Copy, PartialEq, Eq, Structural)]
pub enum IndexFault {
    PoolTimedOut,
    Io,
    PoolClosed,
    Other,
}

/// What can go wrong on the way to an answer.
#[derive(Debug)]
pub enum RecallError {
    /// A stage took longer than it may.
    Timeout { stage: Stage, ms: u64 },
    /// An upstream could not be reached, or broke off.
    Upstream { stage: Stage, timeout: bool, connect: bool, request: bool, source: String },
    /// An upstream answered, but with a status or body that cannot be used.
    UpstreamStatus { stage: Stage, status: u16, body: String },
    /// A query of the index failed.
    Index { fault: IndexFault, source: String },
    BadRequest(String),
    AtCapacity,
    NotFound,
}

/// What a refused caller is sent.
#[derive(Debug)]
pub struct ErrorReply {
    pub status: u16,
    pub code: &'static str,
    pub message: String,
    /// The seconds after which the caller may come back.
    pub retry_after: Option<u64>,
}

/// The seconds a caller is asked to wait where every slot is taken.
pub const RETRY_AFTER_SECS: u64 = 2;

impl RecallError {
    /// Whether one retry is worth it.
    pub open spec fn transient(self) -> bool {
        match self {
            RecallError::Timeout { .. } => true,
            RecallError::Upstream { timeout, connect, request, .. } => timeout || connect
                || request,
            RecallError::UpstreamStatus { status, .. } => status >= 500 || status == 429,
            RecallError::Index { fault, .. } => fault != IndexFault::Other,
            RecallError::BadRequest(_) | RecallError::AtCapacity | RecallError::NotFound => false,
        }
    }

    /// The code the caller is told.
    pub open spec fn code_name(self) -> Seq<char> {
        match self {
            RecallError::Timeout { .. } => "timeout"@,
            RecallError::Upstream { .. } | RecallError::UpstreamStatus { .. } => "upstream_error"@,
            RecallError::Index { .. } => "index_error"@,
            RecallError::BadRequest(_) => "bad_request"@,
            RecallError::AtCapacity => "at_capacity"@,
            RecallError::NotFound => "not_found"@,
        }
    }

    /// The status of the reply.
    pub open spec fn http_status(self) -> u16 {
        match self {
            RecallError::Timeout { .. } => 504,
            RecallError::Upstream { .. } | RecallError::UpstreamStatus { .. } => 502,
            RecallError::Index { .. } => 500,
            RecallError::BadRequest(_) => 400,
            RecallError::AtCapacity => 503,
            RecallError::NotFound => 404,
        }
    }

    /// The error in words.
    pub open spec fn wording(self) -> Seq<char> {
        match self {
            RecallError::Timeout { stage, ms } => stage.name() + " timed out after "@ + decimal(
                ms as nat,
            ) + "ms"@,
            RecallError::Upstream { stage, source, .. } => stage.name() + " upstream failed: "@
                + source@,
            RecallError::UpstreamStatus { stage, status, body } => stage.name() + " returned "@
                + decimal(status as nat) + ": "@ + body@,
            RecallError::Index { source, .. } => "index query failed: "@ + source@,
            RecallError::BadRequest(why) => "invalid request: "@ + why@,
            RecallError::AtCapacity => "at capacity"@,
            RecallError::NotFound => "ask not found"@,
        }
    }

    /// Whether the failure is worth one retry. The same classification decides what is retried
    /// and what is reported.
    pub fn is_transient(&self) -> (r: bool)
        ensures
            r == self.transient(),
    {
        match self {
            RecallError::Timeout { .. } => true,
            RecallError::Upstream { timeout, connect, request, .. } => *timeout || *connect
                || *request,
            RecallError::UpstreamStatus { status, .. } => *status >= 500 || *status == 429,
            RecallError::Index { fault, .. } => *fault != IndexFault::Other,
            RecallError::BadRequest(_) | RecallError::AtCapacity | RecallError::NotFound => false,
        }
    }

    pub fn code(&self) -> (r: &'static str)
        ensures
            r@ == self.code_name(),
    {
        match self {
            RecallError::Timeout { .. } => "timeout",
            RecallError::Upstream { .. } | RecallError::UpstreamStatus { .. } => "upstream_error",
            RecallError::Index { .. } => "index_error",
            RecallError::BadRequest(_) => "bad_request",
            RecallError::AtCapacity => "at_capacity",
            RecallError::NotFound => "not_found",
        }
    }

    pub fn status(&self) -> (r: u16)
        ensures
            r == self.http_status(),
    {
        match self {
            RecallError::Timeout { .. } => 504,
            RecallError::Upstream { .. } | RecallError::UpstreamStatus { .. } => 502,
            RecallError::Index { .. } => 500,
            RecallError::BadRequest(_) => 400,
            RecallError::AtCapacity => 503,
            RecallError::NotFound => 404,
        }
    }

    /// The error in words.
    pub fn message(&self) -> (r: String)
        ensures
            r@ == self.wording(),
    {
        match self {
            RecallError::Timeout { stage, ms } => {
                let mut out = stage.as_str().to_owned();
                out.append(" timed out after ");
                out.append(decimal_text(*ms).as_str());
                out.append("ms");
                out
            },
            RecallError::Upstream { stage, source, .. } => {
                let mut out = stage.as_str().to_owned();
                out.append(" upstream failed: ");
                out.append(source.as_str());
                out
            },
            RecallError::UpstreamStatus { stage, status, body } => {
                let mut out = stage.as_str().to_owned();
                out.append(" returned ");
                out.append(decimal_text(*status as u64).as_str());
                out.append(": ");
                out.append(body.as_str());
                out
            },
            RecallError::Index { source, .. } => {
                let mut out = "index query failed: ".to_owned();
                out.append(source.as_str());
                out
            },
            RecallError::BadRequest(why) => {
                let mut out = "invalid request: ".to_owned();
                out.append(why.as_str());
                out
            },
            RecallError::AtCapacity => "at capacity".to_owned(),
            RecallError::NotFound => "ask not found".to_owned(),
        }
    }

    /// What the caller is sent. Only a caller turned away for want of a slot is told when to come
    /// back.
    pub fn reply(&self) -> (r: ErrorReply)
        ensures
            r.status == self.http_status(),
            r.code@ == self.code_name(),
            r.message@ == self.wording(),
            r.retry_after == if self is AtCapacity {
                Some(RETRY_AFTER_SECS)
            } else {
                None
            },
    {
        let retry_after: Option<u64> = match self {
            RecallError::AtCapacity => Some(RETRY_AFTER_SECS),
            _ => None,
        };
        ErrorReply { status: self.status(), code: self.code(), message: self.message(), retry_after }
    }
}

pub type Result<T> = std::result::Result<T, RecallError>;

/// What to do after an attempt.
#[derive(Debug)]
pub enum Retry<T> {
    /// Make the second attempt.
    Again,
    /// Hand this to the caller.
    Give(Result<T>),
}

/// Decides after an attempt: the first is followed by a second only where its failure was
/// transient, the second by nothing.
pub fn after_attempt<T>(first: bool, outcome: Result<T>) -> (r: Retry<T>)
    ensures
        r is Again <==> first && (outcome matches Err(e) && e.transient()),
        r matches Retry::Give(given) ==> given == outcome,
{
    if first {
        if let Err(e) = &outcome {
            if e.is_transient() {
                return Retry::Again;
            }
        }
    }
    Retry::Give(outcome)
}

/// At most one retry: the second attempt is always the last.
pub proof fn law_one_retry<T>(outcome: Result<T>, r: Retry<T>)
    requires
        call_ensures(after_attempt::<T>, (false, outcome), r),
    ensures
        r == Retry::<T>::Give(outcome),
{
}

/// A failure for which a retry is worth it is never blamed on the caller: its status is a server
/// error.
pub proof fn law_transient_is_server_error(e: RecallError)
    requires
        e.transient(),
    ensures
        e.http_status() >= 500,
{
}

/// Two errors have the same code exactly where they have the same status.
pub proof fn law_code_and_status_agree(a: RecallError, b: RecallError)
    ensures
        a.code_name() == b.code_name() <==> a.http_status() == b.http_status(),
{
    reveal_strlit("timeout");
    reveal_strlit("upstream_error");
    reveal_strlit("index_error");
    reveal_strlit("bad_request");
    reveal_strlit("at_capacity");
    reveal_strlit("not_found");
    assert("timeout"@.len() == 7);
    assert("upstream_error"@.len() == 14);
    assert("index_error"@.len() == 11);
    assert("bad_request"@.len() == 11);
    assert("at_capacity"@.len() == 11);
    assert("not_found"@.len() == 9);
    assert("index_error"@[0] != "bad_request"@[0]);
    assert("index_error"@[0] != "at_capacity"@[0]);
    assert("bad_request"@[0] != "at_capacity"@[0]);
}

} // verus!
