//! What is asked of the services behind the pipeline, and how their answers are read.

use crate::error::RecallError;
use crate::text::{chars_of, head, string_of};
use crate::types::Stage;
use vstd::prelude::*;
use vstd::string::*;

pub mod embedder;
pub mod generator;
pub mod systemone;

verus! {

/// `s` without the slashes at its end.
pub open spec fn unslashed(s: Seq<char>) -> Seq<char>
    decreases s.len(),
{
    if s.len() > 0 && s.last() == '/' {
        unslashed(s.drop_last())
    } else {
        s
    }
}

/// `s` without the slashes at its end.
pub fn trim_slashes(s: &str) -> (r: String)
    ensures
        r@ == unslashed(s@),
{
    let v = chars_of(s);
    let mut n: usize = v.len();
    assert(v@.take(n as int) =~= v@);
    while n > 0 && v[n - 1] == '/'
        invariant
            n <= v@.len(),
            unslashed(v@) == unslashed(v@.take(n as int)),
        decreases n,
    {
        assert(v@.take(n as int).drop_last() =~= v@.take(n - 1));
        n = n - 1;
    }
    assert(v@.subrange(0, n as int) =~= v@.take(n as int));
    string_of(&v, 0, n)
}

/// A path under a base address.
pub(crate) fn address(base: &str, path: &str) -> (r: String)
    ensures
        r@ == base@ + path@,
{
    let mut out = base.to_owned();
    out.append(path);
    out
}

/// How much of the body of a refusal is kept.
pub const BODY_KEPT: usize = 500;

/// Whether a status says that a request succeeded.
pub open spec fn success(status: u16) -> bool {
    200 <= status < 300
}

/// Turns a refusal of an upstream into an error that keeps its status, so that it can be told
/// whether a retry is worth it. Nothing where the request succeeded.
pub fn refusal(stage: Stage, status: u16, body: &str) -> (r: Option<RecallError>)
    ensures
        r is None <==> success(status),
        r matches Some(e) ==> (e matches RecallError::UpstreamStatus { stage: s, status: t, body: b }
            && s == stage && t == status && b@ == if body@.len() <= BODY_KEPT {
            body@
        } else {
            body@.take(BODY_KEPT as int)
        }),
{
    if 200 <= status && status < 300 {
        None
    } else {
        Some(RecallError::UpstreamStatus { stage, status, body: head(body, BODY_KEPT) })
    }
}

} // verus!
