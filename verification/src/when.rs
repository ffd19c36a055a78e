//! Moments as text.

#[allow(unused_imports)]
use crate::text::opt_view;
use crate::types::Timestamp;
use vstd::prelude::*;

verus! {

/// What `chrono::DateTime::to_rfc3339` writes for a moment; none where chrono has no such moment.
pub uninterp spec fn rfc3339_of(secs: i64, nanos: u32) -> Option<Seq<char>>;

/// What `chrono::DateTime::to_rfc3339_opts` writes for a moment, with a fraction of as many digits
/// as it takes and `Z` for UTC; none where chrono has no such moment.
pub uninterp spec fn stamp_of(secs: i64, nanos: u32) -> Option<Seq<char>>;

/// What chrono writes for the day of a moment, year, month and day; none where chrono has no such
/// moment.
pub uninterp spec fn day_of(secs: i64, nanos: u32) -> Option<Seq<char>>;

/// `chrono::DateTime::from_timestamp`, then `to_rfc3339`. The result is a function of the moment.
#[verifier::external_body]
pub(crate) fn rfc3339(t: Timestamp) -> (r: Option<String>)
    ensures
        opt_view(r) == rfc3339_of(t.secs, t.nanos),
{
    chrono::DateTime::from_timestamp(t.secs, t.nanos).map(|d| d.to_rfc3339())
}

/// `chrono::DateTime::from_timestamp`, then `to_rfc3339_opts` with `SecondsFormat::AutoSi` and `Z`,
/// the form in which chrono serialises a moment. The result is a function of the moment.
#[verifier::external_body]
pub(crate) fn stamp(t: Timestamp) -> (r: Option<String>)
    ensures
        opt_view(r) == stamp_of(t.secs, t.nanos),
{
    chrono::DateTime::from_timestamp(t.secs, t.nanos).map(
        |d| d.to_rfc3339_opts(chrono::SecondsFormat::AutoSi, true),
    )
}

/// `chrono::DateTime::from_timestamp`, then `format` with year, month and day. The result is a
/// function of the moment.
#[verifier::external_body]
pub(crate) fn day(t: Timestamp) -> (r: Option<String>)
    ensures
        opt_view(r) == day_of(t.secs, t.nanos),
{
    chrono::DateTime::from_timestamp(t.secs, t.nanos).map(|d| d.format("%Y-%m-%d").to_string())
}

} // verus!
