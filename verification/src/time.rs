//! Timestamps: epoch seconds, carried in card files as RFC 3339 text.
//!
//! Formatting and parsing are chrono's work; the library names their results
//! and reasons over those names.

use vstd::prelude::*;

verus! {

/// The largest timestamp the storage format carries: 9999-12-31T23:59:59 UTC.
pub const MAX_TIMESTAMP: i64 = 253_402_300_799;

/// Whether `t` is an epoch-second count the storage format can carry.
pub open spec fn ts_in_range(t: int) -> bool {
    0 <= t <= MAX_TIMESTAMP as int
}

/// The RFC 3339 text of the timestamp `t` (epoch seconds, UTC).
pub uninterp spec fn rfc3339_of(t: int) -> Seq<char>;

/// The timestamp an RFC 3339 text denotes, if it parses.
pub uninterp spec fn rfc3339_parse(s: Seq<char>) -> Option<int>;

/// Relies on chrono's `DateTime::from_timestamp` and `DateTime::to_rfc3339`:
/// every in-range second count makes a date, the text depends on the seconds
/// alone, is never empty, holds neither quote nor newline, and chrono's
/// `parse_from_rfc3339` reads the same seconds back from it.
#[verifier::external_body]
pub(crate) fn format_rfc3339(t: i64) -> (r: String)
    requires
        ts_in_range(t as int),
    ensures
        r@ == rfc3339_of(t as int),
        rfc3339_parse(r@) == Some(t as int),
        r@.len() > 0,
        forall|i: int| 0 <= i < r@.len() ==> r@[i] != '"' && r@[i] != '\n',
{
    chrono::DateTime::from_timestamp(t, 0).unwrap().to_rfc3339()
}

/// Relies on chrono's `DateTime::parse_from_rfc3339` and `timestamp`: the
/// result depends on the text alone.
#[verifier::external_body]
pub(crate) fn parse_rfc3339(s: &str) -> (r: Option<i64>)
    ensures
        match r {
            Some(t) => rfc3339_parse(s@) == Some(t as int),
            None => rfc3339_parse(s@) is None,
        },
{
    match chrono::DateTime::parse_from_rfc3339(s) {
        Ok(dt) => Some(dt.timestamp()),
        Err(_) => None,
    }
}

} // verus!
