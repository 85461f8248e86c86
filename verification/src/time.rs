//! Timestamps. The core measures time in unix-epoch milliseconds; the
//! only outside help it takes is parsing RFC 3339 strings.

use vstd::prelude::*;

use crate::errors::CoreError;

verus! {

/// The unix-epoch milliseconds an RFC 3339 timestamp denotes, if the
/// string is well-formed.
pub uninterp spec fn rfc3339_millis(s: Seq<char>) -> Option<i64>;

/// Relies on chrono::DateTime::parse_from_rfc3339, read off in epoch
/// milliseconds with chrono::DateTime::timestamp_millis: the outcome is a
/// function of the string alone.
#[verifier::external_body]
fn parse_rfc3339(s: &str) -> (r: Option<i64>)
    ensures
        r == rfc3339_millis(s@),
{
    match chrono::DateTime::parse_from_rfc3339(s) {
        Ok(dt) => Some(dt.timestamp_millis()),
        Err(_) => None,
    }
}

/// Check a client-supplied filter timestamp: a well-formed stamp gives its
/// epoch milliseconds, anything else is a validation error.
pub fn parse_min_updated_at(s: &str) -> (r: Result<i64, CoreError>)
    ensures
        match rfc3339_millis(s@) {
            Some(m) => r == Ok::<i64, CoreError>(m),
            None => r == Err::<i64, CoreError>(CoreError::Validation),
        },
{
    match parse_rfc3339(s) {
        Some(m) => Ok(m),
        None => Err(CoreError::Validation),
    }
}

} // verus!
