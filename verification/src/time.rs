//! Access to the wall clock, as epoch milliseconds.

use vstd::prelude::*;

verus! {

/// Milliseconds since the Unix epoch, from the system clock.
///
/// Relies on `chrono::Utc::now`, which yields the current instant and does
/// not return on a clock set before the epoch, and on
/// `DateTime::timestamp_millis`, which converts it to epoch milliseconds;
/// a post-epoch instant gives a non-negative count.  Nothing more can be
/// promised of a clock reading.
#[verifier::external_body]
pub(crate) fn now_millis() -> (r: i64)
    ensures
        r >= 0,
{
    chrono::Utc::now().timestamp_millis()
}

} // verus!
