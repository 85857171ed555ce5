//! The wall clock.

use vstd::prelude::*;

verus! {

/// A moment in Coordinated Universal Time: seconds since the Unix epoch and the nanoseconds past
/// that second.
#[derive(Clone, Copy, PartialEq, Eq, Structural, Debug, Hash)]
pub struct Timestamp {
    pub secs: i64,
    pub nanos: u32,
}

/// Calls `chrono::Utc::now` and takes the moment apart with `DateTime::timestamp` and
/// `DateTime::timestamp_subsec_nanos`.
///
/// Nothing is claimed of the result: it is whatever the clock of the machine shows.
#[verifier::external_body]
pub(crate) fn utc_now() -> (r: Timestamp)
{
    let now = chrono::Utc::now();
    Timestamp { secs: now.timestamp(), nanos: now.timestamp_subsec_nanos() }
}

} // verus!
