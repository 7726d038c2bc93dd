use vstd::prelude::*;
use chrono::Utc;
use crate::domain::Timestamp;

verus! {

/// Reads the wall clock with `chrono::Utc::now` and hands the instant back
/// as microseconds since the epoch (`DateTime::timestamp_micros`). Which
/// instant comes back depends on the moment of the call: nothing is claimed
/// of it.
#[verifier::external_body]
pub(crate) fn now() -> Timestamp {
    Timestamp { micros: Utc::now().timestamp_micros() }
}

} // verus!
