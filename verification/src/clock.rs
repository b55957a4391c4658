//! The wall clock.

use vstd::prelude::*;

verus! {

/// The current time in milliseconds since the Unix epoch.
///
/// Calls `chrono::Utc::now` and `DateTime::timestamp_millis`. The value
/// depends on the machine's clock, so nothing is claimed of it: callers are
/// verified for every `i64`.
#[verifier::external_body]
pub(crate) fn now_millis() -> (now: i64) {
    chrono::Utc::now().timestamp_millis()
}

} // verus!
