//! The wall clock, read through the `chrono` crate.

use vstd::prelude::*;

verus! {

/// Calls `chrono::Utc::now` and takes the instant as milliseconds since the
/// Unix epoch. Trusted, and nothing is claimed of the value: two calls may
/// give any two numbers.
#[verifier::external_body]
pub(crate) fn timestamp_now() -> (millis: i64) {
    chrono::Utc::now().timestamp_millis()
}

} // verus!
