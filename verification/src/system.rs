//! The clock and random identifiers.
use vstd::prelude::*;

verus! {

/// `chrono::Utc::now().timestamp_millis()`: the current time in milliseconds; it
/// depends on the clock, so nothing is stated of it.
#[verifier::external_body]
pub(crate) fn now_millis() -> (r: i64) {
    chrono::Utc::now().timestamp_millis()
}

/// `uuid::Uuid::new_v4().to_string()`: a random identifier in hyphenated form,
/// 36 characters long.
#[verifier::external_body]
pub(crate) fn new_uuid() -> (r: String)
    ensures
        r@.len() == 36,
{
    uuid::Uuid::new_v4().to_string()
}

} // verus!
