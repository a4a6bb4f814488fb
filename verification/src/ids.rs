//! Fresh identifiers and the current time, from the `uuid` and `chrono`
//! crates.
use vstd::prelude::*;

verus! {

/// Calls `uuid::Uuid::new_v4` and renders it with `to_string`, the
/// hyphenated lower-case form. The contract states only that this form is 36
/// characters long: the value itself is random.
#[verifier::external_body]
pub(crate) fn new_id() -> (id: String)
    ensures
        id@.len() == 36,
{
    uuid::Uuid::new_v4().to_string()
}

/// Calls `chrono::Utc::now` and returns `timestamp_millis` of it, the
/// milliseconds since the Unix epoch. Nothing is stated of the value: it is
/// the clock's.
#[verifier::external_body]
pub(crate) fn now_millis() -> (t: i64) {
    chrono::Utc::now().timestamp_millis()
}

} // verus!
