//! The wall clock.
use vstd::prelude::*;

verus! {

/// Relies on `chrono::Utc::now` and `DateTime::timestamp`: the system clock's current time
/// in whole seconds since the Unix epoch. Nothing is promised of the value.
#[verifier::external_body]
pub(crate) fn now() -> (t: i64) {
    chrono::Utc::now().timestamp()
}

} // verus!
