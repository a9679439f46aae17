use vstd::prelude::*;

verus! {

/// Relies on `chrono::DateTime::<Utc>::from(SystemTime)` and
/// `DateTime::timestamp_millis`: the current wall-clock time in milliseconds
/// since the Unix epoch, negative for a clock set before it. Nothing is
/// promised of the value.
#[verifier::external_body]
pub fn now_millis() -> (r: i64) {
    chrono::DateTime::<chrono::Utc>::from(std::time::SystemTime::now()).timestamp_millis()
}

} // verus!
