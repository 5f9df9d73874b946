//! Identifier and clock sources, taken on trust from outside code.

use vstd::prelude::*;

verus! {

/// Relies on uuid::Uuid::new_v4 and its Display impl: a fresh random v4
/// UUID printed in the hyphenated form, which is always 36 characters.
/// The value itself is random, so nothing more is promised of it.
#[verifier::external_body]
pub fn new_id() -> (r: String)
    ensures
        r@.len() == 36,
{
    uuid::Uuid::new_v4().to_string()
}

/// Relies on std::time::SystemTime::now and duration_since: the wall
/// clock as milliseconds since the Unix epoch, negative for a clock set
/// before it and saturated at the i64 range, so the call returns on
/// every clock state. The clock is not monotone and nothing is promised
/// of the value.
#[verifier::external_body]
pub fn now_millis() -> i64 {
    match std::time::SystemTime::now().duration_since(std::time::UNIX_EPOCH) {
        Ok(since) => i64::try_from(since.as_millis()).unwrap_or(i64::MAX),
        Err(before) => match i64::try_from(before.duration().as_millis()) {
            Ok(ms) => ms.saturating_neg(),
            Err(_) => i64::MIN,
        },
    }
}

} // verus!
