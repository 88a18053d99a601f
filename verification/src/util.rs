//! Clock reading and fresh identifiers. Both depend on the environment, so
//! they are read here and handed to the planning and history logic as plain
//! values.

use vstd::prelude::*;

verus! {

/// Relies on `std::time::SystemTime`: the current time as milliseconds
/// since the Unix epoch, `0` if the clock reads before the epoch. Nothing
/// is assumed of the value: callers take it as an arbitrary `u64`.
#[verifier::external_body]
pub fn now_ms() -> u64 {
    std::time::SystemTime::now()
        .duration_since(std::time::UNIX_EPOCH)
        .unwrap_or_default()
        .as_millis() as u64
}

/// Relies on `uuid::Uuid::new_v4` and its `Display` form: a random
/// version-4 UUID rendered as the 36-character hyphenated lower-case hex
/// string. The value is random; only its length is assumed.
#[verifier::external_body]
pub(crate) fn new_uuid() -> (r: String)
    ensures
        r@.len() == 36,
{
    uuid::Uuid::new_v4().to_string()
}

} // verus!
