//! The wall clock and random identifiers, the two inputs the library takes
//! from its surroundings.

use vstd::prelude::*;

verus! {

/// Relies on `std::time::SystemTime::now`: whole seconds since the Unix
/// epoch, or 0 where the clock reads earlier than the epoch. The time is
/// read afresh on each call, so nothing is promised of the number.
#[verifier::external_body]
pub(crate) fn unix_now_secs() -> (r: i64) {
    std::time::SystemTime::now().duration_since(std::time::UNIX_EPOCH).map(|d| d.as_secs() as i64).unwrap_or(0)
}

/// Relies on `uuid::Uuid::new_v4` and its `Display`: a fresh random UUID
/// in hyphenated text form. Being random, nothing is promised of it.
#[verifier::external_body]
pub(crate) fn new_uuid_text() -> (r: String) {
    uuid::Uuid::new_v4().to_string()
}

} // verus!
