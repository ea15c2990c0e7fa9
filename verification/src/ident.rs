//! Identifier generation: fresh UUIDs for rooms, messages and sessions,
//! and the numeric tag a session actor carries.

use vstd::prelude::*;

verus! {

/// Relies on uuid's `Uuid::new_v4` and its `Display` form: a random
/// version-4 UUID rendered hyphenated, which is exactly 36 characters.
/// The value itself is random, so nothing more is promised of it.
#[verifier::external_body]
pub fn new_uuid() -> (r: String)
    ensures
        r@.len() == 36,
{
    uuid::Uuid::new_v4().to_string()
}

/// Relies on rand's `random`: a value drawn from the standard
/// distribution, of which nothing can be promised.
pub assume_specification<T>[ rand::random::<T> ]() -> (r: T)
    where
        rand::distributions::Standard: rand::distributions::Distribution<T>,
;

} // verus!
