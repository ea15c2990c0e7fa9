//! The wall clock and timestamp rendering. The clock value is an outside
//! fact that nothing can be promised about; every function that reasons
//! about time takes the clock reading as an argument instead.

use vstd::prelude::*;

verus! {

/// What chrono renders, in RFC 3339 form, for a unix-millisecond
/// timestamp; a function of the timestamp alone.
pub uninterp spec fn rfc3339_of(ms: int) -> Seq<char>;

/// Relies on chrono's `Utc::now`: the current unix time in milliseconds.
/// A wall clock can read anything, so nothing is promised of the value;
/// callers clamp it into the range the rest of the library works in.
#[verifier::external_body]
pub fn now_unix_millis() -> (r: i64)
{
    chrono::Utc::now().timestamp_millis()
}

/// Relies on chrono's `TimestampMillis` construction and `to_rfc3339`:
/// the RFC 3339 rendering of a unix-millisecond timestamp in UTC, a
/// function of the timestamp alone. Every admissible input is far inside
/// chrono's representable range, so the construction cannot fail.
#[verifier::external_body]
pub fn format_rfc3339_millis(ms: i64) -> (r: String)
    requires
        0 <= ms <= 0x4000000000000,
    ensures
        r@ == rfc3339_of(ms as int),
{
    match chrono::TimeZone::timestamp_millis_opt(&chrono::Utc, ms) {
        chrono::LocalResult::Single(dt) => dt.to_rfc3339(),
        _ => String::new(),
    }
}

/// The clock reading clamped into the library's time range.
pub fn current_time_millis() -> (r: u64)
    ensures
        r <= crate::ratelimit::MAX_TIME,
{
    let raw = now_unix_millis();
    if raw < 0 {
        0
    } else if raw > 0x4000000000000 {
        0x4000000000000u64
    } else {
        raw as u64
    }
}

} // verus!
