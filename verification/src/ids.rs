//! Identifiers and time stamps.
//!
//! Step and procedure identifiers are UUIDs held as their 128-bit values;
//! new ones come from the `uuid` crate, the current time from `chrono`.
use vstd::prelude::*;

use crate::models::Timestamp;

verus! {

/// The lowercase hexadecimal digit for `d` (`d < 16`).
pub open spec fn hex_digit(d: u128) -> char {
    if d < 10 {
        (d + 48) as char
    } else {
        (d + 87) as char
    }
}

/// The `k`-th hexadecimal digit of `id`, the most significant first
/// (`0 <= k < 32`).
pub open spec fn nibble(id: u128, k: int) -> u128 {
    (id >> ((124 - 4 * k) as u128)) & 15
}

/// The number of hyphens before position `i` of the hyphenated text.
pub open spec fn hyphens_before(i: int) -> int {
    if i < 8 {
        0
    } else if i < 13 {
        1
    } else if i < 18 {
        2
    } else if i < 23 {
        3
    } else {
        4
    }
}

/// The hyphenated lowercase text of a UUID: its 32 hexadecimal digits, the
/// most significant first, in groups of 8, 4, 4, 4 and 12 joined by `-`.
pub open spec fn uuid_text(id: u128) -> Seq<char> {
    Seq::new(
        36,
        |i: int|
            if i == 8 || i == 13 || i == 18 || i == 23 {
                '-'
            } else {
                hex_digit(nibble(id, i - hyphens_before(i)))
            },
    )
}

/// A new random identifier (`uuid::Uuid::new_v4`, as a 128-bit value).
///
/// The crate takes 128 random bits and sets the version nibble (bits 76 to
/// 79) to 4 and the two variant bits (62 and 63) to `10`; the contract states
/// those bits and nothing of the random rest.
#[verifier::external_body]
pub(crate) fn new_uuid() -> (id: u128)
    ensures
        (id >> 76u128) & 15 == 4,
        (id >> 62u128) & 3 == 2,
{
    uuid::Uuid::new_v4().as_u128()
}

/// The text of an identifier (`uuid::Uuid::from_u128` then `to_string`):
/// the hyphenated lowercase form.
#[verifier::external_body]
pub(crate) fn uuid_string(id: u128) -> (r: String)
    ensures
        r@ == uuid_text(id),
{
    uuid::Uuid::from_u128(id).to_string()
}

/// The current time (`chrono::Utc::now`), as seconds and nanoseconds since
/// the Unix epoch.
///
/// `chrono` reads the system clock and panics when it is set before the
/// epoch; the contract states only that the seconds are not negative and the
/// nanoseconds are below one second, which holds of every time it returns.
#[verifier::external_body]
pub(crate) fn now_timestamp() -> (t: Timestamp)
    ensures
        t.secs >= 0,
        t.nanos < 1_000_000_000,
{
    let now = chrono::Utc::now();
    Timestamp { secs: now.timestamp(), nanos: now.timestamp_subsec_nanos() }
}

} // verus!
