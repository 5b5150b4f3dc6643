//! Values that come from the running system (fresh identifiers and the
//! clock), and the text form of identifiers.

use vstd::prelude::*;
use vstd::arithmetic::power::pow;

verus! {

/// The lowercase hexadecimal digit of `d` (0 to 15).
pub open spec fn hex_digit(d: int) -> char {
    if d < 10 {
        (d + 48) as char
    } else {
        (d + 87) as char
    }
}

/// The `k`-th hexadecimal digit of `v`, counting from the most significant
/// of its 32 digits.
pub open spec fn nibble(v: u128, k: int) -> int {
    (v as int / pow(16, (31 - k) as nat)) % 16
}

/// The `n` hexadecimal digits of `v` starting at digit `from`.
pub open spec fn hex_digits(v: u128, from: int, n: nat) -> Seq<char>
    decreases n,
{
    if n == 0 {
        Seq::empty()
    } else {
        hex_digits(v, from, (n - 1) as nat).push(hex_digit(nibble(v, from + n - 1)))
    }
}

/// The hyphenated lowercase text of the UUID whose 128-bit value is `v`:
/// its 32 digits in groups of 8, 4, 4, 4 and 12.
pub open spec fn uuid_text(v: u128) -> Seq<char> {
    hex_digits(v, 0, 8) + seq!['-'] + hex_digits(v, 8, 4) + seq!['-'] + hex_digits(v, 12, 4) + seq!['-']
        + hex_digits(v, 16, 4) + seq!['-'] + hex_digits(v, 20, 12)
}

/// A fresh random (version 4) UUID, as its 128-bit value (`Uuid::new_v4`).
#[verifier::external_body]
pub(crate) fn new_uuid() -> u128 {
    uuid::Uuid::new_v4().as_u128()
}

/// A fresh random (version 4) UUID in its hyphenated text form
/// (`Uuid::new_v4().to_string()`): the text of some 128-bit value.
#[verifier::external_body]
pub(crate) fn new_uuid_string() -> (s: String)
    ensures
        exists|v: u128| s@ == uuid_text(v),
{
    uuid::Uuid::new_v4().to_string()
}

/// The hyphenated lowercase text of the UUID with value `v`
/// (`Uuid::from_u128(v).to_string()`; `from_u128` takes the value's
/// big-endian bytes, and `Display` writes them as lowercase hex in groups).
#[verifier::external_body]
pub(crate) fn uuid_string(v: u128) -> (s: String)
    ensures
        s@ == uuid_text(v),
{
    uuid::Uuid::from_u128(v).to_string()
}

/// Seconds since the Unix epoch by the system clock (`SystemTime::now`,
/// `duration_since(UNIX_EPOCH)`); none when the clock is set before the epoch.
#[verifier::external_body]
pub(crate) fn unix_time_secs() -> Option<u64> {
    match std::time::SystemTime::now().duration_since(std::time::UNIX_EPOCH) {
        Ok(d) => Some(d.as_secs()),
        Err(_) => None,
    }
}

/// The timestamp given to a new line or message: seconds since the Unix
/// epoch, and 0 when the clock reads a moment before the epoch.
pub(crate) fn timestamp_now() -> u64 {
    match unix_time_secs() {
        Some(t) => t,
        None => 0,
    }
}

} // verus!
