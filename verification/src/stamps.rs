//! The identifier and the time that a new starred entry is stamped with: a
//! random (version 4) UUID in its hyphenated lowercase form, and the current
//! UTC time in RFC 3339.
use vstd::prelude::*;

use crate::text::is_digit;

verus! {

// ---------------------------------------------------------------------------
// Identifiers.
/// A hexadecimal digit, in lowercase.
pub open spec fn hex_digit(n: u8) -> char {
    if n < 10 {
        (48 + n) as char
    } else {
        (87 + n) as char
    }
}

/// Byte `i` of the version 4 UUID made of the random bytes: the version
/// nibble of byte 6 set to 4, the variant bits of byte 8 to `10`.
pub open spec fn v4_byte(bytes: Seq<u8>, i: int) -> u8 {
    if i == 6 {
        (bytes[6] & 0x0f) | 0x40
    } else if i == 8 {
        (bytes[8] & 0x3f) | 0x80
    } else {
        bytes[i]
    }
}

/// Hexadecimal digit `k` (of 32) of that UUID, high nibble first.
pub open spec fn v4_hex(bytes: Seq<u8>, k: int) -> char {
    if k % 2 == 0 {
        hex_digit(v4_byte(bytes, k / 2) / 16)
    } else {
        hex_digit(v4_byte(bytes, k / 2) % 16)
    }
}

/// The hyphenated lowercase text of the version 4 UUID made of 16 random
/// bytes: 32 hexadecimal digits in groups of 8, 4, 4, 4 and 12.
pub open spec fn uuid_v4_text(bytes: Seq<u8>) -> Seq<char> {
    Seq::new(
        36,
        |p: int|
            if p == 8 || p == 13 || p == 18 || p == 23 {
                '-'
            } else if p < 8 {
                v4_hex(bytes, p)
            } else if p < 13 {
                v4_hex(bytes, p - 1)
            } else if p < 18 {
                v4_hex(bytes, p - 2)
            } else if p < 23 {
                v4_hex(bytes, p - 3)
            } else {
                v4_hex(bytes, p - 4)
            },
    )
}

/// `getrandom::fill` on 16 bytes: random bytes from the system, `None` where
/// the system has none to give.
#[verifier::external_body]
fn random_bytes() -> (r: Option<Vec<u8>>)
    ensures
        r matches Some(b) ==> b.len() == 16,
{
    let mut bytes = [0u8; 16];
    match getrandom::fill(&mut bytes) {
        Ok(()) => Some(bytes.to_vec()),
        Err(_) => None,
    }
}

/// `uuid::Builder::from_random_bytes`, then `Uuid`'s `Display`: the version 4
/// UUID of the bytes, hyphenated in lowercase.
#[verifier::external_body]
fn uuid_v4_string(bytes: &Vec<u8>) -> (r: String)
    requires
        bytes.len() == 16,
    ensures
        r@ == uuid_v4_text(bytes@),
{
    let mut array = [0u8; 16];
    array.copy_from_slice(bytes);
    uuid::Builder::from_random_bytes(array).into_uuid().to_string()
}

/// Whether an identifier is the text of a version 4 UUID of some random bytes.
pub open spec fn is_uuid_v4_text(id: Seq<char>) -> bool {
    exists|b: Seq<u8>| b.len() == 16 && id == uuid_v4_text(b)
}

/// A fresh random identifier: the text of a version 4 UUID, `None` where no
/// random bytes could be had.
pub fn new_entry_id() -> (r: Option<String>)
    ensures
        r matches Some(id) ==> is_uuid_v4_text(id@),
{
    match random_bytes() {
        Some(bytes) => {
            let id = uuid_v4_string(&bytes);
            assert(bytes@.len() == 16 && id@ == uuid_v4_text(bytes@));
            Some(id)
        },
        None => None,
    }
}

// ---------------------------------------------------------------------------
// Times.
/// The first second of the year 10000: before it, a year has four digits.
pub const YEAR_10000_SECS: u64 = 253402300800;

/// Names what `chrono::DateTime::from_timestamp(secs, nanos)` written with
/// `to_rfc3339` gives.
pub uninterp spec fn utc_rfc3339_text(secs: int, nanos: int) -> Seq<char>;

/// The shape of an RFC 3339 UTC time before the year 10000, as `chrono`
/// writes one: `YYYY-MM-DDTHH:MM:SS`, then a fraction of 3, 6 or 9 digits
/// unless it is zero, then `+00:00`.
pub open spec fn is_rfc3339_utc(s: Seq<char>) -> bool {
    let n = s.len() as int;
    &&& n == 25 || n == 29 || n == 32 || n == 35
    &&& forall|i: int|
        0 <= i < 19 && i != 4 && i != 7 && i != 10 && i != 13 && i != 16 ==> is_digit(#[trigger] s[i])
    &&& s[4] == '-' && s[7] == '-' && s[10] == 'T' && s[13] == ':' && s[16] == ':'
    &&& n > 25 ==> s[19] == '.' && forall|i: int| 20 <= i < n - 6 ==> is_digit(#[trigger] s[i])
    &&& s.subrange(n - 6, n) == seq!['+', '0', '0', ':', '0', '0']
}

/// `SystemTime::now` measured from `UNIX_EPOCH`: whole seconds and the
/// nanoseconds past them; `None` where the clock reads a time before 1970.
#[verifier::external_body]
fn clock_since_epoch() -> (r: Option<(u64, u32)>)
    ensures
        r matches Some((_, nanos)) ==> nanos < 1_000_000_000,
{
    match std::time::SystemTime::now().duration_since(std::time::UNIX_EPOCH) {
        Ok(elapsed) => Some((elapsed.as_secs(), elapsed.subsec_nanos())),
        Err(_) => None,
    }
}

/// `chrono::DateTime::from_timestamp` then `to_rfc3339`: the time that many
/// seconds and nanoseconds after 1970 in UTC, named by `utc_rfc3339_text`;
/// given for every time before the year 10000, in the RFC 3339 shape.
#[verifier::external_body]
fn rfc3339_at(secs: i64, nanos: u32) -> (r: Option<String>)
    ensures
        r matches Some(t) ==> t@ == utc_rfc3339_text(secs as int, nanos as int),
        (0 <= secs < YEAR_10000_SECS && nanos < 1_000_000_000) ==> (r is Some && is_rfc3339_utc(r->0@)),
{
    match chrono::DateTime::from_timestamp(secs, nanos) {
        Some(time) => Some(time.to_rfc3339()),
        None => None,
    }
}

/// Whether a text is a UTC time after 1970 as `chrono` writes it in RFC 3339.
pub open spec fn is_clock_text(t: Seq<char>) -> bool {
    exists|secs: int, nanos: int|
        0 <= secs && 0 <= nanos < 1_000_000_000 && t == utc_rfc3339_text(secs, nanos) && (secs
            < YEAR_10000_SECS ==> is_rfc3339_utc(t))
}

/// The RFC 3339 text of a clock reading (seconds and nanoseconds since 1970,
/// `None` where the clock reads an earlier time): `None` for no reading or
/// for seconds past what a timestamp holds; the formatted time otherwise,
/// always given before the year 10000.
pub fn rfc3339_of_reading(reading: Option<(u64, u32)>) -> (r: Option<String>)
    ensures
        match reading {
            None => r is None,
            Some((s, n)) => {
                &&& s > i64::MAX ==> r is None
                &&& (s < YEAR_10000_SECS && n < 1_000_000_000) ==> (r is Some && is_rfc3339_utc(r->0@))
                &&& r is Some ==> r->0@ == utc_rfc3339_text(s as int, n as int)
            },
        },
{
    let (secs, nanos) = match reading {
        Some(reading) => reading,
        None => return None,
    };
    if secs > i64::MAX as u64 {
        return None;
    }
    rfc3339_at(secs as i64, nanos)
}

/// The current UTC time in RFC 3339, `None` where the clock reads a time
/// before 1970 or past what a timestamp holds.
pub fn now_rfc3339() -> (r: Option<String>)
    ensures
        r matches Some(t) ==> is_clock_text(t@),
{
    let reading = clock_since_epoch();
    let r = rfc3339_of_reading(reading);
    proof {
        if r is Some {
            let (secs, nanos) = reading->0;
            assert(0 <= secs && 0 <= nanos < 1_000_000_000 && r->0@ == utc_rfc3339_text(secs as int, nanos as int));
        }
    }
    r
}

} // verus!
