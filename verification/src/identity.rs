//! Fresh identifiers and keys.

use rand::RngCore;
use vstd::prelude::*;
use vstd::string::*;

verus! {

/// A lower-case hexadecimal digit.
pub open spec fn is_hex(c: char) -> bool {
    '0' <= c <= '9' || 'a' <= c <= 'f'
}

/// Twelve hexadecimal digits.
pub open spec fn is_short_id(text: Seq<char>) -> bool {
    text.len() == 12 && forall|i: int| 0 <= i < 12 ==> is_hex(#[trigger] text[i])
}

/// The text form of a UUID: 36 characters, hyphens after the eighth, twelfth, sixteenth and
/// twentieth digit, lower-case hexadecimal digits elsewhere.
pub open spec fn is_uuid(text: Seq<char>) -> bool {
    text.len() == 36 && forall|i: int|
        0 <= i < 36 ==> if i == 8 || i == 13 || i == 18 || i == 23 {
            #[trigger] text[i] == '-'
        } else {
            is_hex(text[i])
        }
}

/// `rand::random::<u64>`: any number may come back, so nothing is claimed of it.
#[verifier::external_body]
fn random_u64() -> u64 {
    rand::random::<u64>()
}

/// `rand::random::<u32>`: any number may come back, so nothing is claimed of it.
#[verifier::external_body]
fn random_u32() -> u32 {
    rand::random::<u32>()
}

/// `RngCore::fill_bytes` of the thread's generator: any 32 bytes may come back, so nothing is
/// claimed of them.
#[verifier::external_body]
fn random_bytes() -> [u8; 32] {
    let mut bytes = [0; 32];
    rand::thread_rng().fill_bytes(&mut bytes);
    bytes
}

/// `uuid::Uuid::new_v4` in the simple format: 32 lower-case hexadecimal digits, whatever the
/// random bits were.
#[verifier::external_body]
fn random_simple_uuid() -> (r: String)
    ensures
        r@.len() == 32,
        forall|i: int| 0 <= i < 32 ==> is_hex(#[trigger] r@[i]),
{
    uuid::Uuid::new_v4().simple().to_string()
}

/// `uuid::Uuid::new_v4` in its default format, which is that of `is_uuid`, whatever the random
/// bits were.
#[verifier::external_body]
fn random_hyphenated_uuid() -> (r: String)
    ensures
        is_uuid(r@),
{
    uuid::Uuid::new_v4().to_string()
}

/// Keeps the low 63 bits, so that the number is also a non-negative signed one.
pub fn positive_id(random: u64) -> (r: u64)
    ensures
        r == random % 0x8000_0000_0000_0000,
        r <= i64::MAX,
{
    random % 0x8000_0000_0000_0000
}

/// A connection identifier that fits a signed 64-bit number.
pub fn stream_id() -> (r: u64)
    ensures
        r <= i64::MAX,
{
    positive_id(random_u64())
}

/// A starting point for an RTP counter or a synchronisation source.
pub fn rtp_start() -> u32 {
    random_u32()
}

/// A fresh 256-bit key.
pub fn fresh_key() -> [u8; 32] {
    random_bytes()
}

/// The first twelve digits of a longer identifier.
pub fn short_id(digits: &str) -> (r: String)
    requires
        digits@.len() >= 12,
    ensures
        r@ == digits@.take(12),
{
    assert(digits@.subrange(0, 12) == digits@.take(12));
    digits.substring_char(0, 12).to_owned()
}

/// A device identifier: twelve hexadecimal digits.
pub fn device_id() -> (r: String)
    ensures
        is_short_id(r@),
{
    short_id(random_simple_uuid().as_str())
}

/// A session or peer identifier.
pub fn session_id() -> (r: String)
    ensures
        is_uuid(r@),
{
    random_hyphenated_uuid()
}

} // verus!
