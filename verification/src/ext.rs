//! Trusted wrappers around the outside functions that the protocol layer
//! needs: random identifiers, hex rendering, the clock, and UTF-8 decoding.

use vstd::prelude::*;
use vstd::utf8::{encode_utf8, valid_utf8};
use crate::text::spec_hex_lower;

verus! {

/// Relies on String::push: appends exactly one character.
#[verifier::external_body]
pub(crate) fn push_char(s: &mut String, c: char)
    ensures
        final(s)@ == old(s)@.push(c),
{
    s.push(c);
}

/// Relies on String::from_utf8: succeeds exactly on valid UTF-8 input, and
/// returns the character sequence whose UTF-8 encoding is that input.
#[verifier::external_body]
pub(crate) fn string_from_utf8(bytes: Vec<u8>) -> (r: Option<String>)
    ensures
        r matches Some(s) ==> encode_utf8(s@) == bytes@,
        valid_utf8(bytes@) ==> r is Some,
{
    String::from_utf8(bytes).ok()
}

/// What lossy UTF-8 decoding yields on arbitrary bytes: a function of the
/// bytes alone.
pub uninterp spec fn lossy_utf8(b: Seq<u8>) -> Seq<char>;

/// Relies on String::from_utf8_lossy: the result depends on the bytes alone,
/// and valid UTF-8 decodes to exactly its character sequence.
#[verifier::external_body]
pub(crate) fn utf8_lossy(bytes: &Vec<u8>) -> (r: String)
    ensures
        r@ == lossy_utf8(bytes@),
        valid_utf8(bytes@) ==> r@ == vstd::utf8::decode_utf8(bytes@),
{
    String::from_utf8_lossy(bytes).into_owned()
}

/// Relies on SystemTime::now: the reading of the wall clock, converted to
/// whole milliseconds since the Unix epoch; a reading before the epoch
/// converts to zero. Nothing more is assumed of the clock.
#[verifier::external_body]
pub(crate) fn current_timestamp_ms() -> (r: i64)
    ensures
        r >= 0,
{
    std::time::SystemTime::now()
        .duration_since(std::time::UNIX_EPOCH)
        .map(|d| i64::try_from(d.as_millis()).unwrap_or(i64::MAX))
        .unwrap_or(0)
}

/// Relies on rand::random: 16 bytes drawn from the thread-local generator.
/// Nothing is assumed of the values, only of the count.
#[verifier::external_body]
pub(crate) fn random_bytes_16() -> (r: Vec<u8>)
    ensures
        r@.len() == 16,
{
    rand::random::<[u8; 16]>().to_vec()
}

/// Relies on hex::encode: two lowercase hex digits per input byte, high
/// nibble first.
#[verifier::external_body]
pub(crate) fn hex_lower(bytes: &Vec<u8>) -> (r: String)
    ensures
        r@ == spec_hex_lower(bytes@),
{
    hex::encode(bytes)
}

} // verus!
