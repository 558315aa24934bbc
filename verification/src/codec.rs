//! Decoding of encoded grouping payloads: Base64, then UTF-8.
use base64::Engine;
use vstd::prelude::*;
use vstd::utf8::{decode_utf8, valid_utf8};

verus! {

/// What standard Base64 decoding yields for a string, when the string is
/// valid Base64; the result depends on the characters alone.
pub uninterp spec fn b64_decode_of(s: Seq<char>) -> Option<Seq<u8>>;

/// Relies on base64's standard-alphabet engine: decoding is a function of
/// the input characters alone, succeeding exactly on valid Base64.
#[verifier::external_body]
fn b64_decode(s: &String) -> (r: Option<Vec<u8>>)
    ensures
        match r {
            Some(v) => b64_decode_of(s@) == Some(v@),
            None => b64_decode_of(s@) is None,
        },
{
    base64::engine::general_purpose::STANDARD.decode(s.as_str()).ok()
}

/// Relies on String::from_utf8: it succeeds exactly on valid UTF-8 and
/// yields that encoding's characters.
#[verifier::external_body]
fn utf8_to_string(bytes: Vec<u8>) -> (r: Option<String>)
    ensures
        match r {
            Some(t) => valid_utf8(bytes@) && t@ == decode_utf8(bytes@),
            None => !valid_utf8(bytes@),
        },
{
    String::from_utf8(bytes).ok()
}

/// The text a grouping payload decodes to, when it is valid Base64 holding
/// valid UTF-8; otherwise nothing.
pub open spec fn decoded_grouping(s: Seq<char>) -> Option<Seq<char>> {
    match b64_decode_of(s) {
        None => None,
        Some(bytes) => if valid_utf8(bytes) {
            Some(decode_utf8(bytes))
        } else {
            None
        },
    }
}

/// Decodes one grouping payload; a failure at either step yields `None`
/// rather than an error.
pub fn decode_grouping(s: &String) -> (r: Option<String>)
    ensures
        r.deep_view() == decoded_grouping(s@),
{
    match b64_decode(s) {
        None => None,
        Some(bytes) => utf8_to_string(bytes),
    }
}

} // verus!
