//! Text handling for keys and class names, which the wire format stores as
//! UTF-8 bytes. The spec-level model of a string is its character sequence;
//! `vstd::utf8::encode_utf8` relates that model to the stored bytes.

use vstd::prelude::*;
use vstd::string::StrSliceExecFns;
use vstd::utf8::{encode_utf8, valid_utf8};

verus! {

/// The UTF-8 bytes of a string, as an owned vector.
pub(crate) fn string_bytes(s: &str) -> (r: Vec<u8>)
    ensures
        r@ == encode_utf8(s@),
{
    s.as_bytes_vec()
}

/// Relies on `String::from_utf8`: it succeeds exactly when the input is
/// valid UTF-8, and then returns the string wrapping exactly the given
/// bytes, so the returned string's UTF-8 encoding is the input vector.
#[verifier::external_body]
pub(crate) fn bytes_to_string(v: Vec<u8>) -> (r: Option<String>)
    ensures
        match r {
            Some(s) => valid_utf8(v@) && encode_utf8(s@) == v@,
            None => !valid_utf8(v@),
        },
{
    String::from_utf8(v).ok()
}

} // verus!
