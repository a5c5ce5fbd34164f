//! UTF-8 encoding and decoding of stored values.
//!
//! The string variants of the storage operations store a string as its
//! UTF-8 bytes and read it back by decoding. Encoding is total; decoding
//! fails exactly when the stored bytes are not a valid UTF-8 encoding.

use vstd::prelude::*;
use vstd::string::StrSliceExecFns;
use vstd::utf8::{encode_utf8, valid_utf8};

verus! {

/// The UTF-8 bytes of a string, as stored by the string variant of a
/// write.
pub fn encode_string(s: &str) -> (r: Vec<u8>)
    ensures
        r@ == encode_utf8(s@),
{
    s.as_bytes_vec()
}

/// Relies on `String::from_utf8`: succeeds exactly on valid UTF-8 input,
/// and then returns the string whose encoding is that input.
#[verifier::external_body]
pub(crate) fn decode_bytes(v: Vec<u8>) -> (r: Option<String>)
    ensures
        match r {
            Some(s) => v@ == encode_utf8(s@),
            None => !valid_utf8(v@),
        },
{
    match String::from_utf8(v) {
        Ok(s) => Some(s),
        Err(_) => None,
    }
}

} // verus!
