//! Conversions between byte sequences and strings, stated over vstd's
//! UTF-8 model.

use vstd::prelude::*;
use vstd::utf8::{decode_utf8, valid_utf8};

verus! {

/// The characters that lossy UTF-8 conversion yields for invalid input:
/// a function of the bytes alone, with replacement characters standing in
/// for the invalid runs.
pub uninterp spec fn lossy_invalid_utf8(bytes: Seq<u8>) -> Seq<char>;

/// The characters that lossy UTF-8 conversion yields for the given bytes:
/// on valid UTF-8 exactly [`decode_utf8`], and otherwise a function of the
/// bytes alone.
pub open spec fn lossy_utf8(bytes: Seq<u8>) -> Seq<char> {
    if valid_utf8(bytes) {
        decode_utf8(bytes)
    } else {
        lossy_invalid_utf8(bytes)
    }
}

/// Relies on `String::from_utf8`: it returns the decoded string exactly
/// when the bytes are valid UTF-8.
#[verifier::external_body]
pub fn string_from_utf8(v: Vec<u8>) -> (r: Option<String>)
    ensures
        r is Some <==> valid_utf8(v@),
        match r {
            Some(s) => s@ == decode_utf8(v@),
            None => true,
        },
{
    String::from_utf8(v).ok()
}

/// Relies on `String::from_utf8_lossy`: the result is a function of the
/// bytes alone, and on valid UTF-8 the conversion is exact.
#[verifier::external_body]
pub fn string_from_utf8_lossy(v: &Vec<u8>) -> (r: String)
    ensures
        r@ == lossy_utf8(v@),
        !valid_utf8(v@) ==> r@ == lossy_invalid_utf8(v@),
{
    String::from_utf8_lossy(v.as_slice()).into_owned()
}

} // verus!
