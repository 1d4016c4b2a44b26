//! What this library takes on trust from the standard library.
//!
//! Nothing here is proved. Each item states, as a contract, what the
//! documentation of one standard function says it does.

use vstd::prelude::*;
use vstd::utf8::*;

verus! {

/// `char::from_u32`: gives the character for a number that is a Unicode
/// scalar value (at most 0x10FFFF and outside the surrogate range 0xD800 to
/// 0xDFFF), and `None` for every other number.
pub assume_specification[ char::from_u32 ](i: u32) -> (r: Option<char>)
    ensures
        r == (if is_scalar(i) {
            Some(i as char)
        } else {
            None::<char>
        }),
;

/// `String::push`: appends one character to the end of the string.
pub assume_specification[ String::push ](s: &mut String, ch: char)
    ensures
        final(s)@ == old(s)@.push(ch),
;

/// `str::into_boxed_bytes`: turns a boxed text into the boxed bytes of its
/// UTF-8 encoding, in place.
pub assume_specification[ str::into_boxed_bytes ](s: Box<str>) -> (b: Box<[u8]>)
    ensures
        b@ == encode_utf8(s@),
;

/// `Vec::into_boxed_slice`: turns a vector into a boxed slice of the same
/// elements in the same order.
#[verifier::external_body]
pub(crate) fn vec_into_boxed_slice(v: Vec<u8>) -> (b: Box<[u8]>)
    ensures
        b@ == v@,
{
    v.into_boxed_slice()
}

/// `core::str::from_utf8`: reads bytes as text. It succeeds exactly on valid
/// UTF-8, and the text it gives is the one those bytes encode.
#[verifier::external_body]
pub(crate) fn str_from_utf8(bytes: &[u8]) -> (r: Option<&str>)
    ensures
        r is Some <==> valid_utf8(bytes@),
        r matches Some(text) ==> encode_utf8(text@) == bytes@,
{
    core::str::from_utf8(bytes).ok()
}

} // verus!
