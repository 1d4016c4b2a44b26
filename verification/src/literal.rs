//! Support for text literals that are to become buffers.

use vstd::prelude::*;

verus! {

/// Hands back `b`, the bytes of a literal that is about to get a terminator
/// of its own. The literal must hold no zero byte.
pub fn panic_if_null_byte_detected(b: &[u8]) -> (r: &[u8])
    requires
        crate::terminator::no_nul(b@),
    ensures
        r == b,
        crate::terminator::is_terminated(r@.push(0)),
{
    assert(b@.push(0).drop_last() =~= b@);
    b
}

} // verus!
