//! The borrowed, read-only handle to a zero-terminated byte buffer, and the
//! pass over its bytes.

use vstd::prelude::*;
use vstd::std_specs::cmp::PartialEqSpecImpl;
use vstd::std_specs::convert::TryFromSpecImpl;
use vstd::utf8::*;
use crate::byte_source::ByteSource;
use crate::byte_source::SliceBytes;
use crate::ZBytesCreationError;

verus! {

/// Borrows a zero-terminated byte buffer for reading.
///
/// The bytes have no enforced encoding. The handle stores only where the
/// region starts and ends; its content is every byte before the terminator.
#[derive(Clone, Copy)]
pub struct ZBytesRef<'a> {
    data: &'a [u8],
}

impl<'a> ZBytesRef<'a> {
    #[verifier::type_invariant]
    spec fn well_formed(self) -> bool {
        crate::terminator::is_terminated(self.data@)
    }

    /// The content of the buffer: its bytes up to the terminator, without it.
    pub closed spec fn view(&self) -> Seq<u8> {
        self.data@.drop_last()
    }

    /// The handle to a region that holds `content` and then the terminator.
    pub closed spec fn holding(content: Seq<u8>) -> Self {
        ZBytesRef { data: choose|region: &'a [u8]| region@ == content.push(0) }
    }

    /// Borrows the region `data` without looking at it. The caller vouches
    /// that it ends in a zero byte and holds no other.
    pub fn from_non_null_unchecked(data: &'a [u8]) -> (r: Self)
        requires
            crate::terminator::is_terminated(data@),
        ensures
            r@ == data@.drop_last(),
            r == Self::holding(data@.drop_last()),
            crate::terminator::no_nul(r@),
    {
        proof {
            let chosen = choose|region: &'a [u8]| region@ == data@.drop_last().push(0);
            assert(data@ =~= data@.drop_last().push(0));
            assert(chosen =~= data);
        }
        ZBytesRef { data }
    }

    /// Starts a pass over the content. The pass does not yield the terminator.
    pub fn iter(&self) -> (it: ZBytesRefIter<'a>)
        ensures
            it.remaining() == self@,
            crate::terminator::no_nul(self@),
    {
        proof {
            use_type_invariant(self);
        }
        ZBytesRefIter { rest: self.data }
    }

    /// Writes the content as a list of decimal numbers between square
    /// brackets.
    pub fn to_string(&self) -> (s: String)
        ensures
            s@ == crate::rendering::byte_list(self@),
    {
        crate::rendering::byte_list_string(self.iter())
    }

    /// The whole region, terminator included.
    pub fn as_slice_including_null(&self) -> (region: &'a [u8])
        ensures
            region@ == self@.push(0),
            crate::terminator::is_terminated(region@),
    {
        proof {
            use_type_invariant(self);
            assert(self.data@ =~= self.data@.drop_last().push(0));
        }
        self.data
    }
}

impl<'a> TryFrom<&'a [u8]> for ZBytesRef<'a> {
    type Error = ZBytesCreationError;

    /// Borrows `value` as a buffer if it is zero-terminated, and says what is
    /// wrong with it if it is not. Nothing is copied.
    fn try_from(value: &'a [u8]) -> (r: Result<Self, Self::Error>)
        ensures
            crate::terminator::validation(value@) is Ok ==> r is Ok && r.unwrap()@
                == value@.drop_last(),
            crate::terminator::validation(value@) matches Err(e) ==> r == Err::<Self, _>(e),
    {
        match crate::terminator::validate(value) {
            Ok(()) => Ok(ZBytesRef::from_non_null_unchecked(value)),
            Err(e) => Err(e),
        }
    }
}

impl<'a> TryFromSpecImpl<&'a [u8]> for ZBytesRef<'a> {
    open spec fn obeys_try_from_spec() -> bool {
        true
    }

    open spec fn try_from_spec(value: &'a [u8]) -> Result<Self, Self::Error> {
        match crate::terminator::validation(value@) {
            Ok(()) => Ok(ZBytesRef::holding(value@.drop_last())),
            Err(e) => Err(e),
        }
    }
}

impl<'a, const N: usize> TryFrom<&'a [u8; N]> for ZBytesRef<'a> {
    type Error = ZBytesCreationError;

    /// Borrows the array `value` as a buffer, as for a slice.
    fn try_from(value: &'a [u8; N]) -> (r: Result<Self, Self::Error>)
        ensures
            crate::terminator::validation(value@) is Ok ==> r is Ok && r.unwrap()@
                == value@.drop_last(),
            crate::terminator::validation(value@) matches Err(e) ==> r == Err::<Self, _>(e),
    {
        let region = vstd::array::array_as_slice(value);
        match crate::terminator::validate(region) {
            Ok(()) => Ok(ZBytesRef::from_non_null_unchecked(region)),
            Err(e) => Err(e),
        }
    }
}

impl<'a, const N: usize> TryFromSpecImpl<&'a [u8; N]> for ZBytesRef<'a> {
    open spec fn obeys_try_from_spec() -> bool {
        true
    }

    open spec fn try_from_spec(value: &'a [u8; N]) -> Result<Self, Self::Error> {
        match crate::terminator::validation(value@) {
            Ok(()) => Ok(ZBytesRef::holding(value@.drop_last())),
            Err(e) => Err(e),
        }
    }
}

impl<'a> TryFrom<&'a str> for ZBytesRef<'a> {
    type Error = ZBytesCreationError;

    /// Borrows the UTF-8 bytes of `value` as a buffer, as for a slice.
    fn try_from(value: &'a str) -> (r: Result<Self, Self::Error>)
        ensures
            crate::terminator::validation(encode_utf8(value@)) is Ok ==> r is Ok && r.unwrap()@
                == encode_utf8(value@).drop_last(),
            crate::terminator::validation(encode_utf8(value@)) matches Err(e) ==> r == Err::<
                Self,
                _,
            >(e),
    {
        let bytes = value.as_bytes();
        match crate::terminator::validate(bytes) {
            Ok(()) => Ok(ZBytesRef::from_non_null_unchecked(bytes)),
            Err(e) => Err(e),
        }
    }
}

impl<'a> TryFromSpecImpl<&'a str> for ZBytesRef<'a> {
    open spec fn obeys_try_from_spec() -> bool {
        true
    }

    open spec fn try_from_spec(value: &'a str) -> Result<Self, Self::Error> {
        match crate::terminator::validation(encode_utf8(value@)) {
            Ok(()) => Ok(ZBytesRef::holding(encode_utf8(value@).drop_last())),
            Err(e) => Err(e),
        }
    }
}

impl<'a, 'b> PartialEq<ZBytesRef<'b>> for ZBytesRef<'a> {
    /// Two buffers are equal when their contents are, wherever they lie.
    fn eq(&self, other: &ZBytesRef<'b>) -> (r: bool)
        ensures
            r == (self@ == other@),
    {
        crate::byte_source::same_bytes(self.iter(), other.iter())
    }
}

impl<'a, 'b> PartialEqSpecImpl<ZBytesRef<'b>> for ZBytesRef<'a> {
    open spec fn obeys_eq_spec() -> bool {
        true
    }

    open spec fn eq_spec(&self, other: &ZBytesRef<'b>) -> bool {
        self@ == other@
    }
}

impl<'a> Eq for ZBytesRef<'a> {

}

impl<'a> PartialEq<&[u8]> for ZBytesRef<'a> {
    /// A buffer equals a slice when its content is the slice's bytes.
    fn eq(&self, other: &&[u8]) -> (r: bool)
        ensures
            r == (self@ == other@),
    {
        crate::byte_source::same_bytes(self.iter(), SliceBytes::new(*other))
    }
}

impl<'a> PartialEqSpecImpl<&[u8]> for ZBytesRef<'a> {
    open spec fn obeys_eq_spec() -> bool {
        true
    }

    open spec fn eq_spec(&self, other: &&[u8]) -> bool {
        self@ == other@
    }
}

impl<'a> PartialEq<ZBytesRef<'a>> for &[u8] {
    /// A slice equals a buffer when the buffer equals the slice.
    fn eq(&self, other: &ZBytesRef<'a>) -> (r: bool)
        ensures
            r == (self@ == other@),
    {
        other == self
    }
}

impl<'a> PartialEqSpecImpl<ZBytesRef<'a>> for &[u8] {
    open spec fn obeys_eq_spec() -> bool {
        true
    }

    open spec fn eq_spec(&self, other: &ZBytesRef<'a>) -> bool {
        self@ == other@
    }
}

/// A single pass over the content of a zero-terminated buffer.
///
/// The pass holds the part of the region it has not yet walked, and ends at
/// the terminator without yielding it. A pass that has ended stays ended; a
/// new one can be had from the buffer at any time.
pub struct ZBytesRefIter<'a> {
    rest: &'a [u8],
}

impl<'a> ZBytesRefIter<'a> {
    #[verifier::type_invariant]
    spec fn well_formed(self) -> bool {
        crate::terminator::is_terminated(self.rest@)
    }

    /// Yields the next byte of the content, or `None` at the terminator.
    pub fn next(&mut self) -> (b: Option<&'a u8>)
        ensures
            old(self).remaining().len() == 0 ==> b is None && final(self).remaining() == old(
                self).remaining(),
            old(self).remaining().len() > 0 ==> b == Some(&old(self).remaining()[0]) && final(
                self).remaining() == old(self).remaining().drop_first(),
            b matches Some(x) ==> *x != 0,
    {
        proof {
            use_type_invariant(&*self);
        }
        let rest: &'a [u8] = self.rest;
        if rest[0] == 0 {
            assert(rest@.drop_last().len() > 0 ==> rest@.drop_last()[0] == 0);
            None
        } else {
            let tail = vstd::slice::slice_subrange(rest, 1, rest.len());
            proof {
                assert(tail@.drop_last() =~= rest@.drop_last().drop_first());
                assert(rest@.drop_last()[0] == rest@[0]);
                let content = tail@.drop_last();
                assert forall|i: int| 0 <= i < content.len() implies #[trigger] content[i] != 0 by {
                    assert(rest@.drop_last()[i + 1] != 0);
                }
            }
            self.rest = tail;
            Some(&rest[0])
        }
    }
}

impl<'a> Clone for ZBytesRefIter<'a> {
    /// A second pass that stands where this one stands.
    fn clone(&self) -> (r: Self)
        ensures
            r.remaining() == self.remaining(),
    {
        proof {
            use_type_invariant(self);
        }
        ZBytesRefIter { rest: self.rest }
    }
}

impl<'a> ByteSource for ZBytesRefIter<'a> {
    closed spec fn remaining(&self) -> Seq<u8> {
        self.rest@.drop_last()
    }

    fn next_byte(&mut self) -> (b: Option<u8>) {
        match self.next() {
            Some(x) => Some(*x),
            None => None,
        }
    }
}

} // verus!
