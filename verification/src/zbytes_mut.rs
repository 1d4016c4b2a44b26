//! The borrowed, exclusive handle to a zero-terminated byte buffer, and the
//! pass that lends out its bytes for writing.

use vstd::prelude::*;
use vstd::std_specs::convert::TryFromSpecImpl;
use crate::byte_source::ByteSource;
use crate::zbytes_ref::ZBytesRef;
use crate::zbytes_ref::ZBytesRefIter;
use crate::ZBytesCreationError;

verus! {

/// Borrows a zero-terminated byte buffer for reading and writing.
///
/// The bytes have no enforced encoding. While the handle lives nothing else
/// can reach the buffer. To write, the handle is given up for a pass that
/// lends out the bytes of the content one by one. The terminator is never
/// lent out, so the buffer cannot grow.
pub struct ZBytesMut<'a> {
    data: &'a mut [u8],
}

impl<'a> ZBytesMut<'a> {
    #[verifier::type_invariant]
    spec fn well_formed(self) -> bool {
        crate::terminator::is_terminated(self.data@)
    }

    /// The content of the buffer: its bytes up to the terminator, without it.
    pub closed spec fn view(&self) -> Seq<u8> {
        self.data@.drop_last()
    }

    /// Borrows the region `data` without looking at it. The caller vouches
    /// that it ends in a zero byte and holds no other.
    pub fn from_non_null_unchecked(data: &'a mut [u8]) -> (r: Self)
        requires
            crate::terminator::is_terminated(old(data)@),
        ensures
            r@ == old(data)@.drop_last(),
    {
        ZBytesMut { data }
    }

    /// Borrows the buffer for reading, for as long as this handle is not used.
    pub fn get_ref(&self) -> (r: ZBytesRef<'_>)
        ensures
            r@ == self@,
            crate::terminator::no_nul(self@),
    {
        proof {
            use_type_invariant(self);
        }
        ZBytesRef::from_non_null_unchecked(&*self.data)
    }

    /// Starts a reading pass over the content. The pass does not yield the
    /// terminator.
    pub fn iter(&self) -> (it: ZBytesRefIter<'_>)
        ensures
            it.remaining() == self@,
            crate::terminator::no_nul(self@),
    {
        self.get_ref().iter()
    }

    /// Writes the content as a list of decimal numbers between square
    /// brackets.
    pub fn to_string(&self) -> (s: String)
        ensures
            s@ == crate::rendering::byte_list(self@),
    {
        crate::rendering::byte_list_string(self.iter())
    }

    /// Stores `byte` at position `index` of the content. The byte must not be
    /// zero: a zero in the content would end it early.
    pub fn set(&mut self, index: usize, byte: u8)
        requires
            index < old(self)@.len(),
            byte != 0,
        ensures
            final(self)@ == old(self)@.update(index as int, byte),
    {
        proof {
            use_type_invariant(&*self);
            let before = self.data@;
            let after = before.update(index as int, byte);
            let content = after.drop_last();
            assert(content =~= before.drop_last().update(index as int, byte));
            assert forall|i: int| 0 <= i < content.len() implies #[trigger] content[i] != 0 by {
                if i != index {
                    assert(before.drop_last()[i] != 0);
                }
            }
        }
        self.data[index] = byte;
    }

    /// Gives up the handle for a pass that lends out each byte of the content
    /// for writing. The pass does not yield the terminator.
    pub fn iter_mut(self) -> (it: ZBytesMutIter<'a>)
        ensures
            it.remaining() == self@,
            crate::terminator::no_nul(self@),
    {
        proof {
            use_type_invariant(&self);
        }
        let ZBytesMut { data } = self;
        ZBytesMutIter { rest: Some(data) }
    }
}

impl<'a> TryFrom<&'a mut [u8]> for ZBytesMut<'a> {
    type Error = ZBytesCreationError;

    /// Borrows `value` as a buffer if it is zero-terminated, and says what is
    /// wrong with it if it is not. Nothing is copied, and a region that is
    /// refused is left as it was.
    fn try_from(value: &'a mut [u8]) -> (r: Result<Self, Self::Error>)
        ensures
            crate::terminator::validation(old(value)@) is Ok ==> r is Ok && r.unwrap()@ == old(
                value)@.drop_last(),
            crate::terminator::validation(old(value)@) matches Err(e) ==> r == Err::<Self, _>(e)
                && final(value)@ == old(value)@,
    {
        match crate::terminator::validate(&*value) {
            Ok(()) => Ok(ZBytesMut::from_non_null_unchecked(value)),
            Err(e) => Err(e),
        }
    }
}

/// The handle that `try_from` makes holds a new borrow of the region, which
/// no spec function can name. What `try_from` returns is stated in its own
/// contract, not through `try_from_spec`.
impl<'a> TryFromSpecImpl<&'a mut [u8]> for ZBytesMut<'a> {
    open spec fn obeys_try_from_spec() -> bool {
        false
    }

    closed spec fn try_from_spec(value: &'a mut [u8]) -> Result<Self, Self::Error> {
        arbitrary()
    }
}

impl<'a, const N: usize> TryFrom<&'a mut [u8; N]> for ZBytesMut<'a> {
    type Error = ZBytesCreationError;

    /// Borrows the array `value` as a buffer, as for a slice.
    fn try_from(value: &'a mut [u8; N]) -> (r: Result<Self, Self::Error>)
        ensures
            crate::terminator::validation(old(value)@) is Ok ==> r is Ok && r.unwrap()@ == old(
                value)@.drop_last(),
            crate::terminator::validation(old(value)@) matches Err(e) ==> r == Err::<Self, _>(e)
                && final(value)@ == old(value)@,
    {
        let region: &'a mut [u8] = value;
        ZBytesMut::try_from(region)
    }
}

/// As for a slice, what `try_from` returns is stated in its own contract.
impl<'a, const N: usize> TryFromSpecImpl<&'a mut [u8; N]> for ZBytesMut<'a> {
    open spec fn obeys_try_from_spec() -> bool {
        false
    }

    closed spec fn try_from_spec(value: &'a mut [u8; N]) -> Result<Self, Self::Error> {
        arbitrary()
    }
}

/// A single pass over the content of a zero-terminated buffer that lends out
/// each byte for writing.
///
/// The pass ends at the terminator without yielding it, and stays ended.
pub struct ZBytesMutIter<'a> {
    rest: Option<&'a mut [u8]>,
}

impl<'a> ZBytesMutIter<'a> {
    #[verifier::type_invariant]
    spec fn well_formed(self) -> bool {
        self.rest matches Some(region) ==> crate::terminator::is_terminated(region@)
    }

    /// The bytes this pass will still lend out, as they stand now.
    pub closed spec fn remaining(&self) -> Seq<u8> {
        match self.rest {
            Some(region) => region@.drop_last(),
            None => Seq::empty(),
        }
    }

    /// Lends out the next byte of the content, or gives `None` at the
    /// terminator. What is written to a byte that was lent out does not
    /// change which bytes follow.
    pub fn next(&mut self) -> (b: Option<&'a mut u8>)
        ensures
            old(self).remaining().len() == 0 ==> b is None && final(self).remaining().len() == 0,
            old(self).remaining().len() > 0 ==> b is Some && *b.unwrap() == old(self).remaining()[0]
                && *b.unwrap() != 0 && final(self).remaining() == old(
                self).remaining().drop_first(),
    {
        proof {
            use_type_invariant(&*self);
        }
        let mut taken: Option<&'a mut [u8]> = None;
        core::mem::swap(&mut self.rest, &mut taken);
        let region: &'a mut [u8] = match taken {
            Some(region) => region,
            None => {
                return None;
            },
        };
        if region[0] == 0 {
            assert(region@.drop_last().len() > 0 ==> region@.drop_last()[0] == 0);
            None
        } else {
            let ghost before = region@;
            let (head, tail) = region.split_at_mut(1);
            proof {
                assert(tail@.drop_last() =~= before.drop_last().drop_first());
                assert(before.drop_last()[0] == before[0]);
                let content = tail@.drop_last();
                assert forall|i: int| 0 <= i < content.len() implies #[trigger] content[i] != 0 by {
                    assert(before.drop_last()[i + 1] != 0);
                }
            }
            self.rest = Some(tail);
            Some(&mut head[0])
        }
    }
}

} // verus!
