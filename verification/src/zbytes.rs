//! The owning handle to a zero-terminated byte buffer.

use vstd::prelude::*;
use crate::byte_source::ByteSource;
use crate::zbytes_ref::ZBytesRef;
use crate::zbytes_ref::ZBytesRefIter;
use crate::ZBytesCreationError;

verus! {

/// Owns a zero-terminated byte buffer.
///
/// The bytes have no enforced encoding. The buffer is released, whole and
/// once, when the handle goes out of scope. Its size is fixed when it is made:
/// no operation on the handle moves or adds a terminator.
pub struct ZBytes {
    data: Box<[u8]>,
}

impl ZBytes {
    #[verifier::type_invariant]
    spec fn well_formed(self) -> bool {
        crate::terminator::is_terminated(self.data@)
    }

    /// The content of the buffer: its bytes up to the terminator, without it.
    pub closed spec fn view(&self) -> Seq<u8> {
        self.data@.drop_last()
    }

    /// The handle to a region that holds `content` and then the terminator.
    pub closed spec fn holding(content: Seq<u8>) -> Self {
        ZBytes { data: choose|region: Box<[u8]>| region@ == content.push(0) }
    }

    /// Takes over the region `data` without looking at it. The caller vouches
    /// that it ends in a zero byte and holds no other.
    pub fn from_boxed_slice_unchecked(data: Box<[u8]>) -> (r: Self)
        requires
            crate::terminator::is_terminated(data@),
        ensures
            r@ == data@.drop_last(),
            r == Self::holding(data@.drop_last()),
    {
        proof {
            let chosen = choose|region: Box<[u8]>| region@ == data@.drop_last().push(0);
            assert(data@ =~= data@.drop_last().push(0));
            assert(chosen =~= data);
        }
        ZBytes { data }
    }

    /// Starts a pass over the content. The pass does not yield the terminator.
    pub fn iter<'a>(&'a self) -> (it: ZBytesRefIter<'a>)
        ensures
            it.remaining() == self@,
            crate::terminator::no_nul(self@),
    {
        self.get_ref().iter()
    }

    /// Writes the content as a list of decimal numbers between square
    /// brackets.
    pub fn to_string(&self) -> (s: String)
        ensures
            s@ == crate::rendering::byte_list(self@),
    {
        crate::rendering::byte_list_string(self.iter())
    }

    /// Borrows the buffer for reading.
    pub fn get_ref<'a>(&'a self) -> (r: ZBytesRef<'a>)
        ensures
            r@ == self@,
            crate::terminator::no_nul(self@),
    {
        proof {
            use_type_invariant(self);
        }
        ZBytesRef::from_non_null_unchecked(&self.data)
    }
}

impl TryFrom<Box<[u8]>> for ZBytes {
    type Error = ZBytesCreationError;

    /// Takes over `value` as a buffer if it is zero-terminated, and says
    /// what is wrong with it if it is not. Nothing is copied.
    fn try_from(value: Box<[u8]>) -> (r: Result<Self, Self::Error>)
        ensures
            crate::terminator::validation(value@) is Ok ==> r is Ok && r.unwrap()@
                == value@.drop_last(),
            crate::terminator::validation(value@) matches Err(e) ==> r == Err::<Self, _>(e),
    {
        match crate::terminator::validate(&value) {
            Ok(()) => Ok(ZBytes::from_boxed_slice_unchecked(value)),
            Err(e) => Err(e),
        }
    }
}

impl vstd::std_specs::convert::TryFromSpecImpl<Box<[u8]>> for ZBytes {
    open spec fn obeys_try_from_spec() -> bool {
        true
    }

    open spec fn try_from_spec(value: Box<[u8]>) -> Result<Self, Self::Error> {
        match crate::terminator::validation(value@) {
            Ok(()) => Ok(ZBytes::holding(value@.drop_last())),
            Err(e) => Err(e),
        }
    }
}

} // verus!
