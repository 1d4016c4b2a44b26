//! The borrowed handle to a zero-terminated buffer of UTF-8 text.

use vstd::prelude::*;
use vstd::utf8::*;
use crate::byte_source::ByteSource;
use crate::char_decoder::CharDecoder;
use crate::zbytes_ref::ZBytesRef;
use crate::zbytes_ref::ZBytesRefIter;

verus! {

/// Why a text was refused as the source of a text buffer.
#[derive(Debug, Clone, Copy, PartialEq, Eq, Structural)]
pub enum ZStringError {
    /// The text does not end in a zero character.
    NoTrailingNulls,
    /// A zero character is followed by a character that is not zero.
    InteriorNulls,
}

/// What borrowing `text` as a text buffer comes to.
///
/// The zero characters at the end of `text` are its terminator and are not
/// part of the result. A text without one is refused, and so is a text that
/// still holds a zero character once they are gone.
pub open spec fn borrowed_text(text: Seq<char>) -> Result<Seq<char>, ZStringError> {
    let trimmed = crate::text::trim_end_nuls(text);
    if trimmed.len() == text.len() {
        Err(ZStringError::NoTrailingNulls)
    } else if !crate::text::no_nul_char(trimmed) {
        Err(ZStringError::InteriorNulls)
    } else {
        Ok(trimmed)
    }
}

/// Borrows a zero-terminated buffer whose content is UTF-8.
#[derive(Clone, Copy)]
pub struct ZStr<'a> {
    bytes: ZBytesRef<'a>,
}

impl<'a> ZStr<'a> {
    #[verifier::type_invariant]
    spec fn well_formed(self) -> bool {
        &&& valid_utf8(self.bytes@)
        &&& crate::terminator::no_nul(self.bytes@)
    }

    /// The text of the buffer, without its terminator.
    pub closed spec fn view(&self) -> Seq<char> {
        decode_utf8(self.bytes@)
    }

    /// The bytes of the buffer, without its terminator.
    pub closed spec fn content(&self) -> Seq<u8> {
        self.bytes@
    }

    /// The handle to a region that holds the encoding of `text` and then the
    /// terminator.
    pub closed spec fn holding(text: Seq<char>) -> Self {
        ZStr { bytes: ZBytesRef::holding(encode_utf8(text)) }
    }

    /// Borrows a byte buffer whose content the caller has found to be UTF-8.
    pub(crate) fn from_utf8_buffer(bytes: ZBytesRef<'a>) -> (r: Self)
        requires
            valid_utf8(bytes@),
            crate::terminator::no_nul(bytes@),
        ensures
            r.content() == bytes@,
            r@ == decode_utf8(bytes@),
            bytes == ZBytesRef::holding(bytes@) ==> r == Self::holding(decode_utf8(bytes@)),
    {
        proof {
            decode_utf8_encode_utf8(bytes@);
        }
        ZStr { bytes }
    }

    /// Borrows the text `s`, which must be one that [`try_from`](ZStr::try_from)
    /// accepts: it ends in a zero character and holds none before its
    /// trailing ones.
    pub fn from_lit(s: &'static str) -> (r: ZStr<'static>)
        requires
            borrowed_text(s@) is Ok,
        ensures
            Ok::<_, ZStringError>(r@) == borrowed_text(s@),
            r.content() == encode_utf8(r@),
    {
        ZStr::try_from(s).unwrap()
    }

    /// Writes the text of the buffer.
    pub fn to_string(&self) -> (s: String)
        ensures
            s@ == self@,
    {
        self.chars().collect_string()
    }

    /// Writes the text of the buffer between double quotes. No character of
    /// the text is escaped.
    pub fn to_debug_string(&self) -> (s: String)
        ensures
            s@ == seq!['"'] + self@ + seq!['"'],
    {
        let mut s = String::new();
        s.push('"');
        let text = self.to_string();
        s.append(text.as_str());
        s.push('"');
        assert(s@ =~= seq!['"'] + self@ + seq!['"']);
        s
    }

    /// The buffer as a byte buffer, its encoding forgotten.
    pub fn as_zbytes(self) -> (r: ZBytesRef<'a>)
        ensures
            r@ == self.content(),
            self.content() == encode_utf8(self@),
            crate::text::no_nul_char(self@),
    {
        proof {
            use_type_invariant(self);
            decode_utf8_encode_utf8(self.bytes@);
            crate::text::lemma_encode_no_nul(self@);
        }
        self.bytes
    }

    /// Starts a pass over the bytes of the content. The pass does not yield
    /// the terminator.
    pub fn bytes(self) -> (it: ZBytesRefIter<'a>)
        ensures
            it.remaining() == self.content(),
            self.content() == encode_utf8(self@),
            crate::terminator::no_nul(self.content()),
    {
        self.as_zbytes().iter()
    }

    /// Starts decoding the content. The decoder yields the text of the
    /// buffer, character by character.
    pub fn chars(self) -> (decoder: CharDecoder<ZBytesRefIter<'a>>)
        ensures
            decoder@ == self.content(),
            crate::char_decoder::decode_lossy(decoder@) == self@,
            crate::text::no_nul_char(self@),
    {
        proof {
            use_type_invariant(self);
            crate::char_decoder::lemma_decode_lossy_valid_utf8(self.bytes@);
            crate::text::lemma_encode_no_nul(self@);
        }
        CharDecoder::from(self.bytes())
    }
}

impl<'a, 'b> PartialEq<ZStr<'b>> for ZStr<'a> {
    /// Two text buffers are equal when their contents are, byte for byte,
    /// wherever they lie. That is when they hold the same text.
    fn eq(&self, other: &ZStr<'b>) -> (r: bool)
        ensures
            r == (self.content() == other.content()),
            r == (self@ == other@),
    {
        proof {
            use_type_invariant(self);
            use_type_invariant(other);
            decode_utf8_encode_utf8(self.bytes@);
            decode_utf8_encode_utf8(other.bytes@);
        }
        self.bytes == other.bytes
    }
}

impl<'a, 'b> vstd::std_specs::cmp::PartialEqSpecImpl<ZStr<'b>> for ZStr<'a> {
    open spec fn obeys_eq_spec() -> bool {
        true
    }

    open spec fn eq_spec(&self, other: &ZStr<'b>) -> bool {
        self@ == other@
    }
}

impl<'a> Eq for ZStr<'a> {

}

impl<'a> TryFrom<&'a str> for ZStr<'a> {
    type Error = ZStringError;

    /// Borrows `value` in place as a text buffer.
    ///
    /// The zero characters at the end of `value` are not part of the text of
    /// the result. There must be at least one of them, and no zero character
    /// before them.
    fn try_from(value: &'a str) -> (r: Result<Self, Self::Error>)
        ensures
            borrowed_text(value@) matches Ok(text) ==> r is Ok && r.unwrap()@ == text
                && r.unwrap().content() == encode_utf8(text),
            borrowed_text(value@) matches Err(e) ==> r == Err::<Self, _>(e),
    {
        let bytes = value.as_bytes();
        let kept = crate::text::trimmed_len_of(bytes);
        proof {
            crate::text::lemma_encode_trailing_nul(value@);
            crate::text::lemma_encode_trim(value@);
            crate::text::lemma_encode_no_nul(crate::text::trim_end_nuls(value@));
            crate::text::lemma_trimmed_len(bytes@);
        }
        if kept == bytes.len() {
            return Err(ZStringError::NoTrailingNulls);
        }
        let front = vstd::slice::slice_subrange(bytes, 0, kept);
        assert(front@ =~= bytes@.take(kept as int));
        if crate::terminator::contains_nul(front) {
            return Err(ZStringError::InteriorNulls);
        }
        let region = vstd::slice::slice_subrange(bytes, 0, kept + 1);
        proof {
            let text = crate::text::trim_end_nuls(value@);
            assert(region@.drop_last() =~= front@);
            assert(region@.last() == bytes@[kept as int]);
            encode_utf8_valid_utf8(text);
            encode_utf8_decode_utf8(text);
        }
        Ok(ZStr::from_utf8_buffer(ZBytesRef::from_non_null_unchecked(region)))
    }
}

impl<'a> vstd::std_specs::convert::TryFromSpecImpl<&'a str> for ZStr<'a> {
    open spec fn obeys_try_from_spec() -> bool {
        true
    }

    open spec fn try_from_spec(value: &'a str) -> Result<Self, Self::Error> {
        match borrowed_text(value@) {
            Ok(text) => Ok(ZStr::holding(text)),
            Err(e) => Err(e),
        }
    }
}

} // verus!
