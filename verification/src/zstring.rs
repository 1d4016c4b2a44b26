//! The owning handle to a zero-terminated buffer of UTF-8 text.

use vstd::prelude::*;
use vstd::utf8::*;
use crate::byte_source::ByteSource;
use crate::char_decoder::CharDecoder;
use crate::zbytes::ZBytes;
use crate::zbytes_ref::ZBytesRefIter;
use crate::zstr::ZStr;
use crate::zstr::ZStringError;
use crate::ZBytesCreationError;

verus! {

/// What making an owned text buffer from `text` comes to.
///
/// The zero characters at the end of `text` are dropped, however many there
/// are. A text that still holds a zero character after that is refused.
pub open spec fn owned_text(text: Seq<char>) -> Result<Seq<char>, ZStringError> {
    let trimmed = crate::text::trim_end_nuls(text);
    if !crate::text::no_nul_char(trimmed) {
        Err(ZStringError::InteriorNulls)
    } else {
        Ok(trimmed)
    }
}

/// Owns a zero-terminated buffer whose content is UTF-8.
pub struct ZString {
    bytes: ZBytes,
}

impl ZString {
    #[verifier::type_invariant]
    spec fn well_formed(self) -> bool {
        valid_utf8(self.bytes@)
    }

    /// The text of the buffer, without its terminator.
    pub closed spec fn view(&self) -> Seq<char> {
        decode_utf8(self.bytes@)
    }

    /// The bytes of the buffer, without its terminator.
    pub closed spec fn content(&self) -> Seq<u8> {
        self.bytes@
    }

    /// The handle to a region that holds the encoding of `text` and then the
    /// terminator.
    pub closed spec fn holding(text: Seq<char>) -> Self {
        ZString { bytes: ZBytes::holding(encode_utf8(text)) }
    }

    /// Takes over a region that holds the encoding of `text` and then the
    /// terminator.
    fn from_encoded(region: Box<[u8]>, Ghost(text): Ghost<Seq<char>>) -> (r: Self)
        requires
            region@ == encode_utf8(text).push(0),
            crate::text::no_nul_char(text),
        ensures
            r@ == text,
            r.content() == encode_utf8(text),
            r == Self::holding(text),
    {
        proof {
            crate::text::lemma_encode_no_nul(text);
            assert(region@.drop_last() =~= encode_utf8(text));
            encode_utf8_valid_utf8(text);
            encode_utf8_decode_utf8(text);
        }
        ZString { bytes: ZBytes::from_boxed_slice_unchecked(region) }
    }

    /// Takes over the text `b` without looking at it. The caller vouches that
    /// it ends in a zero character and holds no other.
    pub fn new_unchecked(b: Box<str>) -> (r: Self)
        requires
            b@.len() > 0,
            b@.last() == '\0',
            crate::text::no_nul_char(b@.drop_last()),
        ensures
            r@ == b@.drop_last(),
            r.content() == encode_utf8(b@.drop_last()),
            r == Self::holding(b@.drop_last()),
    {
        let ghost text = b@;
        let region = b.into_boxed_bytes();
        proof {
            crate::text::lemma_encode_terminated(text);
            assert(region@ =~= encode_utf8(text.drop_last()).push(0));
        }
        ZString::from_encoded(region, Ghost(text.drop_last()))
    }

    /// Takes over the text `b` without looking at it. The caller vouches that
    /// it ends in a zero character and holds no other.
    pub fn from_boxed_str_unchecked(b: Box<str>) -> (r: Self)
        requires
            b@.len() > 0,
            b@.last() == '\0',
            crate::text::no_nul_char(b@.drop_last()),
        ensures
            r@ == b@.drop_last(),
            r.content() == encode_utf8(b@.drop_last()),
            r == Self::holding(b@.drop_last()),
    {
        ZString::new_unchecked(b)
    }

    /// Makes a buffer that holds the text `chars`, which must hold no zero
    /// character.
    pub fn from_chars(chars: &[char]) -> (r: Self)
        requires
            crate::text::no_nul_char(chars@),
        ensures
            r@ == chars@,
            r.content() == encode_utf8(chars@),
            r == Self::holding(chars@),
    {
        let mut s = String::new();
        let mut i: usize = 0;
        while i < chars.len()
            invariant
                i <= chars@.len(),
                s@ == chars@.take(i as int),
            decreases chars@.len() - i,
        {
            s.push(chars[i]);
            assert(chars@.take(i as int).push(chars@[i as int]) =~= chars@.take(i + 1));
            i += 1;
        }
        assert(chars@.take(i as int) =~= chars@);
        s.push('\0');
        let region: Vec<u8> = vstd::slice::slice_to_vec(s.as_str().as_bytes());
        proof {
            crate::text::lemma_encode_concat(chars@, seq!['\0']);
            crate::text::lemma_encode_single('\0');
            crate::text::lemma_encode_scalar_nul('\0');
            assert(chars@.push('\0') =~= chars@ + seq!['\0']);
            assert(encode_utf8(chars@) + seq![0u8] =~= encode_utf8(chars@).push(0));
        }
        ZString::from_encoded(crate::std_specs::vec_into_boxed_slice(region), Ghost(chars@))
    }

    /// Writes the text of the buffer.
    pub fn to_string(&self) -> (s: String)
        ensures
            s@ == self@,
    {
        self.as_zstr().to_string()
    }

    /// Writes the text of the buffer between double quotes. No character of
    /// the text is escaped.
    pub fn to_debug_string(&self) -> (s: String)
        ensures
            s@ == seq!['"'] + self@ + seq!['"'],
    {
        self.as_zstr().to_debug_string()
    }

    /// Borrows the buffer as a text buffer.
    pub fn as_zstr(&self) -> (r: ZStr<'_>)
        ensures
            r@ == self@,
            r.content() == self.content(),
    {
        proof {
            use_type_invariant(self);
        }
        ZStr::from_utf8_buffer(self.bytes.get_ref())
    }

    /// Borrows the buffer as a text buffer.
    pub fn get_ref<'a>(&'a self) -> (r: ZStr<'a>)
        ensures
            r@ == self@,
            r.content() == self.content(),
    {
        self.as_zstr()
    }

    /// Starts a pass over the bytes of the content. The pass does not yield
    /// the terminator.
    pub fn bytes(&self) -> (it: ZBytesRefIter<'_>)
        ensures
            it.remaining() == self.content(),
            self.content() == encode_utf8(self@),
            crate::terminator::no_nul(self.content()),
    {
        self.as_zstr().bytes()
    }

    /// Starts a pass over the bytes of the content. The pass does not yield
    /// the terminator.
    pub fn iter_bytes<'a>(&'a self) -> (it: ZBytesRefIter<'a>)
        ensures
            it.remaining() == self.content(),
            self.content() == encode_utf8(self@),
            crate::terminator::no_nul(self.content()),
    {
        self.as_zstr().bytes()
    }

    /// Starts decoding the content. The decoder yields the text of the
    /// buffer, character by character.
    pub fn chars(&self) -> (decoder: CharDecoder<ZBytesRefIter<'_>>)
        ensures
            decoder@ == self.content(),
            crate::char_decoder::decode_lossy(decoder@) == self@,
            crate::text::no_nul_char(self@),
    {
        self.as_zstr().chars()
    }
}

impl PartialEq for ZString {
    /// Two text buffers are equal when their contents are, byte for byte,
    /// wherever they lie. That is when they hold the same text.
    fn eq(&self, other: &ZString) -> (r: bool)
        ensures
            r == (self.content() == other.content()),
            r == (self@ == other@),
    {
        self.as_zstr() == other.as_zstr()
    }
}

impl vstd::std_specs::cmp::PartialEqSpecImpl for ZString {
    open spec fn obeys_eq_spec() -> bool {
        true
    }

    open spec fn eq_spec(&self, other: &ZString) -> bool {
        self@ == other@
    }
}

impl Eq for ZString {

}

impl Clone for ZString {
    /// A second buffer with the same text, in a region of its own.
    fn clone(&self) -> (r: Self)
        ensures
            r@ == self@,
            r.content() == self.content(),
    {
        ZString::from(self.as_zstr())
    }
}

impl<'a> From<ZStr<'a>> for ZString {
    /// Copies the text of `zs`, terminator included, into a region of its own.
    fn from(zs: ZStr<'a>) -> (r: Self)
        ensures
            r@ == zs@,
            r.content() == zs.content(),
    {
        let source = zs.as_zbytes();
        let region: Vec<u8> = vstd::slice::slice_to_vec(source.as_slice_including_null());
        ZString::from_encoded(crate::std_specs::vec_into_boxed_slice(region), Ghost(zs@))
    }
}

impl<'a> vstd::std_specs::convert::FromSpecImpl<ZStr<'a>> for ZString {
    open spec fn obeys_from_spec() -> bool {
        true
    }

    open spec fn from_spec(zs: ZStr<'a>) -> Self {
        ZString::holding(zs@)
    }
}

impl TryFrom<&str> for ZString {
    type Error = ZStringError;

    /// Makes a buffer that holds `value` without the zero characters at its
    /// end. A text with a zero character before those is refused.
    fn try_from(value: &str) -> (r: Result<Self, Self::Error>)
        ensures
            owned_text(value@) matches Ok(text) ==> r is Ok && r.unwrap()@ == text
                && r.unwrap().content() == encode_utf8(text),
            owned_text(value@) matches Err(e) ==> r == Err::<Self, _>(e),
    {
        let bytes = value.as_bytes();
        let kept = crate::text::trimmed_len_of(bytes);
        proof {
            crate::text::lemma_encode_trim(value@);
            crate::text::lemma_encode_no_nul(crate::text::trim_end_nuls(value@));
            crate::text::lemma_trimmed_len(bytes@);
        }
        let front = vstd::slice::slice_subrange(bytes, 0, kept);
        assert(front@ =~= bytes@.take(kept as int));
        if crate::terminator::contains_nul(front) {
            return Err(ZStringError::InteriorNulls);
        }
        let mut region: Vec<u8> = vstd::slice::slice_to_vec(front);
        region.push(0);
        Ok(
            ZString::from_encoded(
                crate::std_specs::vec_into_boxed_slice(region),
                Ghost(crate::text::trim_end_nuls(value@)),
            ),
        )
    }
}

impl vstd::std_specs::convert::TryFromSpecImpl<&str> for ZString {
    open spec fn obeys_try_from_spec() -> bool {
        true
    }

    open spec fn try_from_spec(value: &str) -> Result<Self, Self::Error> {
        match owned_text(value@) {
            Ok(text) => Ok(ZString::holding(text)),
            Err(e) => Err(e),
        }
    }
}

impl TryFrom<Box<str>> for ZString {
    type Error = ZBytesCreationError;

    /// Takes over `value` as a buffer if its encoding is zero-terminated: if
    /// it ends in a zero character and holds no other. Nothing is copied.
    fn try_from(value: Box<str>) -> (r: Result<Self, Self::Error>)
        ensures
            crate::terminator::validation(encode_utf8(value@)) is Ok ==> r is Ok && r.unwrap()@
                == value@.drop_last() && r.unwrap().content() == encode_utf8(value@.drop_last()),
            crate::terminator::validation(encode_utf8(value@)) matches Err(e) ==> r == Err::<
                Self,
                _,
            >(e),
    {
        match crate::terminator::validate(value.as_bytes()) {
            Ok(()) => {
                proof {
                    crate::text::lemma_encode_terminated(value@);
                }
                Ok(ZString::new_unchecked(value))
            },
            Err(e) => Err(e),
        }
    }
}

impl vstd::std_specs::convert::TryFromSpecImpl<Box<str>> for ZString {
    open spec fn obeys_try_from_spec() -> bool {
        true
    }

    open spec fn try_from_spec(value: Box<str>) -> Result<Self, Self::Error> {
        match crate::terminator::validation(encode_utf8(value@)) {
            Ok(()) => Ok(ZString::holding(value@.drop_last())),
            Err(e) => Err(e),
        }
    }
}

/// Borrows each of `zstrings` as a text buffer, in the same order.
pub fn zstrings_as_zstrs<'a>(zstrings: &'a [ZString]) -> (zstrs: Vec<ZStr<'a>>)
    ensures
        zstrs@.len() == zstrings@.len(),
        forall|i: int|
            0 <= i < zstrings@.len() ==> (#[trigger] zstrs@[i])@ == zstrings@[i]@
                && zstrs@[i].content() == zstrings@[i].content(),
{
    let mut zstrs: Vec<ZStr<'a>> = Vec::new();
    let mut n: usize = 0;
    while n < zstrings.len()
        invariant
            n <= zstrings@.len(),
            zstrs@.len() == n,
            forall|i: int|
                0 <= i < n ==> (#[trigger] zstrs@[i])@ == zstrings@[i]@ && zstrs@[i].content()
                    == zstrings@[i].content(),
        decreases zstrings@.len() - n,
    {
        zstrs.push(zstrings[n].as_zstr());
        n += 1;
    }
    zstrs
}

/// A text without a zero character goes into a buffer and comes out again
/// unchanged.
///
/// Such a text is accepted as it is for an owned buffer, and with a zero
/// character behind it for a borrowed one. The region of the buffer is the
/// encoding of the text and then the terminator, and decoding the content of
/// that region gives the text back.
pub proof fn lemma_round_trip(text: Seq<char>)
    requires
        crate::text::no_nul_char(text),
    ensures
        owned_text(text) == Ok::<_, ZStringError>(text),
        crate::zstr::borrowed_text(text.push('\0')) == Ok::<_, ZStringError>(text),
        crate::terminator::is_terminated(encode_utf8(text).push(0)),
        encode_utf8(text.push('\0')) == encode_utf8(text).push(0),
        decode_utf8(encode_utf8(text)) == text,
        crate::char_decoder::decode_lossy(encode_utf8(text)) == text,
{
    crate::text::lemma_trim_end_nuls(text);
    let closed = text.push('\0');
    assert(closed.drop_last() =~= text);
    assert(crate::text::trim_end_nuls(closed) == crate::text::trim_end_nuls(text));
    crate::text::lemma_encode_terminated(closed);
    assert(encode_utf8(closed) =~= encode_utf8(closed).drop_last().push(0));
    encode_utf8_decode_utf8(text);
    crate::char_decoder::lemma_decode_lossy_of_encoding(text);
}

} // verus!
