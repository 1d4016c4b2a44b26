//! A zero-terminated text buffer held in an array of fixed size.

use vstd::prelude::*;
use vstd::utf8::*;
use crate::byte_source::ByteSource;
use crate::byte_source::SliceBytes;
use crate::char_decoder::CharDecoder;
use crate::zbytes_ref::ZBytesRef;
use crate::zstr::ZStr;
use crate::zstr::ZStringError;

verus! {

/// What storing `text` in an array of `capacity` bytes comes to.
///
/// The zero characters at the end of `text` are dropped. A text that still
/// holds a zero character is refused with `Some(InteriorNulls)`. A text whose
/// encoding does not leave room for a terminator is refused with `None`.
pub open spec fn stored_text(text: Seq<char>, capacity: nat) -> Result<
    Seq<char>,
    Option<ZStringError>,
> {
    let trimmed = crate::text::trim_end_nuls(text);
    if !crate::text::no_nul_char(trimmed) {
        Err(Some(ZStringError::InteriorNulls))
    } else if encode_utf8(trimmed).len() < capacity {
        Ok(trimmed)
    } else {
        Err(None)
    }
}

/// An array of `N` bytes that holds UTF-8 text and then zeros to its end.
///
/// Text of up to `N - 1` bytes fits.
#[derive(Clone, Copy, PartialOrd, Ord, Hash)]
pub struct ArrayZString<const N: usize>([u8; N]);

impl<const N: usize> ArrayZString<N> {
    #[verifier::type_invariant]
    spec fn well_formed(self) -> bool {
        let end = crate::terminator::nul_position(self.0@);
        &&& valid_utf8(self.0@.take(end as int))
        &&& forall|i: int| end <= i < N ==> #[trigger] self.0@[i] == 0
        &&& N > 0 ==> end < N
    }

    /// The text of the buffer: what the array holds before its first zero byte.
    pub closed spec fn view(&self) -> Seq<char> {
        decode_utf8(self.content())
    }

    /// The bytes of the array before its first zero byte.
    pub closed spec fn content(&self) -> Seq<u8> {
        self.0@.take(crate::terminator::nul_position(self.0@) as int)
    }

    /// The buffer that holds `text` and then zeros to the end of the array.
    pub closed spec fn holding(text: Seq<char>) -> Self {
        ArrayZString(
            choose|array: [u8; N]|
                array@ == encode_utf8(text) + Seq::new(
                    (N - encode_utf8(text).len()) as nat,
                    |i: int| 0u8,
                ),
        )
    }

    /// The buffer that holds the empty text: an array of zeros.
    pub fn const_default() -> (r: Self)
        ensures
            r@ == Seq::<char>::empty(),
            r.content() == Seq::<u8>::empty(),
    {
        let zeros = [0u8;N];
        proof {
            crate::terminator::lemma_nul_position(zeros@, 0);
            assert(zeros@.take(0) =~= Seq::<u8>::empty());
        }
        ArrayZString(zeros)
    }

    /// The part of the array that holds the content.
    fn content_slice(&self) -> (bytes: &[u8])
        ensures
            bytes@ == self.content(),
            valid_utf8(bytes@),
            crate::terminator::no_nul(bytes@),
            self.content() == encode_utf8(self@),
            N > 0 ==> bytes@.len() < N,
    {
        proof {
            use_type_invariant(self);
            crate::terminator::lemma_nul_position_bounds(self.0@);
            decode_utf8_encode_utf8(self.content());
        }
        let region = self.0.as_slice();
        let end = crate::terminator::nul_position_of(region);
        let bytes = vstd::slice::slice_subrange(region, 0, end);
        assert(bytes@ =~= self.0@.take(end as int));
        bytes
    }

    /// Borrows the buffer as a text buffer. The array must not be empty.
    pub fn as_zstr(&self) -> (r: ZStr<'_>)
        requires
            N > 0,
        ensures
            r@ == self@,
            r.content() == self.content(),
    {
        proof {
            use_type_invariant(self);
            crate::terminator::lemma_nul_position_bounds(self.0@);
        }
        let region = self.0.as_slice();
        let end = crate::terminator::nul_position_of(region);
        let through = vstd::slice::slice_subrange(region, 0, end + 1);
        assert(through@.drop_last() =~= self.0@.take(end as int));
        ZStr::from_utf8_buffer(ZBytesRef::from_non_null_unchecked(through))
    }

    /// The text of the buffer. The array must not be empty.
    pub fn as_str(&self) -> (text: &str)
        requires
            N > 0,
        ensures
            text@ == self@,
    {
        let bytes = self.content_slice();
        let text = crate::std_specs::str_from_utf8(bytes).unwrap();
        proof {
            encode_utf8_decode_utf8(text@);
        }
        text
    }

    /// Starts a pass over the bytes of the content. The pass does not yield
    /// the terminator.
    pub fn bytes(&self) -> (it: SliceBytes<'_>)
        ensures
            it.remaining() == self.content(),
            self.content() == encode_utf8(self@),
            crate::terminator::no_nul(self.content()),
    {
        SliceBytes::new(self.content_slice())
    }

    /// Starts decoding the content. The decoder yields the text of the
    /// buffer, character by character.
    pub fn chars(&self) -> (decoder: CharDecoder<SliceBytes<'_>>)
        ensures
            decoder@ == self.content(),
            crate::char_decoder::decode_lossy(decoder@) == self@,
    {
        let bytes = self.content_slice();
        proof {
            crate::char_decoder::lemma_decode_lossy_valid_utf8(bytes@);
        }
        CharDecoder::from(SliceBytes::new(bytes))
    }

    /// Writes the text of the buffer.
    pub fn to_string(&self) -> (s: String)
        ensures
            s@ == self@,
    {
        self.chars().collect_string()
    }

    /// Writes the text of the buffer between double quotes. No character of
    /// the text is escaped.
    pub fn to_debug_string(&self) -> (s: String)
        ensures
            s@ == seq!['"'] + self@ + seq!['"'],
    {
        let mut s = String::new();
        s.push('"');
        let text = self.to_string();
        s.append(text.as_str());
        s.push('"');
        assert(s@ =~= seq!['"'] + self@ + seq!['"']);
        s
    }
}

impl<const N: usize> Default for ArrayZString<N> {
    /// The buffer that holds the empty text.
    fn default() -> (r: Self)
        ensures
            r@ == Seq::<char>::empty(),
            r.content() == Seq::<u8>::empty(),
    {
        Self::const_default()
    }
}

impl<const N: usize> TryFrom<&str> for ArrayZString<N> {
    type Error = Option<ZStringError>;

    /// Stores `value`, without the zero characters at its end, in an array
    /// of `N` bytes.
    ///
    /// A text with a zero character before its trailing ones is refused with
    /// `Some(InteriorNulls)`, whatever its length. A text whose encoding
    /// takes `N` bytes or more is refused with `None`.
    fn try_from(value: &str) -> (r: Result<Self, Self::Error>)
        ensures
            stored_text(value@, N as nat) matches Ok(text) ==> r is Ok && r.unwrap()@ == text
                && r.unwrap().content() == encode_utf8(text),
            stored_text(value@, N as nat) matches Err(e) ==> r == Err::<Self, _>(e),
    {
        let bytes = value.as_bytes();
        let kept = crate::text::trimmed_len_of(bytes);
        proof {
            crate::text::lemma_encode_trim(value@);
            crate::text::lemma_encode_no_nul(crate::text::trim_end_nuls(value@));
            crate::text::lemma_trimmed_len(bytes@);
        }
        let front = vstd::slice::slice_subrange(bytes, 0, kept);
        assert(front@ =~= bytes@.take(kept as int));
        if crate::terminator::contains_nul(front) {
            Err(Some(ZStringError::InteriorNulls))
        } else if kept < N {
            let mut out = [0u8;N];
            let mut i: usize = 0;
            while i < kept
                invariant
                    i <= kept < N,
                    kept == front@.len(),
                    out@.take(i as int) == front@.take(i as int),
                    forall|j: int| i <= j < N ==> #[trigger] out@[j] == 0,
                decreases kept - i,
            {
                let ghost old_out = out@;
                out[i] = front[i];
                proof {
                    let now = out@.take(i + 1);
                    let want = front@.take(i + 1);
                    assert forall|j: int| 0 <= j < i + 1 implies #[trigger] now[j] == want[j] by {
                        if j < i {
                            assert(now[j] == old_out.take(i as int)[j]);
                            assert(front@.take(i as int)[j] == front@[j]);
                        }
                    }
                    assert(now =~= want);
                }
                i += 1;
            }
            proof {
                let text = crate::text::trim_end_nuls(value@);
                assert(front@.take(kept as int) =~= front@);
                crate::terminator::lemma_nul_position(out@, kept as int);
                encode_utf8_valid_utf8(text);
                encode_utf8_decode_utf8(text);
                let chosen = choose|array: [u8; N]|
                    array@ == encode_utf8(text) + Seq::new(
                        (N - encode_utf8(text).len()) as nat,
                        |i: int| 0u8,
                    );
                assert(out@ =~= encode_utf8(text) + Seq::new(
                    (N - encode_utf8(text).len()) as nat,
                    |i: int| 0u8,
                )) by {
                    assert forall|j: int| 0 <= j < kept implies out@[j] == front@[j] by {
                        assert(out@.take(kept as int)[j] == front@.take(kept as int)[j]);
                    }
                }
                assert(chosen =~= out);
            }
            Ok(ArrayZString(out))
        } else {
            Err(None)
        }
    }
}

impl<const N: usize> vstd::std_specs::convert::TryFromSpecImpl<&str> for ArrayZString<N> {
    open spec fn obeys_try_from_spec() -> bool {
        true
    }

    open spec fn try_from_spec(value: &str) -> Result<Self, Self::Error> {
        match stored_text(value@, N as nat) {
            Ok(text) => Ok(ArrayZString::holding(text)),
            Err(e) => Err(e),
        }
    }
}

impl<const N: usize> PartialEq for ArrayZString<N> {
    /// Two buffers are equal when they hold the same text.
    fn eq(&self, other: &Self) -> (r: bool)
        ensures
            r == (self@ == other@),
    {
        let ghost mine = self.0@;
        let ghost theirs = other.0@;
        let ghost my_end = crate::terminator::nul_position(mine) as int;
        let ghost their_end = crate::terminator::nul_position(theirs) as int;
        proof {
            use_type_invariant(self);
            use_type_invariant(other);
            decode_utf8_encode_utf8(self.content());
            decode_utf8_encode_utf8(other.content());
            crate::terminator::lemma_nul_position_bounds(mine);
            crate::terminator::lemma_nul_position_bounds(theirs);
            assert(mine.take(0) =~= theirs.take(0));
        }
        let mut i: usize = 0;
        while i < N
            invariant
                i <= N,
                mine == self.0@,
                theirs == other.0@,
                mine.len() == N,
                theirs.len() == N,
                mine.take(i as int) == theirs.take(i as int),
                0 <= my_end <= N,
                0 <= their_end <= N,
                forall|j: int| my_end <= j < N ==> #[trigger] mine[j] == 0,
                forall|j: int| their_end <= j < N ==> #[trigger] theirs[j] == 0,
                (self@ == other@) <==> (mine.take(my_end) == theirs.take(their_end)),
            decreases N - i,
        {
            if self.0[i] != other.0[i] {
                proof {
                    if mine.take(my_end) == theirs.take(their_end) {
                        assert(mine.take(my_end).len() == theirs.take(their_end).len());
                        if i < my_end {
                            assert(mine.take(my_end)[i as int] == mine[i as int]);
                            assert(theirs.take(their_end)[i as int] == theirs[i as int]);
                        }
                    }
                }
                return false;
            }
            proof {
                let a = mine.take(i + 1);
                let b = theirs.take(i + 1);
                assert forall|j: int| 0 <= j < i + 1 implies #[trigger] a[j] == b[j] by {
                    if j < i {
                        assert(mine.take(i as int)[j] == theirs.take(i as int)[j]);
                    }
                }
                assert(a =~= b);
            }
            i += 1;
        }
        proof {
            assert(mine.take(N as int) =~= mine);
            assert(theirs.take(N as int) =~= theirs);
        }
        true
    }
}

impl<const N: usize> vstd::std_specs::cmp::PartialEqSpecImpl for ArrayZString<N> {
    open spec fn obeys_eq_spec() -> bool {
        true
    }

    open spec fn eq_spec(&self, other: &Self) -> bool {
        self@ == other@
    }
}

impl<const N: usize> Eq for ArrayZString<N> {

}

} // verus!
