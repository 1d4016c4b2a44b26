//! Lossy UTF-8 decoding with a single byte of lookahead.
//!
//! The decoder reads a lead byte, then takes continuation bytes one at a time
//! for as long as the lead byte asks for them and the next byte is one. A
//! byte that is not a continuation byte is never taken as part of the
//! sequence before it: it stays in place and starts the next step.

use vstd::prelude::*;
use vstd::utf8::*;
use crate::byte_source::ByteSource;

verus! {

/// The character that stands in for every byte sequence that cannot be decoded.
pub const REPLACEMENT_CHARACTER: char = '\u{FFFD}';

/// The number of bytes that a sequence starting with `lead` is meant to have:
/// 1 for ASCII, 2 to 4 for the lead bytes of longer sequences, and 0 for a
/// byte that cannot start a sequence at all.
pub open spec fn sequence_width(lead: u8) -> nat {
    if is_leading_byte_width_1(lead) {
        1
    } else if is_leading_byte_width_2(lead) {
        2
    } else if is_leading_byte_width_3(lead) {
        3
    } else if is_leading_byte_width_4(lead) {
        4
    } else {
        0
    }
}

/// The number of continuation bytes at the front of `s`, counting at most `limit`.
pub open spec fn continuation_run(s: Seq<u8>, limit: nat) -> nat
    decreases limit,
{
    if limit == 0 || s.len() == 0 || !is_continuation_byte(s[0]) {
        0
    } else {
        1 + continuation_run(s.drop_first(), (limit - 1) as nat)
    }
}

/// The number of bytes that one decoding step takes from the front of `s`:
/// the lead byte, and the continuation bytes behind it that it asks for and
/// that are there.
pub open spec fn step_len(s: Seq<u8>) -> nat
    recommends
        s.len() > 0,
{
    let width = sequence_width(s[0]);
    if width == 0 {
        1
    } else {
        1 + continuation_run(s.drop_first(), (width - 1) as nat)
    }
}

/// The character for a decoded number: the number itself where it is a
/// Unicode scalar value, the replacement character where it is not.
pub open spec fn scalar_or_replacement(codepoint: u32) -> char {
    if is_scalar(codepoint) {
        codepoint as char
    } else {
        REPLACEMENT_CHARACTER
    }
}

/// The character that one decoding step produces from the front of `s`.
///
/// An ASCII byte is its own character. Where the step found every byte that
/// a lead byte asked for, the character is the number those bytes carry.
/// Otherwise it is the replacement character.
pub open spec fn step_char(s: Seq<u8>) -> char
    recommends
        s.len() > 0,
{
    let width = sequence_width(s[0]);
    if width == 1 {
        s[0] as char
    } else if width != 0 && step_len(s) == width {
        scalar_or_replacement(decode_first_codepoint(s))
    } else {
        REPLACEMENT_CHARACTER
    }
}

/// A decoding step never takes more bytes than there are, and always takes one.
pub proof fn lemma_step_len_bounds(s: Seq<u8>)
    requires
        s.len() > 0,
    ensures
        1 <= step_len(s) <= s.len(),
        step_len(s) <= 4,
{
    lemma_continuation_run_bounds(s.drop_first(), 3);
    lemma_continuation_run_bounds(s.drop_first(), 2);
    lemma_continuation_run_bounds(s.drop_first(), 1);
    lemma_continuation_run_bounds(s.drop_first(), 0);
}

/// A run of continuation bytes is no longer than its limit or its sequence.
pub proof fn lemma_continuation_run_bounds(s: Seq<u8>, limit: nat)
    ensures
        continuation_run(s, limit) <= limit,
        continuation_run(s, limit) <= s.len(),
        forall|i: int|
            0 <= i < continuation_run(s, limit) ==> is_continuation_byte(#[trigger] s[i]),
        continuation_run(s, limit) < limit && continuation_run(s, limit) < s.len()
            ==> !is_continuation_byte(s[continuation_run(s, limit) as int]),
    decreases limit,
{
    if limit == 0 || s.len() == 0 || !is_continuation_byte(s[0]) {
    } else {
        let rest = s.drop_first();
        lemma_continuation_run_bounds(rest, (limit - 1) as nat);
        let n = continuation_run(rest, (limit - 1) as nat);
        assert forall|i: int| 0 <= i < n + 1 implies is_continuation_byte(#[trigger] s[i]) by {
            if i > 0 {
                assert(s[i] == rest[i - 1]);
            }
        }
        if n + 1 < limit && n + 1 < s.len() {
            assert(s[(n + 1) as int] == rest[n as int]);
        }
    }
}

/// The characters that decoding produces from `s`, from front to back.
pub open spec fn decode_lossy(s: Seq<u8>) -> Seq<char>
    decreases s.len(),
    via decode_lossy_decreases
{
    if s.len() == 0 {
        seq![]
    } else {
        seq![step_char(s)] + decode_lossy(s.skip(step_len(s) as int))
    }
}

#[via_fn]
proof fn decode_lossy_decreases(s: Seq<u8>) {
    if s.len() != 0 {
        lemma_step_len_bounds(s);
    }
}

/// Decodes the bytes of a source as UTF-8, one character per call of
/// [`next`](CharDecoder::next).
///
/// Bytes that do not form a character give [`REPLACEMENT_CHARACTER`]. The
/// decoder holds the source and at most one byte that it has read from the
/// source and not yet used.
pub struct CharDecoder<I: ByteSource> {
    iter: I,
    peeked: Option<u8>,
}

impl<I: ByteSource> CharDecoder<I> {
    /// The bytes that are still to be decoded: the byte held back, if there
    /// is one, and then what the source has yet to produce.
    pub closed spec fn view(&self) -> Seq<u8> {
        match self.peeked {
            Some(b) => seq![b] + self.iter.remaining(),
            None => self.iter.remaining(),
        }
    }

    /// A decoder over the bytes that `iter` has yet to produce.
    pub fn new(iter: I) -> (r: Self)
        ensures
            r@ == iter.remaining(),
    {
        CharDecoder { iter, peeked: None }
    }

    /// Takes the next byte, whether it was held back or not.
    fn pull(&mut self) -> (b: Option<u8>)
        ensures
            old(self)@.len() == 0 ==> b is None && final(self)@ == old(self)@,
            old(self)@.len() > 0 ==> b == Some(old(self)@[0]) && final(self)@ == old(
                self)@.drop_first(),
    {
        match self.peeked {
            Some(b) => {
                self.peeked = None;
                assert(self@ =~= old(self)@.drop_first());
                Some(b)
            },
            None => self.iter.next_byte(),
        }
    }

    /// Looks at the next byte and leaves it where it is.
    fn peek(&mut self) -> (b: Option<u8>)
        ensures
            final(self)@ == old(self)@,
            old(self)@.len() == 0 ==> b is None,
            old(self)@.len() > 0 ==> b == Some(old(self)@[0]),
    {
        if self.peeked.is_none() {
            self.peeked = self.iter.next_byte();
            assert(self@ =~= old(self)@);
        }
        self.peeked
    }

    /// Takes the next byte if it is a continuation byte, and gives its six
    /// data bits. Any other byte stays in place.
    fn next_continuation_bits(&mut self) -> (bits: Option<u32>)
        ensures
            old(self)@.len() > 0 && is_continuation_byte(old(self)@[0]) ==> bits == Some(
                continuation_bits(old(self)@[0]),
            ) && final(self)@ == old(self)@.drop_first(),
            !(old(self)@.len() > 0 && is_continuation_byte(old(self)@[0])) ==> bits is None
                && final(self)@ == old(self)@,
    {
        match self.peek() {
            Some(x) => {
                assert((x >> 6 == 0b10) <==> (0x80 <= x <= 0xbf)) by (bit_vector);
                if x >> 6 == 0b10 {
                    assert(((x as u32) & 0b111111) == (x & 0x3f) as u32) by (bit_vector);
                    let _ = self.pull();
                    Some((x as u32) & 0b111111)
                } else {
                    None
                }
            },
            None => None,
        }
    }

    /// Decodes the next character.
    ///
    /// With no byte left the result is `None` and nothing changes. Otherwise
    /// the result is the character of one decoding step, and exactly the
    /// bytes of that step are gone from the front of what is left.
    pub fn next(&mut self) -> (c: Option<char>)
        ensures
            old(self)@.len() == 0 ==> c is None && final(self)@ == old(self)@,
            old(self)@.len() > 0 ==> c == Some(step_char(old(self)@)) && final(self)@ == old(
                self)@.skip(step_len(old(self)@) as int),
    {
        let ghost s = self@;
        let lead = match self.pull() {
            Some(b) => b,
            None => {
                return None;
            },
        };
        let x: u32 = lead as u32;
        proof {
            reveal_with_fuel(continuation_run, 4);
            lemma_lead_byte_bits(lead);
            assert(self@ =~= s.skip(1));
        }
        if x < 128 {
            Some(lead as char)
        } else if (x >> 5) == 0b110 {
            let y = match self.next_continuation_bits() {
                Some(y) => y,
                None => {
                    return Some(REPLACEMENT_CHARACTER);
                },
            };
            assert(self@ =~= s.skip(2));
            let u = ((x & 0b11111) << 6) | y;
            Some(char::from_u32(u).unwrap_or(REPLACEMENT_CHARACTER))
        } else if (x >> 4) == 0b1110 {
            let y = match self.next_continuation_bits() {
                Some(y) => y,
                None => {
                    return Some(REPLACEMENT_CHARACTER);
                },
            };
            assert(self@ =~= s.skip(2));
            let z = match self.next_continuation_bits() {
                Some(z) => z,
                None => {
                    return Some(REPLACEMENT_CHARACTER);
                },
            };
            assert(self@ =~= s.skip(3));
            let u = ((x & 0b1111) << 12) | (y << 6) | z;
            Some(char::from_u32(u).unwrap_or(REPLACEMENT_CHARACTER))
        } else if (x >> 3) == 0b11110 {
            let y = match self.next_continuation_bits() {
                Some(y) => y,
                None => {
                    return Some(REPLACEMENT_CHARACTER);
                },
            };
            assert(self@ =~= s.skip(2));
            let z = match self.next_continuation_bits() {
                Some(z) => z,
                None => {
                    return Some(REPLACEMENT_CHARACTER);
                },
            };
            assert(self@ =~= s.skip(3));
            let w = match self.next_continuation_bits() {
                Some(w) => w,
                None => {
                    return Some(REPLACEMENT_CHARACTER);
                },
            };
            assert(self@ =~= s.skip(4));
            let u = ((x & 0b111) << 18) | (y << 12) | (z << 6) | w;
            Some(char::from_u32(u).unwrap_or(REPLACEMENT_CHARACTER))
        } else {
            Some(REPLACEMENT_CHARACTER)
        }
    }

    /// Decodes every byte that is left and gives the characters in order.
    pub fn collect(self) -> (chars: Vec<char>)
        ensures
            chars@ == decode_lossy(self@),
            chars@.len() <= self@.len(),
    {
        proof {
            lemma_decode_lossy_len(self@);
        }
        let mut decoder = self;
        let mut chars: Vec<char> = Vec::new();
        loop
            invariant
                decode_lossy(self@).len() <= self@.len(),
                chars@ + decode_lossy(decoder@) == decode_lossy(self@),
            decreases decoder@.len(),
        {
            let ghost before = decoder@;
            match decoder.next() {
                Some(c) => {
                    proof {
                        lemma_step_len_bounds(before);
                        assert((chars@ + seq![c]) + decode_lossy(decoder@) =~= chars@
                            + decode_lossy(before));
                    }
                    chars.push(c);
                },
                None => {
                    assert(chars@ + decode_lossy(decoder@) =~= chars@);
                    return chars;
                },
            }
        }
    }

    /// Decodes every byte that is left and gives the characters as a string.
    pub fn collect_string(self) -> (text: String)
        ensures
            text@ == decode_lossy(self@),
            text@.len() <= self@.len(),
    {
        proof {
            lemma_decode_lossy_len(self@);
        }
        let mut decoder = self;
        let mut text = String::new();
        loop
            invariant
                decode_lossy(self@).len() <= self@.len(),
                text@ + decode_lossy(decoder@) == decode_lossy(self@),
            decreases decoder@.len(),
        {
            let ghost before = decoder@;
            let ghost so_far = text@;
            match decoder.next() {
                Some(c) => {
                    text.push(c);
                    proof {
                        lemma_step_len_bounds(before);
                        assert(so_far.push(c) + decode_lossy(decoder@) =~= so_far + decode_lossy(
                            before,
                        ));
                    }
                },
                None => {
                    assert(text@ + decode_lossy(decoder@) =~= text@);
                    return text;
                },
            }
        }
    }
}

/// How the shifts and masks that the decoder applies to a lead byte relate to
/// the byte ranges of UTF-8.
proof fn lemma_lead_byte_bits(lead: u8)
    ensures
        ((lead as u32) >> 5 == 0b110) <==> is_leading_byte_width_2(lead),
        ((lead as u32) >> 4 == 0b1110) <==> is_leading_byte_width_3(lead),
        ((lead as u32) >> 3 == 0b11110) <==> is_leading_byte_width_4(lead),
        (lead as u32) & 0b11111 == leading_bits_width_2(lead),
        (lead as u32) & 0b1111 == leading_bits_width_3(lead),
        (lead as u32) & 0b111 == leading_bits_width_4(lead),
{
    assert(((lead as u32) >> 5 == 0b110) <==> (0xc0 <= lead <= 0xdf)) by (bit_vector);
    assert(((lead as u32) >> 4 == 0b1110) <==> (0xe0 <= lead <= 0xef)) by (bit_vector);
    assert(((lead as u32) >> 3 == 0b11110) <==> (0xf0 <= lead <= 0xf7)) by (bit_vector);
    assert((lead as u32) & 0b11111 == (lead & 0x1F) as u32) by (bit_vector);
    assert((lead as u32) & 0b1111 == (lead & 0x0F) as u32) by (bit_vector);
    assert((lead as u32) & 0b111 == (lead & 0x07) as u32) by (bit_vector);
}

impl<I: ByteSource> From<I> for CharDecoder<I> {
    /// A decoder over the bytes that `iter` has yet to produce.
    fn from(iter: I) -> (r: Self)
        ensures
            r@ == iter.remaining(),
    {
        CharDecoder { iter, peeked: None }
    }
}

impl<I: ByteSource> vstd::std_specs::convert::FromSpecImpl<I> for CharDecoder<I> {
    open spec fn obeys_from_spec() -> bool {
        true
    }

    closed spec fn from_spec(iter: I) -> Self {
        CharDecoder { iter, peeked: None }
    }
}

/// Decoding yields at most one character per byte: the result of decoding a
/// finite sequence is finite, and no longer than the sequence.
pub proof fn lemma_decode_lossy_len(s: Seq<u8>)
    ensures
        decode_lossy(s).len() <= s.len(),
        s.len() > 0 ==> decode_lossy(s).len() > 0,
    decreases s.len(),
{
    if s.len() > 0 {
        lemma_step_len_bounds(s);
        lemma_decode_lossy_len(s.skip(step_len(s) as int));
    }
}

/// Every byte that a decoding step takes behind the lead byte is a
/// continuation byte, and a step that stops short of the width its lead byte
/// asked for gives the replacement character.
pub proof fn lemma_step_takes_only_continuations(s: Seq<u8>)
    requires
        s.len() > 0,
    ensures
        forall|i: int| 1 <= i < step_len(s) ==> is_continuation_byte(#[trigger] s[i]),
        step_len(s) <= vstd::math::max(sequence_width(s[0]) as int, 1),
        step_len(s) < sequence_width(s[0]) ==> step_char(s) == REPLACEMENT_CHARACTER,
        step_len(s) < sequence_width(s[0]) && step_len(s) < s.len() ==> !is_continuation_byte(
            s[step_len(s) as int],
        ),
{
    let width = sequence_width(s[0]);
    if width != 0 {
        let rest = s.drop_first();
        let limit = (width - 1) as nat;
        lemma_continuation_run_bounds(rest, limit);
        assert forall|i: int| 1 <= i < step_len(s) implies is_continuation_byte(
            #[trigger] s[i],
        ) by {
            assert(s[i] == rest[i - 1]);
        }
        if step_len(s) < width && step_len(s) < s.len() {
            assert(s[step_len(s) as int] == rest[continuation_run(rest, limit) as int]);
        }
    }
}

/// A lead byte of a sequence of two, three or four bytes that is followed at
/// once by a byte that is no continuation byte, or by the end of the input,
/// gives exactly one replacement character, and only the lead byte is taken:
/// the byte behind it starts the next step.
pub proof fn lemma_lone_lead_byte(s: Seq<u8>)
    requires
        s.len() > 0,
        sequence_width(s[0]) >= 2,
        s.len() == 1 || !is_continuation_byte(s[1]),
    ensures
        step_char(s) == REPLACEMENT_CHARACTER,
        step_len(s) == 1,
        decode_lossy(s) == seq![REPLACEMENT_CHARACTER] + decode_lossy(s.skip(1)),
{
    let rest = s.drop_first();
    if rest.len() > 0 {
        assert(rest[0] == s[1]);
    }
}

/// On a valid UTF-8 encoding the decoder agrees with UTF-8: it yields the
/// encoded characters, each once and in order.
pub proof fn lemma_decode_lossy_valid_utf8(s: Seq<u8>)
    requires
        valid_utf8(s),
    ensures
        decode_lossy(s) == decode_utf8(s),
    decreases s.len(),
{
    if s.len() > 0 {
        lemma_valid_first_scalar_step(s);
        lemma_decode_lossy_valid_utf8(pop_first_scalar(s));
    }
}

/// Decoding the UTF-8 encoding of a text gives back the text.
pub proof fn lemma_decode_lossy_of_encoding(text: Seq<char>)
    ensures
        decode_lossy(encode_utf8(text)) == text,
{
    encode_utf8_valid_utf8(text);
    encode_utf8_decode_utf8(text);
    lemma_decode_lossy_valid_utf8(encode_utf8(text));
}

/// Where a sequence starts with a well-formed encoding of one scalar value, a
/// decoding step takes exactly that encoding and gives that scalar value.
pub proof fn lemma_valid_first_scalar_step(s: Seq<u8>)
    requires
        valid_first_scalar(s),
    ensures
        step_len(s) == length_of_first_scalar(s),
        step_char(s) == decode_first_scalar(s) as char,
        s.skip(step_len(s) as int) == pop_first_scalar(s),
{
    reveal_with_fuel(continuation_run, 4);
    let rest = s.drop_first();
    let b0 = s[0];
    if is_leading_byte_width_1(b0) {
        assert(b0 <= 0x7f ==> (b0 & 0x7F) as u32 == b0 as u32) by (bit_vector);
    } else if is_leading_byte_width_2(b0) {
        let b1 = s[1];
        assert(rest[0] == b1);
        assert(((((b0 & 0x1F) as u32) << 6) | ((b1 & 0x3f) as u32)) <= 0x7FF) by (bit_vector);
    } else if is_leading_byte_width_3(b0) {
        let b1 = s[1];
        let b2 = s[2];
        assert(rest[0] == b1);
        assert(rest.drop_first()[0] == b2);
        assert(((((b0 & 0x0F) as u32) << 12) | (((b1 & 0x3f) as u32) << 6) | ((b2 & 0x3f) as u32))
            <= 0xFFFF) by (bit_vector);
    } else {
        assert(rest[0] == s[1]);
        assert(rest.drop_first()[0] == s[2]);
        assert(rest.drop_first().drop_first()[0] == s[3]);
    }
}

} // verus!
