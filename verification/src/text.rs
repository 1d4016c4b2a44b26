//! Zero characters in a text and zero bytes in its UTF-8 encoding.
//!
//! UTF-8 encodes the zero character as a single zero byte and uses no zero
//! byte for anything else. So a text and its encoding agree on where the
//! zeros are, and trimming one is trimming the other.

use vstd::prelude::*;
use vstd::utf8::*;

verus! {

/// No character of `text` is the zero character.
pub open spec fn no_nul_char(text: Seq<char>) -> bool {
    forall|i: int| 0 <= i < text.len() ==> #[trigger] text[i] != '\0'
}

/// `text` without the zero characters at its end.
pub open spec fn trim_end_nuls(text: Seq<char>) -> Seq<char>
    decreases text.len(),
{
    if text.len() > 0 && text.last() == '\0' {
        trim_end_nuls(text.drop_last())
    } else {
        text
    }
}

/// The length of `s` without the zero bytes at its end.
pub open spec fn trimmed_len(s: Seq<u8>) -> nat
    decreases s.len(),
{
    if s.len() > 0 && s.last() == 0 {
        trimmed_len(s.drop_last())
    } else {
        s.len()
    }
}

/// What is left of `s` is no longer than `s`, does not end in zero, and is
/// followed by zeros only.
pub proof fn lemma_trimmed_len(s: Seq<u8>)
    ensures
        trimmed_len(s) <= s.len(),
        trimmed_len(s) > 0 ==> s[trimmed_len(s) - 1] != 0,
        forall|i: int| trimmed_len(s) <= i < s.len() ==> #[trigger] s[i] == 0,
    decreases s.len(),
{
    if s.len() > 0 && s.last() == 0 {
        let front = s.drop_last();
        lemma_trimmed_len(front);
        assert forall|i: int| trimmed_len(s) <= i < s.len() implies #[trigger] s[i] == 0 by {
            if i < front.len() {
                assert(front[i] == 0);
            }
        }
        if trimmed_len(s) > 0 {
            assert(front[trimmed_len(s) - 1] == s[trimmed_len(s) - 1]);
        }
    }
}

/// Finds the length of `bytes` without the zero bytes at its end.
pub fn trimmed_len_of(bytes: &[u8]) -> (n: usize)
    ensures
        n == trimmed_len(bytes@),
{
    let mut n = bytes.len();
    assert(bytes@.take(n as int) =~= bytes@);
    while n > 0 && bytes[n - 1] == 0
        invariant
            n <= bytes@.len(),
            trimmed_len(bytes@.take(n as int)) == trimmed_len(bytes@),
        decreases n,
    {
        proof {
            let now = bytes@.take(n as int);
            assert(now.last() == 0);
            assert(now.drop_last() =~= bytes@.take(n - 1));
        }
        n -= 1;
    }
    proof {
        if n == bytes@.len() {
            assert(bytes@.take(n as int) =~= bytes@);
        }
    }
    n
}

/// The zero character is encoded as one zero byte, and the encoding of any
/// other character holds no zero byte.
pub proof fn lemma_encode_scalar_nul(c: char)
    ensures
        c == '\0' ==> encode_scalar(c as u32) == seq![0u8],
        c != '\0' ==> crate::terminator::no_nul(encode_scalar(c as u32)),
        1 <= encode_scalar(c as u32).len() <= 4,
{
    let v = c as u32;
    assert((0u32 & 0x7F) as u8 == 0) by (bit_vector);
    assert(1 <= v <= 0x7F ==> (v & 0x7F) as u8 != 0) by (bit_vector);
    assert((0xC0 | ((v >> 6) & 0x1F) as u8) != 0) by (bit_vector);
    assert((0xE0 | ((v >> 12) & 0x0F) as u8) != 0) by (bit_vector);
    assert((0xF0 | ((v >> 18) & 0x7) as u8) != 0) by (bit_vector);
    assert((0x80 | (v & 0x3F) as u8) != 0) by (bit_vector);
    assert((0x80 | ((v >> 6) & 0x3F) as u8) != 0) by (bit_vector);
    assert((0x80 | ((v >> 12) & 0x3F) as u8) != 0) by (bit_vector);
    if c == '\0' {
        assert(encode_scalar(v) =~= seq![0u8]);
    }
}

/// The encoding of a text of one character is the encoding of that character.
pub proof fn lemma_encode_single(c: char)
    ensures
        encode_utf8(seq![c]) == encode_scalar(c as u32),
{
    let one = seq![c];
    assert(one.drop_first() =~= Seq::<char>::empty());
    assert(encode_utf8(one.drop_first()) =~= Seq::<u8>::empty());
    assert(encode_utf8(one) =~= encode_scalar(one[0] as u32));
}

/// The encoding of two texts joined is the two encodings joined.
pub proof fn lemma_encode_concat(a: Seq<char>, b: Seq<char>)
    ensures
        encode_utf8(a + b) == encode_utf8(a) + encode_utf8(b),
    decreases a.len(),
{
    if a.len() == 0 {
        assert(a + b =~= b);
        assert(encode_utf8(a) + encode_utf8(b) =~= encode_utf8(b));
    } else {
        lemma_encode_concat(a.drop_first(), b);
        assert((a + b).drop_first() =~= a.drop_first() + b);
        assert(encode_utf8(a + b) =~= encode_utf8(a) + encode_utf8(b));
    }
}

/// A text holds no zero character exactly when its encoding holds no zero byte.
pub proof fn lemma_encode_no_nul(text: Seq<char>)
    ensures
        crate::terminator::no_nul(encode_utf8(text)) <==> no_nul_char(text),
    decreases text.len(),
{
    if text.len() > 0 {
        let head = encode_scalar(text[0] as u32);
        let rest = text.drop_first();
        lemma_encode_scalar_nul(text[0]);
        lemma_encode_no_nul(rest);
        let all = encode_utf8(text);
        assert(all == head + encode_utf8(rest));
        if no_nul_char(text) {
            assert forall|i: int| 0 <= i < rest.len() implies #[trigger] rest[i] != '\0' by {
                assert(text[i + 1] != '\0');
            }
            assert forall|i: int| 0 <= i < all.len() implies #[trigger] all[i] != 0 by {
                if i < head.len() {
                    assert(head[i] != 0);
                } else {
                    assert(encode_utf8(rest)[i - head.len()] != 0);
                }
            }
        }
        if crate::terminator::no_nul(all) {
            assert(all[0] == head[0]);
            assert(text[0] != '\0');
            assert forall|i: int| 0 <= i < encode_utf8(rest).len() implies #[trigger] encode_utf8(
                rest,
            )[i] != 0 by {
                assert(all[head.len() + i] != 0);
            }
            assert forall|i: int| 0 <= i < text.len() implies #[trigger] text[i] != '\0' by {
                if i > 0 {
                    assert(rest[i - 1] != '\0');
                }
            }
        }
    }
}

/// Trimming the zero characters from the end of a text trims exactly the
/// zero bytes from the end of its encoding.
pub proof fn lemma_encode_trim(text: Seq<char>)
    ensures
        encode_utf8(trim_end_nuls(text)) == encode_utf8(text).take(
            trimmed_len(encode_utf8(text)) as int,
        ),
        encode_utf8(trim_end_nuls(text)).len() == trimmed_len(encode_utf8(text)),
    decreases text.len(),
{
    let all = encode_utf8(text);
    if text.len() == 0 {
        assert(all.take(0) =~= all);
    } else {
        let front = text.drop_last();
        let tail = encode_scalar(text.last() as u32);
        lemma_encode_concat(front, seq![text.last()]);
        assert(front + seq![text.last()] =~= text);
        lemma_encode_single(text.last());
        assert(all == encode_utf8(front) + tail);
        lemma_encode_scalar_nul(text.last());
        if text.last() == '\0' {
            lemma_encode_trim(front);
            assert(all.drop_last() =~= encode_utf8(front));
            assert(encode_utf8(front).take(trimmed_len(encode_utf8(front)) as int) =~= all.take(
                trimmed_len(all) as int,
            )) by {
                lemma_trimmed_len(encode_utf8(front));
            }
        } else {
            assert(all.last() == tail.last());
            assert(all.take(all.len() as int) =~= all);
        }
    }
}

/// A text never ends in a zero character once its trailing zeros are gone,
/// and what was cut from it were zero characters only.
pub proof fn lemma_trim_end_nuls(text: Seq<char>)
    ensures
        trim_end_nuls(text).len() <= text.len(),
        trim_end_nuls(text) == text.take(trim_end_nuls(text).len() as int),
        trim_end_nuls(text).len() > 0 ==> trim_end_nuls(text).last() != '\0',
        forall|i: int| trim_end_nuls(text).len() <= i < text.len() ==> #[trigger] text[i] == '\0',
        no_nul_char(text) ==> trim_end_nuls(text) == text,
    decreases text.len(),
{
    if text.len() > 0 && text.last() == '\0' {
        let front = text.drop_last();
        lemma_trim_end_nuls(front);
        let kept = trim_end_nuls(front).len() as int;
        assert(front.take(kept) =~= text.take(kept));
        assert forall|i: int| kept <= i < text.len() implies #[trigger] text[i] == '\0' by {
            if i < front.len() {
                assert(front[i] == '\0');
            }
        }
    } else {
        assert(text.take(text.len() as int) =~= text);
    }
}

/// A text ends in a zero character exactly when its encoding ends in a zero
/// byte: trimming shortens the one exactly when it shortens the other.
pub proof fn lemma_encode_trailing_nul(text: Seq<char>)
    ensures
        (trim_end_nuls(text).len() == text.len()) <==> (trimmed_len(encode_utf8(text))
            == encode_utf8(text).len()),
{
    let all = encode_utf8(text);
    if text.len() > 0 {
        let front = text.drop_last();
        lemma_encode_concat(front, seq![text.last()]);
        assert(front + seq![text.last()] =~= text);
        lemma_encode_single(text.last());
        lemma_encode_scalar_nul(text.last());
        let tail = encode_scalar(text.last() as u32);
        assert(all.last() == tail.last());
        if text.last() == '\0' {
            lemma_trim_end_nuls(front);
            lemma_trimmed_len(all.drop_last());
        }
    }
}

/// The encoding of a text is a zero-terminated region exactly when the text
/// ends in a zero character and holds no other; the content of that region
/// is then the encoding of the text before its final character.
pub proof fn lemma_encode_terminated(text: Seq<char>)
    ensures
        encode_utf8(text).len() == 0 <==> text.len() == 0,
        text.len() > 0 ==> (encode_utf8(text).last() == 0 <==> text.last() == '\0'),
        text.len() > 0 && text.last() == '\0' ==> encode_utf8(text).drop_last() == encode_utf8(
            text.drop_last(),
        ),
        crate::terminator::is_terminated(encode_utf8(text)) <==> text.len() > 0 && text.last()
            == '\0' && no_nul_char(text.drop_last()),
{
    let all = encode_utf8(text);
    if text.len() > 0 {
        let front = text.drop_last();
        lemma_encode_concat(front, seq![text.last()]);
        assert(front + seq![text.last()] =~= text);
        lemma_encode_single(text.last());
        lemma_encode_scalar_nul(text.last());
        lemma_encode_no_nul(front);
        let tail = encode_scalar(text.last() as u32);
        assert(all.last() == tail.last());
        if text.last() == '\0' {
            assert(all.drop_last() =~= encode_utf8(front));
        }
    }
}

} // verus!
