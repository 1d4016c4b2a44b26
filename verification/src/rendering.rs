//! Buffers written out as text for people to read.
//!
//! A byte buffer is shown as a list: its bytes in decimal, separated by a
//! comma and a space, between square brackets. A text buffer is shown as its
//! text.

use vstd::prelude::*;
use crate::byte_source::ByteSource;

verus! {

/// The character for the digit `d`.
pub open spec fn digit(d: nat) -> char
    recommends
        d < 10,
{
    (0x30 + d) as char
}

/// The decimal digits of `n`, without leading zeros.
pub open spec fn decimal(n: nat) -> Seq<char>
    decreases n,
{
    if n < 10 {
        seq![digit(n)]
    } else {
        decimal(n / 10).push(digit(n % 10))
    }
}

/// The items of a list, each after the first behind a comma and a space.
pub open spec fn joined(items: Seq<Seq<char>>) -> Seq<char>
    decreases items.len(),
{
    if items.len() == 0 {
        seq![]
    } else if items.len() == 1 {
        items[0]
    } else {
        joined(items.drop_last()) + seq![',', ' '] + items.last()
    }
}

/// The items of a list between square brackets.
pub open spec fn bracketed(items: Seq<Seq<char>>) -> Seq<char> {
    seq!['['] + joined(items) + seq![']']
}

/// The texts of a sequence of strings.
pub open spec fn texts(items: Seq<String>) -> Seq<Seq<char>> {
    items.map_values(|s: String| s@)
}

/// Each byte of a sequence in decimal.
pub open spec fn decimals(bytes: Seq<u8>) -> Seq<Seq<char>> {
    bytes.map_values(|b: u8| decimal(b as nat))
}

/// A sequence of bytes as a list of decimal numbers.
pub open spec fn byte_list(bytes: Seq<u8>) -> Seq<char> {
    bracketed(decimals(bytes))
}

/// Adding an item to a list adds a separator, unless the list was empty, and
/// then the item.
pub proof fn lemma_joined_push(items: Seq<Seq<char>>, item: Seq<char>)
    ensures
        joined(items.push(item)) == if items.len() == 0 {
            item
        } else {
            joined(items) + seq![',', ' '] + item
        },
{
    assert(items.push(item).drop_last() =~= items);
}

/// Writes `b` in decimal.
pub fn decimal_string(b: u8) -> (s: String)
    ensures
        s@ == decimal(b as nat),
{
    let mut s = String::new();
    proof {
        reveal_with_fuel(decimal, 3);
    }
    if b >= 100 {
        s.push(digit_char(b / 100));
    }
    if b >= 10 {
        s.push(digit_char((b / 10) % 10));
    }
    s.push(digit_char(b % 10));
    proof {
        let n = b as nat;
        if n >= 100 {
            assert((n / 10) / 10 == n / 100);
            assert(s@ =~= decimal(n));
        } else if n >= 10 {
            assert(s@ =~= decimal(n));
        } else {
            assert(s@ =~= decimal(n));
        }
    }
    s
}

/// The character for the digit `d`.
fn digit_char(d: u8) -> (c: char)
    requires
        d < 10,
    ensures
        c == digit(d as nat),
{
    (0x30 + d) as char
}

/// Writes `items` as a list between square brackets.
pub fn bracket(items: &[String]) -> (s: String)
    ensures
        s@ == bracketed(texts(items@)),
{
    let mut s = String::new();
    s.push('[');
    let mut i: usize = 0;
    while i < items.len()
        invariant
            i <= items@.len(),
            s@ == seq!['['] + joined(texts(items@.take(i as int))),
        decreases items@.len() - i,
    {
        if i != 0 {
            s.push(',');
            s.push(' ');
        }
        s.append(items[i].as_str());
        proof {
            let before = texts(items@.take(i as int));
            let item = items@[i as int]@;
            lemma_joined_push(before, item);
            assert(texts(items@.take(i + 1)) =~= before.push(item));
            if i == 0 {
                assert(joined(before) =~= Seq::<char>::empty());
                assert(s@ =~= seq!['['] + item);
            } else {
                assert(s@ =~= seq!['['] + (joined(before) + seq![',', ' '] + item));
            }
        }
        i += 1;
    }
    assert(items@.take(i as int) =~= items@);
    s.push(']');
    assert(s@ =~= bracketed(texts(items@)));
    s
}

/// Writes the bytes that `source` has yet to produce as a list of decimal
/// numbers between square brackets.
pub fn byte_list_string<S: ByteSource>(source: S) -> (s: String)
    ensures
        s@ == byte_list(source.remaining()),
{
    let mut rest = source;
    let ghost all = source.remaining();
    let mut items: Vec<String> = Vec::new();
    assert(texts(items@) =~= decimals(all.take(0)));
    loop
        invariant
            all == source.remaining(),
            items@.len() + rest.remaining().len() == all.len(),
            all.skip(items@.len() as int) == rest.remaining(),
            texts(items@) == decimals(all.take(items@.len() as int)),
        decreases rest.remaining().len(),
    {
        let ghost done = items@;
        match rest.next_byte() {
            Some(b) => {
                items.push(decimal_string(b));
                proof {
                    let n = done.len() as int;
                    assert(all.skip(n)[0] == all[n]);
                    assert(all.skip(n + 1) =~= all.skip(n).drop_first());
                    assert forall|i: int| 0 <= i < n + 1 implies texts(items@)[i] == decimals(
                        all.take(n + 1),
                    )[i] by {
                        if i < n {
                            assert(texts(done)[i] == decimals(all.take(n))[i]);
                        }
                    }
                    assert(texts(items@) =~= decimals(all.take(n + 1)));
                }
            },
            None => {
                assert(all.take(items@.len() as int) =~= all);
                return bracket(items.as_slice());
            },
        }
    }
}

} // verus!
