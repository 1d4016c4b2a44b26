//! Sources of bytes that are read one at a time and never rewound.

use vstd::prelude::*;

verus! {

/// A single-pass producer of bytes.
///
/// The model of a source is the finite sequence of bytes it has yet to
/// produce. Once that sequence is empty the source stays exhausted.
pub trait ByteSource {
    /// The bytes this source will still produce, in order.
    spec fn remaining(&self) -> Seq<u8>;

    /// Produces the next byte, or `None` once the source is exhausted.
    fn next_byte(&mut self) -> (b: Option<u8>)
        ensures
            old(self).remaining().len() == 0 ==> b is None && final(self).remaining() == old(
                self).remaining(),
            old(self).remaining().len() > 0 ==> b == Some(old(self).remaining()[0]) && final(
                self).remaining() == old(self).remaining().drop_first(),
    ;
}

/// A byte source that walks a slice from its first byte to its last.
pub struct SliceBytes<'a> {
    rest: &'a [u8],
}

impl<'a> SliceBytes<'a> {
    /// Starts a pass over `bytes`.
    pub fn new(bytes: &'a [u8]) -> (r: Self)
        ensures
            r.remaining() == bytes@,
    {
        SliceBytes { rest: bytes }
    }
}

impl<'a> ByteSource for SliceBytes<'a> {
    closed spec fn remaining(&self) -> Seq<u8> {
        self.rest@
    }

    fn next_byte(&mut self) -> (b: Option<u8>) {
        if self.rest.len() == 0 {
            None
        } else {
            let x = self.rest[0];
            self.rest = vstd::slice::slice_subrange(self.rest, 1, self.rest.len());
            assert(self.rest@ =~= old(self).rest@.drop_first());
            Some(x)
        }
    }
}

/// Decides whether two sources have the same bytes left, by reading both to
/// the end or to the first difference.
pub fn same_bytes<A: ByteSource, B: ByteSource>(a: A, b: B) -> (r: bool)
    ensures
        r == (a.remaining() == b.remaining()),
{
    let mut left = a;
    let mut right = b;
    loop
        invariant
            (a.remaining() == b.remaining()) <==> (left.remaining() == right.remaining()),
        decreases left.remaining().len(),
    {
        let ghost ours = left.remaining();
        let ghost theirs = right.remaining();
        match (left.next_byte(), right.next_byte()) {
            (Some(x), Some(y)) => {
                if x != y {
                    return false;
                }
                proof {
                    if ours.drop_first() == theirs.drop_first() {
                        assert(ours =~= seq![x] + ours.drop_first());
                        assert(theirs =~= seq![y] + theirs.drop_first());
                    }
                }
            },
            (None, None) => {
                assert(ours =~= theirs);
                return true;
            },
            _ => {
                return false;
            },
        }
    }
}

} // verus!
