//! What it means for a region of bytes to be zero-terminated, and the check
//! that decides it.

use vstd::prelude::*;
use crate::ZBytesCreationError;

verus! {

/// No byte of `s` is zero.
pub open spec fn no_nul(s: Seq<u8>) -> bool {
    forall|i: int| 0 <= i < s.len() ==> #[trigger] s[i] != 0
}

/// `region` ends in a zero byte and holds no other zero byte.
pub open spec fn is_terminated(region: Seq<u8>) -> bool {
    &&& region.len() > 0
    &&& region.last() == 0
    &&& no_nul(region.drop_last())
}

/// The verdict on `region` as a zero-terminated buffer.
///
/// A region that is empty or does not end in zero lacks its terminator,
/// whatever else it holds. A region that ends in zero and holds a zero before
/// its final position has an interior null. Every other region is accepted.
pub open spec fn validation(region: Seq<u8>) -> Result<(), ZBytesCreationError> {
    if region.len() == 0 || region.last() != 0 {
        Err(ZBytesCreationError::NullTerminatorMissing)
    } else if !no_nul(region.drop_last()) {
        Err(ZBytesCreationError::InteriorNull)
    } else {
        Ok(())
    }
}

/// What validation accepts and what it refuses.
///
/// It accepts exactly the zero-terminated regions. It refuses every region
/// whose final byte is not zero, the empty region among them, for its
/// missing terminator. It refuses every region that ends in zero and holds a
/// zero byte strictly before its final position for an interior null.
pub proof fn lemma_validation(region: Seq<u8>)
    ensures
        validation(region) is Ok <==> is_terminated(region),
        region.len() == 0 || region.last() != 0 ==> validation(region) == Err::<(), _>(
            ZBytesCreationError::NullTerminatorMissing,
        ),
        region.len() > 0 && region.last() == 0 && (exists|i: int|
            0 <= i < region.len() - 1 && region[i] == 0) ==> validation(region) == Err::<(), _>(
            ZBytesCreationError::InteriorNull,
        ),
{
    if exists|i: int| 0 <= i < region.len() - 1 && region[i] == 0 {
        let i = choose|i: int| 0 <= i < region.len() - 1 && region[i] == 0;
        assert(region.drop_last()[i] == 0);
    }
}

/// The position of the first zero byte of `s`, or the length of `s` if it
/// holds none.
pub open spec fn nul_position(s: Seq<u8>) -> nat
    decreases s.len(),
{
    if s.len() == 0 || s[0] == 0 {
        0
    } else {
        1 + nul_position(s.drop_first())
    }
}

/// The first zero byte of `s` stands where no byte before it is zero, and
/// nowhere else.
pub proof fn lemma_nul_position(s: Seq<u8>, k: int)
    requires
        0 <= k <= s.len(),
        no_nul(s.take(k)),
        k < s.len() ==> s[k] == 0,
    ensures
        nul_position(s) == k,
    decreases s.len(),
{
    if s.len() == 0 || s[0] == 0 {
        if k > 0 {
            assert(s.take(k)[0] == 0);
        }
    } else {
        let rest = s.drop_first();
        assert forall|i: int| 0 <= i < k - 1 implies #[trigger] rest.take(k - 1)[i] != 0 by {
            assert(s.take(k)[i + 1] != 0);
        }
        lemma_nul_position(rest, k - 1);
    }
}

/// No byte before the first zero byte is zero, and the byte there is.
pub proof fn lemma_nul_position_bounds(s: Seq<u8>)
    ensures
        nul_position(s) <= s.len(),
        no_nul(s.take(nul_position(s) as int)),
        nul_position(s) < s.len() ==> s[nul_position(s) as int] == 0,
    decreases s.len(),
{
    if s.len() == 0 || s[0] == 0 {
    } else {
        let rest = s.drop_first();
        lemma_nul_position_bounds(rest);
        let k = nul_position(s) as int;
        assert forall|i: int| 0 <= i < k implies #[trigger] s.take(k)[i] != 0 by {
            if i > 0 {
                assert(rest.take(k - 1)[i - 1] != 0);
            }
        }
        if k < s.len() {
            assert(s[k] == rest[k - 1]);
        }
    }
}

/// Finds the first zero byte of `bytes`, or the end of `bytes` if it holds none.
pub fn nul_position_of(bytes: &[u8]) -> (k: usize)
    ensures
        k == nul_position(bytes@),
{
    let mut k: usize = 0;
    while k < bytes.len() && bytes[k] != 0
        invariant
            k <= bytes@.len(),
            no_nul(bytes@.take(k as int)),
        decreases bytes@.len() - k,
    {
        assert forall|j: int| 0 <= j < k + 1 implies #[trigger] bytes@.take(k + 1)[j] != 0 by {
            if j < k {
                assert(bytes@.take(k as int)[j] != 0);
            }
        }
        k += 1;
    }
    proof {
        lemma_nul_position(bytes@, k as int);
    }
    k
}

/// Decides whether `bytes` holds a zero byte.
pub fn contains_nul(bytes: &[u8]) -> (found: bool)
    ensures
        found == !no_nul(bytes@),
{
    let mut i: usize = 0;
    while i < bytes.len()
        invariant
            i <= bytes@.len(),
            no_nul(bytes@.take(i as int)),
        decreases bytes@.len() - i,
    {
        if bytes[i] == 0 {
            return true;
        }
        assert forall|j: int| 0 <= j < i + 1 implies #[trigger] bytes@.take(i + 1)[j] != 0 by {
            if j < i {
                assert(bytes@.take(i as int)[j] != 0);
            }
        }
        i += 1;
    }
    assert(bytes@.take(i as int) =~= bytes@);
    false
}

/// Decides whether `region` is a zero-terminated buffer.
///
/// Looks at the final byte first, then at every byte before it.
pub fn validate(region: &[u8]) -> (r: Result<(), ZBytesCreationError>)
    ensures
        r == validation(region@),
{
    let len = region.len();
    if len == 0 || region[len - 1] != 0 {
        return Err(ZBytesCreationError::NullTerminatorMissing);
    }
    let front = vstd::slice::slice_subrange(region, 0, len - 1);
    assert(front@ =~= region@.drop_last());
    if contains_nul(front) {
        Err(ZBytesCreationError::InteriorNull)
    } else {
        Ok(())
    }
}

} // verus!
