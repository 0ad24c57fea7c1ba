//! BLAKE3 content digests.
use vstd::prelude::*;

verus! {

/// The BLAKE3 digest of a byte string.
pub uninterp spec fn blake3_digest(input: Seq<u8>) -> Seq<u8>;

/// Calls `blake3::hash`. The claim is only that the 32 bytes it returns are determined by the bytes
/// that are hashed, and that this is the function called `blake3_digest` in contracts.
#[verifier::external_body]
pub(crate) fn hash(data: &[u8]) -> (digest: [u8; 32])
    ensures
        digest@ == blake3_digest(data@),
{
    *blake3::hash(data).as_bytes()
}

/// Two digests are equal.
pub fn same(left: &[u8; 32], right: &[u8; 32]) -> (equal: bool)
    ensures
        equal == (left@ == right@),
{
    let mut index: usize = 0;
    while index < 32
        invariant
            index <= 32,
            forall|at: int| 0 <= at < index ==> left@[at] == right@[at],
        decreases 32 - index,
    {
        if left[index] != right[index] {
            return false;
        }
        index += 1;
    }
    assert(left@ =~= right@);
    true
}

} // verus!
