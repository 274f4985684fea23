//! 32-byte digests: SHA-256, and comparison of digests.

use sha2::Digest;
use vstd::prelude::*;

verus! {

/// The SHA-256 digest of `data`.
pub uninterp spec fn sha256_of(data: Seq<u8>) -> Seq<u8>;

/// The 32-byte array that holds the bytes `s`.
pub open spec fn array32(s: Seq<u8>) -> [u8; 32] {
    choose|d: [u8; 32]| d@ == s
}

/// Two 32-byte arrays with the same bytes are the same array.
pub proof fn lemma_array32(d: [u8; 32])
    ensures
        array32(d@) == d,
{
    let e = array32(d@);
    assert(e@ == d@);
    assert forall|i: int| 0 <= i < 32 implies e[i] == d[i] by {
        assert(e@[i] == d@[i]);
    }
    assert(e =~= d);
}

/// Calls `Sha256::digest` of the `sha2` crate. What is trusted: the 32 bytes
/// that come back depend on `data` alone; [`sha256_of`] is their name.
#[verifier::external_body]
fn sha256_bytes(data: &[u8]) -> (r: [u8; 32])
    ensures
        r@ == sha256_of(data@),
{
    sha2::Sha256::digest(data).into()
}

/// SHA-256 of a byte string.
pub fn sha256(data: &[u8]) -> (r: [u8; 32])
    ensures
        r@ == sha256_of(data@),
        r == array32(sha256_of(data@)),
{
    let r = sha256_bytes(data);
    proof {
        lemma_array32(r);
    }
    r
}

/// Whether two digests are equal.
pub fn same(a: &[u8; 32], b: &[u8; 32]) -> (r: bool)
    ensures
        r == (*a == *b),
{
    let mut i: usize = 0;
    while i < 32
        invariant
            i <= 32,
            forall|j: int| 0 <= j < i ==> a@[j] == b@[j],
        decreases 32 - i,
    {
        if a[i] != b[i] {
            assert(a@[i as int] != b@[i as int]);
            return false;
        }
        i += 1;
    }
    assert forall|j: int| 0 <= j < 32 implies (*a)[j] == (*b)[j] by {
        assert(a@[j] == b@[j]);
    }
    assert(*a =~= *b);
    true
}

} // verus!
