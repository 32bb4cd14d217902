//! SHA-1 digests of pieces and of the metainfo dictionary.
use vstd::prelude::*;

verus! {

/// The 20-byte SHA-1 digest of a byte sequence. The hash itself is computed
/// by the `sha1` crate; this name only fixes that equal inputs give equal
/// digests, so that callers can be verified against it.
pub uninterp spec fn sha1_of(data: Seq<u8>) -> Seq<u8>;

/// Relies on `sha1::Sha1` through `digest::Digest::digest`: the 20-byte
/// SHA-1 digest of `data`, a function of `data` alone.
#[verifier::external_body]
pub fn sha1_digest(data: &[u8]) -> (r: [u8; 20])
    ensures
        r@ == sha1_of(data@),
{
    let out = <sha1::Sha1 as sha1::Digest>::digest(data);
    out.into()
}

/// Compares two 20-byte digests for equality.
pub fn digests_equal(a: &[u8; 20], b: &[u8; 20]) -> (r: bool)
    ensures
        r == (a@ == b@),
{
    let mut i: usize = 0;
    while i < 20
        invariant
            i <= 20,
            forall|j: int| 0 <= j < i ==> a@[j] == b@[j],
        decreases 20 - i,
    {
        if a[i] != b[i] {
            return false;
        }
        i = i + 1;
    }
    proof {
        assert(a@ =~= b@);
    }
    true
}

/// True exactly when `data` hashes to the expected 20-byte digest.
pub fn bytes_match_digest(data: &[u8], expected: &[u8; 20]) -> (r: bool)
    ensures
        r == (sha1_of(data@) == expected@),
{
    let h = sha1_digest(data);
    digests_equal(&h, expected)
}

} // verus!
