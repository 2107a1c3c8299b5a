//! The digest that every node of a tree carries.

use vstd::prelude::*;

verus! {

/// A 256-bit digest.
pub type Digest = [u8; 32];

/// The SHA3-256 digest of a byte string, as the `sha3` crate computes it.
/// Nothing is stated of its value but that it depends on the input alone.
pub uninterp spec fn sha3_256(data: Seq<u8>) -> Seq<u8>;

/// Calls `sha3::Sha3_256::digest` (the `Digest` trait's one-shot function) and
/// copies the 32 output bytes into an array. Trusted: the result is the
/// SHA3-256 digest of `data`, a function of the bytes alone.
#[verifier::external_body]
fn sha3_256_digest(data: &[u8]) -> (out: Digest)
    ensures
        out@ == sha3_256(data@),
{
    let hashed = <sha3::Sha3_256 as sha3::Digest>::digest(data);
    let mut out = [0u8; 32];
    out.copy_from_slice(hashed.as_slice());
    out
}

/// The bytes that are hashed for an inner node: the left child's digest
/// followed by the right child's.
pub fn join(left: &Digest, right: &Digest) -> (out: Vec<u8>)
    ensures
        out@ == left@ + right@,
{
    let mut out: Vec<u8> = Vec::with_capacity(64);
    let mut i: usize = 0;
    while i < 32
        invariant
            i <= 32,
            out@ == left@.subrange(0, i as int),
        decreases 32 - i,
    {
        out.push(left[i]);
        i = i + 1;
        assert(out@ =~= left@.subrange(0, i as int));
    }
    assert(left@.subrange(0, 32) =~= left@);
    let mut j: usize = 0;
    while j < 32
        invariant
            j <= 32,
            out@ == left@ + right@.subrange(0, j as int),
        decreases 32 - j,
    {
        out.push(right[j]);
        j = j + 1;
        assert(out@ =~= left@ + right@.subrange(0, j as int));
    }
    assert(right@.subrange(0, 32) =~= right@);
    out
}

/// The digest of a leaf's bytes.
pub fn hash_leaf(data: &[u8]) -> (out: Digest)
    ensures
        out@ == sha3_256(data@),
{
    sha3_256_digest(data)
}

/// The digest of an inner node, from the digests of its two children in
/// left-to-right order.
pub fn hash_pair(left: &Digest, right: &Digest) -> (out: Digest)
    ensures
        out@ == sha3_256(left@ + right@),
{
    let joined = join(left, right);
    sha3_256_digest(joined.as_slice())
}

} // verus!
