//! A commitment from collected records to the bytes that are stored and the
//! root that is anchored.

use vstd::prelude::*;
use crate::hash::Digest;
use crate::leaves::{
    collect_leaves, collected, lemma_next_pow2_is_least, next_pow2, padded, smallest_pow2_at_least,
    RowCells,
};
use crate::merkle::{merkle_root, tree_nodes, MerkleTree, TreeError};
use crate::storage::{store, stored};

verus! {

/// `base64::DecodeError`, carried as an opaque value.
#[verifier::external_type_specification]
#[verifier::external_body]
pub struct ExDecodeError(base64::DecodeError);

/// What base64 text decodes to in the standard alphabet with padding, as the
/// `base64` crate's `STANDARD` engine decodes it; `None` where it refuses the
/// text.
pub uninterp spec fn base64_decoded(text: Seq<char>) -> Option<Seq<u8>>;

/// Calls `base64::Engine::decode` on `base64::engine::general_purpose::STANDARD`.
/// Trusted: whether the text is accepted, and the bytes it then gives, depend
/// on the text alone.
#[verifier::external_body]
fn base64_decode(text: &str) -> (out: Result<Vec<u8>, base64::DecodeError>)
    ensures
        out matches Ok(bytes) ==> base64_decoded(text@) == Some(bytes@),
        out is Err ==> base64_decoded(text@) is None,
{
    base64::Engine::decode(&base64::engine::general_purpose::STANDARD, text)
}

/// Why no commitment was made.
#[derive(Debug, Clone, Copy, PartialEq, Eq)]
pub enum CommitError {
    /// A record could not be turned into leaf bytes.
    Serialization,
    /// The leaves cannot be padded to a power of two on this machine, or a
    /// tree was asked for over a number of leaves that is none.
    TreeInvariant(TreeError),
}

/// What a commitment consists of before it is anchored: the tree, the bytes
/// to store, and the root to anchor.
#[derive(Debug, Clone)]
pub struct Commitment {
    pub tree: MerkleTree,
    pub stored: Vec<u8>,
    pub root: Digest,
}

/// The block in which `value` was anchored. No chain is consulted: the answer
/// is block 0 for every value.
pub fn retrieve_from_chain(value: Vec<u8>) -> (block: u64)
    ensures
        block == 0,
{
    0
}

/// The serialized roster that an encoded roster holds, or
/// `CommitError::Serialization` where the text is no base64.
pub fn decode_roster(encoded: &str) -> (out: Result<Vec<u8>, CommitError>)
    ensures
        match base64_decoded(encoded@) {
            Some(bytes) => out matches Ok(found) && found@ == bytes,
            None => out == Err::<Vec<u8>, CommitError>(CommitError::Serialization),
        },
{
    match base64_decode(encoded) {
        Ok(bytes) => Ok(bytes),
        Err(_) => Err(CommitError::Serialization),
    }
}

/// Makes the commitment over the roster's records, the audited ballots and
/// the planes' rows, in that order: collects the leaves, pads them, builds
/// the tree and frames it for storage. Fails only where the padded number of
/// leaves would not fit the machine's word.
pub fn commit(roster: &Vec<Vec<u8>>, audited: &Vec<Vec<u8>>, planes: &Vec<Vec<RowCells>>) -> (out:
    Result<Commitment, CommitError>)
    ensures
        out.is_ok() == (next_pow2(collected(roster@, audited@, planes@).len()) <= usize::MAX),
        out matches Ok(made) ==> {
            &&& made.tree.wf()
            &&& made.tree@ == tree_nodes(padded(collected(roster@, audited@, planes@)))
            &&& made.stored@ == stored(made.tree@)
            &&& made.root@ == merkle_root(padded(collected(roster@, audited@, planes@)))
        },
        out matches Err(e) ==> e == CommitError::TreeInvariant(TreeError::LeafCountNotPowerOfTwo),
{
    let mut leaves = collect_leaves(roster, audited, planes);
    let fits = match smallest_pow2_at_least(leaves.len() as u64) {
        Some(target) => target <= usize::MAX as u64,
        None => false,
    };
    if !fits {
        return Err(CommitError::TreeInvariant(TreeError::LeafCountNotPowerOfTwo));
    }
    proof {
        lemma_next_pow2_is_least(leaves@.len());
    }
    leaves.pad();
    match MerkleTree::build(leaves) {
        Ok(tree) => {
            let stored = store(&tree);
            let root = tree.root();
            Ok(Commitment { tree, stored, root })
        },
        Err(e) => Err(CommitError::TreeInvariant(e)),
    }
}

} // verus!
