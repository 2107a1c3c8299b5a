//! The byte format in which a tree is stored.
//!
//! A stored tree is a header of 13 bytes (the four bytes `MKLT`, one byte for
//! the format's version, the number of leaves as 8 little-endian bytes)
//! followed by the 32 bytes of every node, level by level from the leaves up.

use vstd::prelude::*;
use vstd::bytes::{
    lemma_auto_spec_u64_to_from_le_bytes, spec_u64_from_le_bytes, spec_u64_to_le_bytes,
    u64_from_le_bytes, u64_to_le_bytes,
};
use vstd::slice::slice_subrange;
use crate::hash::Digest;
use crate::leaves::{is_pow2, is_power_of_two};
use crate::merkle::{consistent, digests, is_consistent, tree_shaped, MerkleTree};

verus! {

/// The version of the format that `store` writes and `load` accepts.
pub const FORMAT_VERSION: u8 = 1;

/// The length of the header.
pub const HEADER_LEN: usize = 13;

/// Why stored bytes are not a tree.
#[derive(Debug, Clone, Copy, PartialEq, Eq, Structural)]
pub enum StorageError {
    /// There are fewer bytes than a header has.
    Truncated,
    /// The first four bytes are not `MKLT`.
    BadMagic,
    /// The version byte is not `FORMAT_VERSION`.
    UnsupportedVersion,
    /// The number of leaves in the header is not a power of two.
    BadLeafCount,
    /// The bytes after the header are not the nodes of a tree with as many
    /// leaves as the header says.
    LengthMismatch,
    /// Some inner node is not the digest of its two children.
    Corrupt,
}

/// The four bytes that a stored tree starts with: `MKLT`.
pub open spec fn magic() -> Seq<u8> {
    seq![0x4du8, 0x4bu8, 0x4cu8, 0x54u8]
}

/// The digests of `nodes`, one after the other.
pub open spec fn flatten(nodes: Seq<Seq<u8>>) -> Seq<u8> {
    Seq::new(32 * nodes.len(), |i: int| nodes[i / 32][i % 32])
}

/// The stored form of a tree with the node list `nodes`.
pub open spec fn stored(nodes: Seq<Seq<u8>>) -> Seq<u8> {
    magic() + seq![FORMAT_VERSION] + spec_u64_to_le_bytes(((nodes.len() + 1) / 2) as u64)
        + flatten(nodes)
}

/// The number of leaves that the header of `bytes` gives.
pub open spec fn stored_leaf_count(bytes: Seq<u8>) -> nat {
    spec_u64_from_le_bytes(bytes.subrange(5, 13)) as nat
}

/// The node list that follows the header of `bytes`: 32 bytes to a node.
pub open spec fn stored_nodes(bytes: Seq<u8>) -> Seq<Seq<u8>> {
    Seq::new(
        (2 * stored_leaf_count(bytes) - 1) as nat,
        |j: int| bytes.subrange(13 + 32 * j, 45 + 32 * j),
    )
}

/// What `bytes` hold: the node list of a tree, or why they hold none. The
/// checks are made in the order of the error's variants.
pub open spec fn loaded(bytes: Seq<u8>) -> Result<Seq<Seq<u8>>, StorageError> {
    if bytes.len() < 13 {
        Err(StorageError::Truncated)
    } else if bytes.subrange(0, 4) != magic() {
        Err(StorageError::BadMagic)
    } else if bytes[4] != FORMAT_VERSION {
        Err(StorageError::UnsupportedVersion)
    } else if !is_pow2(stored_leaf_count(bytes)) {
        Err(StorageError::BadLeafCount)
    } else if bytes.len() - 13 != 32 * (2 * stored_leaf_count(bytes) - 1) {
        Err(StorageError::LengthMismatch)
    } else if !consistent(stored_nodes(bytes)) {
        Err(StorageError::Corrupt)
    } else {
        Ok(stored_nodes(bytes))
    }
}

/// The stored form of `tree`.
pub fn store(tree: &MerkleTree) -> (out: Vec<u8>)
    requires
        tree.wf(),
    ensures
        out@ == stored(tree@),
{
    let mut out: Vec<u8> = Vec::new();
    out.push(0x4du8);
    out.push(0x4bu8);
    out.push(0x4cu8);
    out.push(0x54u8);
    out.push(FORMAT_VERSION);
    let mut count = u64_to_le_bytes(tree.leaf_count() as u64);
    out.append(&mut count);
    let ghost header = out@;
    proof {
        tree.lemma_wf_view();
        assert(header =~= magic() + seq![FORMAT_VERSION] + spec_u64_to_le_bytes(
            ((tree@.len() + 1) / 2) as u64,
        ));
    }
    let total: usize = tree.node_count();
    let mut j: usize = 0;
    assert(out@ =~= header + flatten(tree@.subrange(0, 0)));
    while j < total
        invariant
            j <= total,
            total == tree@.len(),
            forall|i: int| 0 <= i < tree@.len() ==> (#[trigger] tree@[i]).len() == 32,
            out@ == header + flatten(tree@.subrange(0, j as int)),
        decreases total - j,
    {
        let digest: Digest = tree.node(j);
        let ghost done = out@;
        let mut k: usize = 0;
        assert(out@ =~= done + digest@.subrange(0, 0));
        while k < 32
            invariant
                k <= 32,
                out@ == done + digest@.subrange(0, k as int),
            decreases 32 - k,
        {
            out.push(digest[k]);
            k = k + 1;
            assert(out@ =~= done + digest@.subrange(0, k as int));
        }
        proof {
            assert(digest@.subrange(0, 32) =~= digest@);
            let earlier = tree@.subrange(0, j as int);
            let now = tree@.subrange(0, j + 1);
            assert(flatten(now) =~= flatten(earlier) + digest@) by {
                assert forall|i: int| 0 <= i < 32 * (j + 1) implies flatten(now)[i] == (flatten(
                    earlier,
                ) + digest@)[i] by {
                    if i < 32 * j {
                        assert(now[i / 32] == earlier[i / 32]);
                    } else {
                        assert(i / 32 == j && i % 32 == i - 32 * j);
                    }
                }
            }
            assert(out@ =~= header + flatten(now));
        }
        j = j + 1;
    }
    assert(tree@.subrange(0, total as int) =~= tree@);
    out
}

/// The 32 bytes of `bytes` that start at `offset`.
fn digest_at(bytes: &[u8], offset: usize) -> (out: Digest)
    requires
        offset + 32 <= bytes.len(),
    ensures
        out@ == bytes@.subrange(offset as int, offset + 32),
{
    let mut out: Digest = [0u8; 32];
    let mut k: usize = 0;
    while k < 32
        invariant
            k <= 32,
            offset + 32 <= bytes.len(),
            forall|i: int| 0 <= i < k ==> out@[i] == bytes@[offset + i],
        decreases 32 - k,
    {
        out[k] = bytes[offset + k];
        k = k + 1;
    }
    assert(out@ =~= bytes@.subrange(offset as int, offset + 32));
    out
}

/// Reads a stored tree back. Bytes that are cut short, that carry another
/// magic or version, whose length does not fit the number of leaves they
/// announce, or in which a node is not the digest of its children, are
/// refused with the error that says which.
pub fn load(bytes: &[u8]) -> (out: Result<MerkleTree, StorageError>)
    ensures
        match loaded(bytes@) {
            Ok(nodes) => out matches Ok(tree) && tree.wf() && tree@ == nodes,
            Err(e) => out matches Err(found) && found == e,
        },
{
    if bytes.len() < HEADER_LEN {
        return Err(StorageError::Truncated);
    }
    if bytes[0] != 0x4du8 || bytes[1] != 0x4bu8 || bytes[2] != 0x4cu8 || bytes[3] != 0x54u8 {
        assert(bytes@.subrange(0, 4)[0] == bytes@[0]);
        assert(bytes@.subrange(0, 4)[1] == bytes@[1]);
        assert(bytes@.subrange(0, 4)[2] == bytes@[2]);
        assert(bytes@.subrange(0, 4)[3] == bytes@[3]);
        return Err(StorageError::BadMagic);
    }
    assert(bytes@.subrange(0, 4) =~= magic());
    if bytes[4] != FORMAT_VERSION {
        return Err(StorageError::UnsupportedVersion);
    }
    let leaves: u64 = u64_from_le_bytes(slice_subrange(bytes, 5, 13));
    if !is_power_of_two(leaves) {
        return Err(StorageError::BadLeafCount);
    }
    let body: usize = bytes.len() - HEADER_LEN;
    if body % 32 != 0 {
        return Err(StorageError::LengthMismatch);
    }
    let total: usize = body / 32;
    if (total as u128) + 1 != 2 * (leaves as u128) {
        return Err(StorageError::LengthMismatch);
    }
    let ghost expected = stored_nodes(bytes@);
    let mut nodes: Vec<Digest> = Vec::new();
    let mut j: usize = 0;
    while j < total
        invariant
            j <= total,
            bytes.len() == 13 + 32 * total,
            expected.len() == total,
            forall|i: int|
                0 <= i < total ==> #[trigger] expected[i] == bytes@.subrange(
                    13 + 32 * i,
                    45 + 32 * i,
                ),
            digests(nodes@) == expected.subrange(0, j as int),
        decreases total - j,
    {
        let digest = digest_at(bytes, HEADER_LEN + 32 * j);
        let ghost before = digests(nodes@);
        nodes.push(digest);
        assert(digest@ == expected[j as int]);
        j = j + 1;
        assert(digests(nodes@) =~= before.push(digest@));
        assert(digests(nodes@) =~= expected.subrange(0, j as int));
    }
    assert(expected.subrange(0, total as int) =~= expected);
    assert(tree_shaped(total as nat));
    if !is_consistent(&nodes) {
        return Err(StorageError::Corrupt);
    }
    Ok(MerkleTree::from_nodes(nodes))
}

/// Loading what was stored gives the tree back: the same digest at every
/// position of every level, and so the same root.
pub proof fn lemma_load_store_round_trip(tree: MerkleTree)
    requires
        tree.wf(),
    ensures
        loaded(stored(tree@)) == Ok::<Seq<Seq<u8>>, StorageError>(tree@),
        loaded(stored(tree@))->Ok_0.last() == tree@.last(),
{
    let nodes = tree@;
    let bytes = stored(nodes);
    let count = ((nodes.len() + 1) / 2) as u64;
    tree.lemma_wf_view();
    lemma_auto_spec_u64_to_from_le_bytes();
    assert(spec_u64_to_le_bytes(count).len() == 8);
    assert(bytes.len() == 13 + 32 * nodes.len());
    assert(bytes.subrange(0, 4) =~= magic());
    assert(bytes[4] == FORMAT_VERSION);
    assert(bytes.subrange(5, 13) =~= spec_u64_to_le_bytes(count));
    assert(stored_leaf_count(bytes) == count);
    assert(count == (nodes.len() + 1) / 2);
    let back = stored_nodes(bytes);
    assert(back.len() == nodes.len());
    assert forall|j: int| 0 <= j < nodes.len() implies back[j] == nodes[j] by {
        assert(nodes[j].len() == 32);
        assert forall|k: int| 0 <= k < 32 implies back[j][k] == nodes[j][k] by {
            assert(bytes[13 + 32 * j + k] == flatten(nodes)[32 * j + k]);
            assert((32 * j + k) / 32 == j && (32 * j + k) % 32 == k);
        }
        assert(back[j] =~= nodes[j]);
    }
    assert(back =~= nodes);
}

} // verus!
