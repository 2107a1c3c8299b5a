//! Inclusion proofs: the siblings on the way from a leaf to the root.

use vstd::prelude::*;
use crate::hash::{hash_pair, sha3_256, Digest};
use crate::leaves::is_pow2;
use crate::merkle::{
    digests, height_of, leaf_level, lemma_nodes_above_len, merkle_root, nodes_above, parent_level,
    tree_nodes, MerkleTree,
};

verus! {

/// The position of the node that shares a parent with the node at `index` of
/// a level.
pub open spec fn sibling(index: int) -> int {
    if index % 2 == 0 {
        index + 1
    } else {
        index - 1
    }
}

/// The siblings on the way up from the node at `index` of the level that
/// starts at `start` of `nodes` and is `width` wide, the lowest first.
pub open spec fn sibling_path(nodes: Seq<Seq<u8>>, start: int, width: int, index: int) -> Seq<
    Seq<u8>,
>
    decreases width,
{
    if width <= 1 {
        Seq::empty()
    } else {
        seq![nodes[start + sibling(index)]] + sibling_path(
            nodes,
            start + width,
            width / 2,
            index / 2,
        )
    }
}

/// The digest reached from `digest` at `index` of a level by hashing it with
/// each sibling of `path` in turn, on the side that the index gives.
pub open spec fn climb(digest: Seq<u8>, index: int, path: Seq<Seq<u8>>) -> Seq<u8>
    decreases path.len(),
{
    if path.len() == 0 {
        digest
    } else if index % 2 == 0 {
        climb(sha3_256(digest + path[0]), index / 2, path.drop_first())
    } else {
        climb(sha3_256(path[0] + digest), index / 2, path.drop_first())
    }
}

/// A sibling path holds one digest for each level below the root.
pub proof fn lemma_sibling_path_len(nodes: Seq<Seq<u8>>, start: int, width: int, index: int)
    requires
        0 <= width,
    ensures
        sibling_path(nodes, start, width, index).len() == height_of(width as nat),
    decreases width,
{
    if width > 1 {
        lemma_sibling_path_len(nodes, start + width, width / 2, index / 2);
    }
}

/// The inclusion proof of the leaf at `leaf_index`: its sibling, then its
/// parent's sibling, and so on up to the two children of the root.
pub fn inclusion_path(tree: &MerkleTree, leaf_index: usize) -> (out: Vec<Digest>)
    requires
        tree.wf(),
        leaf_index < (tree@.len() + 1) / 2,
    ensures
        digests(out@) == sibling_path(
            tree@,
            0,
            (tree@.len() + 1) as int / 2,
            leaf_index as int,
        ),
        out@.len() == height_of(((tree@.len() + 1) / 2) as nat),
{
    let mut out: Vec<Digest> = Vec::new();
    let leaves: usize = tree.leaf_count();
    let mut start: usize = 0;
    let mut width: usize = leaves;
    let mut index: usize = leaf_index;
    proof {
        tree.lemma_wf_view();
        assert(digests(out@) + sibling_path(tree@, 0, leaves as int, leaf_index as int)
            =~= sibling_path(tree@, 0, leaves as int, leaf_index as int));
    }
    while width > 1
        invariant
            is_pow2(width as nat),
            index < width,
            start + 2 * width - 1 == tree@.len(),
            tree@.len() <= usize::MAX,
            digests(out@) + sibling_path(tree@, start as int, width as int, index as int)
                == sibling_path(tree@, 0, leaves as int, leaf_index as int),
        decreases width,
    {
        let beside: usize = if index % 2 == 0 {
            index + 1
        } else {
            index - 1
        };
        let digest = tree.node(start + beside);
        let ghost before = digests(out@);
        out.push(digest);
        proof {
            assert(digests(out@) =~= before.push(digest@));
            assert(digests(out@) + sibling_path(
                tree@,
                start + width,
                width as int / 2,
                index as int / 2,
            ) =~= before + sibling_path(tree@, start as int, width as int, index as int));
        }
        start = start + width;
        width = width / 2;
        index = index / 2;
    }
    proof {
        assert(digests(out@) + Seq::<Seq<u8>>::empty() =~= digests(out@));
        lemma_sibling_path_len(tree@, 0, leaves as int, leaf_index as int);
    }
    out
}

/// The root that an inclusion proof leads to from a leaf's digest.
pub fn root_from_path(leaf: &Digest, leaf_index: usize, path: &Vec<Digest>) -> (out: Digest)
    ensures
        out@ == climb(leaf@, leaf_index as int, digests(path@)),
{
    let mut current: Digest = *leaf;
    let mut index: usize = leaf_index;
    let mut k: usize = 0;
    assert(digests(path@).subrange(0, path.len() as int) =~= digests(path@));
    while k < path.len()
        invariant
            k <= path.len(),
            climb(current@, index as int, digests(path@).subrange(k as int, path.len() as int))
                == climb(leaf@, leaf_index as int, digests(path@)),
        decreases path.len() - k,
    {
        let ghost rest = digests(path@).subrange(k as int, path.len() as int);
        let beside: Digest = path[k];
        assert(rest[0] == beside@);
        assert(rest.drop_first() =~= digests(path@).subrange(k + 1, path.len() as int));
        if index % 2 == 0 {
            current = hash_pair(&current, &beside);
        } else {
            current = hash_pair(&beside, &current);
        }
        index = index / 2;
        k = k + 1;
    }
    current
}

/// Within a node list that ends with the levels from `level` up, the sibling
/// path of any node of `level` leads from that node to the last node.
pub proof fn lemma_path_reaches_top(
    nodes: Seq<Seq<u8>>,
    before: Seq<Seq<u8>>,
    level: Seq<Seq<u8>>,
    index: int,
)
    requires
        nodes == before + nodes_above(level),
        is_pow2(level.len()),
        0 <= index < level.len(),
    ensures
        climb(level[index], index, sibling_path(nodes, before.len() as int, level.len() as int, index))
            == nodes.last(),
    decreases level.len(),
{
    lemma_nodes_above_len(level);
    let start = before.len() as int;
    let width = level.len() as int;
    if width > 1 {
        let up = parent_level(level);
        let path = sibling_path(nodes, start, width, index);
        let rest = sibling_path(nodes, start + width, width / 2, index / 2);
        assert(nodes[start + sibling(index)] == level[sibling(index)]);
        assert(path[0] == level[sibling(index)]);
        assert(path.drop_first() =~= rest);
        assert(up[index / 2] == sha3_256(level[2 * (index / 2)] + level[2 * (index / 2) + 1]));
        assert(nodes =~= (before + level) + nodes_above(up));
        lemma_path_reaches_top(nodes, before + level, up, index / 2);
    }
}

/// The inclusion proof of any leaf of a tree leads from the leaf's digest to
/// the tree's root.
pub proof fn lemma_inclusion_path_verifies(leaves: Seq<Seq<u8>>, index: int)
    requires
        is_pow2(leaves.len()),
        0 <= index < leaves.len(),
    ensures
        climb(
            sha3_256(leaves[index]),
            index,
            sibling_path(tree_nodes(leaves), 0, leaves.len() as int, index),
        ) == merkle_root(leaves),
{
    let bottom = leaf_level(leaves);
    assert(tree_nodes(leaves) =~= Seq::<Seq<u8>>::empty() + nodes_above(bottom));
    lemma_path_reaches_top(tree_nodes(leaves), Seq::empty(), bottom, index);
}

/// In a well-formed tree the inclusion proof of any leaf leads from that
/// leaf's node to the root, whether the tree was built or loaded.
pub proof fn lemma_tree_paths_verify(tree: MerkleTree, index: int)
    requires
        tree.wf(),
        0 <= index < (tree@.len() + 1) / 2,
    ensures
        climb(tree@[index], index, sibling_path(tree@, 0, (tree@.len() + 1) as int / 2, index))
            == tree@.last(),
{
    tree.lemma_wf_view();
    let bottom = tree@.subrange(0, (tree@.len() + 1) as int / 2);
    assert(tree@ =~= Seq::<Seq<u8>>::empty() + nodes_above(bottom));
    lemma_path_reaches_top(tree@, Seq::empty(), bottom, index);
}

} // verus!
