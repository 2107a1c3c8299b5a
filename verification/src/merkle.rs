//! The binary hash tree over a padded leaf set.
//!
//! A tree is held as the list of its nodes' digests, level by level from the
//! leaves up: for `n` leaves the first `n` digests are those of the leaves,
//! the next `n / 2` those of their parents, and the last one is the root.

use vstd::prelude::*;
use crate::hash::{Digest, sha3_256, hash_leaf, hash_pair};
use crate::leaves::{is_pow2, LeafSet};

verus! {

/// The bottom level of a tree: the digest of each leaf.
pub open spec fn leaf_level(leaves: Seq<Seq<u8>>) -> Seq<Seq<u8>> {
    Seq::new(leaves.len(), |i: int| sha3_256(leaves[i]))
}

/// The level above `level`: each adjacent pair, left digest then right,
/// hashed into one digest.
pub open spec fn parent_level(level: Seq<Seq<u8>>) -> Seq<Seq<u8>> {
    Seq::new(level.len() / 2, |i: int| sha3_256(level[2 * i] + level[2 * i + 1]))
}

/// `level` followed by every level above it, up to the single root.
pub open spec fn nodes_above(level: Seq<Seq<u8>>) -> Seq<Seq<u8>>
    decreases level.len(),
{
    if level.len() <= 1 {
        level
    } else {
        level + nodes_above(parent_level(level))
    }
}

/// All digests of the tree over `leaves`, level by level from the leaves up.
pub open spec fn tree_nodes(leaves: Seq<Seq<u8>>) -> Seq<Seq<u8>> {
    nodes_above(leaf_level(leaves))
}

/// The root of the tree over `leaves`.
pub open spec fn merkle_root(leaves: Seq<Seq<u8>>) -> Seq<u8> {
    tree_nodes(leaves).last()
}

/// The byte strings of a sequence of digests.
pub open spec fn digests(nodes: Seq<Digest>) -> Seq<Seq<u8>> {
    Seq::new(nodes.len(), |i: int| nodes[i]@)
}

/// The height of a tree with `leaves` leaves: the number of levels above
/// the leaves, which is the base-two logarithm of a power of two.
pub open spec fn height_of(leaves: nat) -> nat
    decreases leaves,
{
    if leaves <= 1 {
        0
    } else {
        1 + height_of(leaves / 2)
    }
}

/// Whether a node list has the shape of a tree: `2 * n - 1` nodes for a power
/// of two `n`.
pub open spec fn tree_shaped(count: nat) -> bool {
    count % 2 == 1 && is_pow2((count + 1) / 2)
}

/// Over a level whose length is a power of two `n`, the levels from it up hold
/// `2 * n - 1` digests.
pub proof fn lemma_nodes_above_len(level: Seq<Seq<u8>>)
    requires
        is_pow2(level.len()),
    ensures
        nodes_above(level).len() == 2 * level.len() - 1,
        tree_shaped(nodes_above(level).len()),
    decreases level.len(),
{
    if level.len() > 1 {
        lemma_nodes_above_len(parent_level(level));
    }
}

/// Whether every inner node of a node list is the digest of its two
/// children: the list is its own bottom level followed by the levels that
/// hashing gives above it.
pub open spec fn consistent(nodes: Seq<Seq<u8>>) -> bool {
    nodes == nodes_above(nodes.subrange(0, (nodes.len() + 1) as int / 2))
}

/// The levels from `level` up start with `level` itself.
pub proof fn lemma_nodes_above_starts_with_level(level: Seq<Seq<u8>>)
    ensures
        nodes_above(level).len() >= level.len(),
        nodes_above(level).subrange(0, level.len() as int) == level,
{
    assert(nodes_above(level).subrange(0, level.len() as int) =~= level);
}

/// Why a tree could not be built.
#[derive(Debug, Clone, Copy, PartialEq, Eq, Structural)]
pub enum TreeError {
    /// The number of leaves is not a power of two.
    LeafCountNotPowerOfTwo,
}

/// A fully materialised tree. It is never changed once built.
#[derive(Debug, Clone)]
pub struct MerkleTree {
    nodes: Vec<Digest>,
}

impl View for MerkleTree {
    type V = Seq<Seq<u8>>;

    closed spec fn view(&self) -> Seq<Seq<u8>> {
        digests(self.nodes@)
    }
}

impl MerkleTree {
    /// The tree's invariant: its node list has the shape of a tree, and every
    /// inner node is the digest of its two children.
    pub closed spec fn wf(&self) -> bool {
        tree_shaped(self.nodes@.len()) && consistent(digests(self.nodes@))
    }

    /// What `wf` means for the view.
    pub proof fn lemma_wf_view(&self)
        ensures
            self.wf() == (tree_shaped(self@.len()) && consistent(self@)),
            self@.len() <= usize::MAX,
            forall|i: int| 0 <= i < self@.len() ==> (#[trigger] self@[i]).len() == 32,
    {
        assert(self.nodes@.len() == self.nodes.len());
    }

    /// Builds the tree over `leaves`: hashes each leaf, then pairs adjacent
    /// nodes left to right, level by level, until one node is left. Fails
    /// exactly where the number of leaves is not a power of two.
    pub fn build(leaves: LeafSet) -> (out: Result<MerkleTree, TreeError>)
        ensures
            out.is_ok() == is_pow2(leaves@.len()),
            out matches Ok(tree) ==> tree.wf() && tree@ == tree_nodes(leaves@),
            out matches Err(e) ==> e == TreeError::LeafCountNotPowerOfTwo,
    {
        if !leaves.is_padded() {
            return Err(TreeError::LeafCountNotPowerOfTwo);
        }
        let n: usize = leaves.len();
        let ghost bottom = leaf_level(leaves@);
        let mut nodes: Vec<Digest> = Vec::new();
        let mut i: usize = 0;
        while i < n
            invariant
                i <= n,
                n == leaves@.len(),
                bottom == leaf_level(leaves@),
                digests(nodes@) == bottom.subrange(0, i as int),
            decreases n - i,
        {
            let digest = hash_leaf(leaves.leaf(i));
            let ghost before = digests(nodes@);
            nodes.push(digest);
            assert(digest@ == bottom[i as int]);
            i = i + 1;
            assert(digests(nodes@) =~= before.push(digest@));
            assert(digests(nodes@) =~= bottom.subrange(0, i as int));
        }
        assert(digests(nodes@) =~= bottom);
        let mut start: usize = 0;
        let mut width: usize = n;
        let ghost mut prefix: Seq<Seq<u8>> = Seq::empty();
        assert(digests(nodes@).subrange(0, n as int) =~= bottom);
        assert(prefix + nodes_above(bottom) =~= nodes_above(bottom));
        while width > 1
            invariant
                is_pow2(width as nat),
                start + width == nodes.len(),
                prefix == digests(nodes@).subrange(0, start as int),
                tree_nodes(leaves@) == prefix + nodes_above(
                    digests(nodes@).subrange(start as int, start + width),
                ),
            decreases width,
        {
            let ghost cur = digests(nodes@).subrange(start as int, start + width);
            let ghost up = parent_level(cur);
            let half: usize = width / 2;
            let mut k: usize = 0;
            while k < half
                invariant
                    k <= half,
                    width == 2 * half,
                    nodes.len() == start + width + k,
                    digests(nodes@).subrange(0, start as int) == prefix,
                    digests(nodes@).subrange(start as int, start + width) == cur,
                    up == parent_level(cur),
                    digests(nodes@).subrange(start + width, start + width + k) == up.subrange(
                        0,
                        k as int,
                    ),
                decreases half - k,
            {
                let left: Digest = nodes[start + 2 * k];
                let right: Digest = nodes[start + 2 * k + 1];
                assert(left@ == cur[2 * k]);
                assert(right@ == cur[2 * k + 1]);
                let parent = hash_pair(&left, &right);
                let ghost before = digests(nodes@);
                nodes.push(parent);
                k = k + 1;
                assert(digests(nodes@) =~= before.push(parent@));
                assert(digests(nodes@).subrange(0, start as int) =~= prefix);
                assert(digests(nodes@).subrange(start as int, start + width) =~= cur);
                assert(digests(nodes@).subrange(start + width, start + width + k) =~= up.subrange(
                    0,
                    k as int,
                ));
            }
            proof {
                assert(up.subrange(0, half as int) =~= up);
                assert(nodes_above(cur) == cur + nodes_above(up));
                assert(digests(nodes@).subrange(0, start + width) =~= prefix + cur);
                assert(prefix + nodes_above(cur) =~= (prefix + cur) + nodes_above(up));
                prefix = prefix + cur;
            }
            start = start + width;
            width = half;
        }
        proof {
            let top = digests(nodes@).subrange(start as int, start + width);
            assert(nodes_above(top) == top);
            assert(digests(nodes@) =~= prefix + top);
            lemma_nodes_above_len(bottom);
            lemma_nodes_above_starts_with_level(bottom);
        }
        Ok(MerkleTree { nodes })
    }

    /// The number of leaves.
    pub fn leaf_count(&self) -> (out: usize)
        requires
            self.wf(),
        ensures
            2 * out - 1 == self@.len(),
            is_pow2(out as nat),
    {
        self.nodes.len() / 2 + 1
    }

    /// The height: the number of levels above the leaves.
    pub fn height(&self) -> (out: usize)
        requires
            self.wf(),
        ensures
            out == height_of(((self@.len() + 1) / 2) as nat),
    {
        let leaves: usize = self.leaf_count();
        let mut width: usize = leaves;
        let mut out: usize = 0;
        while width > 1
            invariant
                out + width <= leaves,
                out + height_of(width as nat) == height_of(leaves as nat),
            decreases width,
        {
            width = width / 2;
            out = out + 1;
        }
        out
    }

    /// The number of nodes, leaves and root included.
    pub fn node_count(&self) -> (out: usize)
        ensures
            out == self@.len(),
    {
        self.nodes.len()
    }

    /// The digest of the node at `index`, counted level by level from the
    /// first leaf.
    pub fn node(&self, index: usize) -> (out: Digest)
        requires
            index < self@.len(),
        ensures
            out@ == self@[index as int],
    {
        self.nodes[index]
    }

    /// The root: the digest of the top node.
    pub fn root(&self) -> (out: Digest)
        requires
            self.wf(),
        ensures
            out@ == self@.last(),
    {
        self.nodes[self.nodes.len() - 1]
    }

    /// A tree from a node list that has the shape of a tree and in which
    /// every inner node is the digest of its children.
    pub(crate) fn from_nodes(nodes: Vec<Digest>) -> (out: MerkleTree)
        requires
            tree_shaped(nodes@.len()),
            consistent(digests(nodes@)),
        ensures
            out.wf(),
            out@ == digests(nodes@),
    {
        MerkleTree { nodes }
    }
}

/// Whether two digests are the same.
pub fn same_digest(a: &Digest, b: &Digest) -> (out: bool)
    ensures
        out == (a@ == b@),
{
    let mut k: usize = 0;
    while k < 32
        invariant
            k <= 32,
            forall|i: int| 0 <= i < k ==> a@[i] == b@[i],
        decreases 32 - k,
    {
        if a[k] != b[k] {
            return false;
        }
        k = k + 1;
    }
    assert(a@ =~= b@);
    true
}

/// Whether every inner node of a tree-shaped node list is the digest of its
/// two children.
pub fn is_consistent(nodes: &Vec<Digest>) -> (out: bool)
    requires
        tree_shaped(nodes@.len()),
    ensures
        out == consistent(digests(nodes@)),
{
    let ghost all = digests(nodes@);
    let leaves: usize = nodes.len() / 2 + 1;
    let ghost bottom = all.subrange(0, leaves as int);
    let mut start: usize = 0;
    let mut width: usize = leaves;
    let ghost mut prefix: Seq<Seq<u8>> = Seq::empty();
    proof {
        assert(prefix + nodes_above(bottom) =~= nodes_above(bottom));
    }
    while width > 1
        invariant
            is_pow2(width as nat),
            start + 2 * width - 1 == nodes.len(),
            all == digests(nodes@),
            bottom == all.subrange(0, (all.len() + 1) as int / 2),
            prefix == all.subrange(0, start as int),
            nodes_above(bottom) == prefix + nodes_above(all.subrange(start as int, start + width)),
        decreases width,
    {
        let ghost cur = all.subrange(start as int, start + width);
        let ghost up = parent_level(cur);
        let half: usize = width / 2;
        let mut k: usize = 0;
        while k < half
            invariant
                k <= half,
                width == 2 * half,
                half >= 1,
                start + 2 * width - 1 == nodes.len(),
                all == digests(nodes@),
                bottom == all.subrange(0, (all.len() + 1) as int / 2),
                cur == all.subrange(start as int, start + width),
                up == parent_level(cur),
                prefix.len() == start,
                nodes_above(bottom) == prefix + nodes_above(cur),
                forall|j: int| 0 <= j < k ==> all[start + width + j] == up[j],
            decreases half - k,
        {
            let left: Digest = nodes[start + 2 * k];
            let right: Digest = nodes[start + 2 * k + 1];
            let found: Digest = nodes[start + width + k];
            assert(left@ == cur[2 * k]);
            assert(right@ == cur[2 * k + 1]);
            let expected = hash_pair(&left, &right);
            if !same_digest(&expected, &found) {
                proof {
                    lemma_nodes_above_starts_with_level(up);
                    assert(nodes_above(up).subrange(0, up.len() as int)[k as int] == up[k as int]);
                    assert(nodes_above(cur) == cur + nodes_above(up));
                    assert(nodes_above(bottom)[start + width + k] == up[k as int]);
                    assert(all[start + width + k] == found@);
                }
                return false;
            }
            k = k + 1;
        }
        proof {
            assert(nodes_above(cur) == cur + nodes_above(up));
            assert(all.subrange(start + width, start + width + half) =~= up);
            assert(all.subrange(0, start + width) =~= prefix + cur);
            assert(prefix + nodes_above(cur) =~= (prefix + cur) + nodes_above(up));
            prefix = prefix + cur;
        }
        start = start + width;
        width = half;
    }
    proof {
        let top = all.subrange(start as int, start + width);
        assert(nodes_above(top) == top);
        assert(all =~= prefix + top);
    }
    true
}

/// The same leaves in the same order give the same tree, and so the same
/// root.
pub proof fn lemma_root_determined_by_leaves(a: LeafSet, b: LeafSet)
    requires
        a@ == b@,
    ensures
        tree_nodes(a@) == tree_nodes(b@),
        merkle_root(a@) == merkle_root(b@),
{
}

/// The tree over a single leaf is that leaf's digest alone, which is its root.
pub proof fn lemma_single_leaf_root(leaf: Seq<u8>)
    ensures
        tree_nodes(seq![leaf]) == seq![sha3_256(leaf)],
        merkle_root(seq![leaf]) == sha3_256(leaf),
{
    assert(leaf_level(seq![leaf]) =~= seq![sha3_256(leaf)]);
}

/// Whether every digest that `sha3_256` gives is 32 bytes long.
pub open spec fn digests_are_256_bit() -> bool {
    forall|data: Seq<u8>| (#[trigger] sha3_256(data)).len() == 32
}

/// Two different levels of the same power-of-two length, made of 32-byte
/// digests, whose trees have the same root exhibit two different byte strings
/// with the same digest.
pub proof fn lemma_levels_with_same_root_collide(a: Seq<Seq<u8>>, b: Seq<Seq<u8>>)
    requires
        digests_are_256_bit(),
        a.len() == b.len(),
        is_pow2(a.len()),
        forall|i: int| 0 <= i < a.len() ==> (#[trigger] a[i]).len() == 32,
        forall|i: int| 0 <= i < b.len() ==> (#[trigger] b[i]).len() == 32,
        a != b,
        nodes_above(a).last() == nodes_above(b).last(),
    ensures
        exists|x: Seq<u8>, y: Seq<u8>| x != y && #[trigger] sha3_256(x) == #[trigger] sha3_256(y),
    decreases a.len(),
{
    if forall|i: int| 0 <= i < a.len() ==> a[i] == b[i] {
        assert(a =~= b);
    }
    let i = choose|i: int| 0 <= i < a.len() && a[i] != b[i];
    if a.len() > 1 {
        let up_a = parent_level(a);
        let up_b = parent_level(b);
        lemma_nodes_above_len(up_a);
        lemma_nodes_above_len(up_b);
        assert(nodes_above(a).last() == nodes_above(up_a).last());
        assert(nodes_above(b).last() == nodes_above(up_b).last());
        if up_a == up_b {
            let j = i / 2;
            let x = a[2 * j] + a[2 * j + 1];
            let y = b[2 * j] + b[2 * j + 1];
            assert(up_a[j] == sha3_256(x));
            assert(up_b[j] == sha3_256(y));
            if x == y {
                assert(a[2 * j] =~= x.subrange(0, 32));
                assert(b[2 * j] =~= y.subrange(0, 32));
                assert(a[2 * j + 1] =~= x.subrange(32, 64));
                assert(b[2 * j + 1] =~= y.subrange(32, 64));
            }
            assert(x != y && sha3_256(x) == sha3_256(y));
        } else {
            lemma_levels_with_same_root_collide(up_a, up_b);
        }
    }
}

/// Order and content matter up to collisions of the hash: two different leaf
/// sequences of the same power-of-two length, one a reordering of the other
/// or not, have different roots unless two different byte strings have the
/// same digest.
pub proof fn lemma_same_root_needs_collision(a: Seq<Seq<u8>>, b: Seq<Seq<u8>>)
    requires
        digests_are_256_bit(),
        a.len() == b.len(),
        is_pow2(a.len()),
        a != b,
        merkle_root(a) == merkle_root(b),
    ensures
        exists|x: Seq<u8>, y: Seq<u8>| x != y && #[trigger] sha3_256(x) == #[trigger] sha3_256(y),
{
    if forall|i: int| 0 <= i < a.len() ==> a[i] == b[i] {
        assert(a =~= b);
    }
    let i = choose|i: int| 0 <= i < a.len() && a[i] != b[i];
    let la = leaf_level(a);
    let lb = leaf_level(b);
    if la == lb {
        assert(la[i] == sha3_256(a[i]));
        assert(lb[i] == sha3_256(b[i]));
        assert(a[i] != b[i] && sha3_256(a[i]) == sha3_256(b[i]));
    } else {
        lemma_levels_with_same_root_collide(la, lb);
    }
}

} // verus!
