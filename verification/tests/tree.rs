use merkle_anchor::hash::{hash_leaf, hash_pair, join};
use merkle_anchor::inclusion::{inclusion_path, root_from_path};
use merkle_anchor::leaves::{
    collect_leaves, is_power_of_two, smallest_pow2_at_least, LeafSet, RowCells,
};
use merkle_anchor::merkle::{is_consistent, same_digest, MerkleTree, TreeError};
use merkle_anchor::storage::{load, store, StorageError, FORMAT_VERSION, HEADER_LEN};

fn leaves_of(items: &[&str]) -> LeafSet {
    LeafSet::new(items.iter().map(|s| s.as_bytes().to_vec()).collect())
}

fn built(items: &[&str]) -> MerkleTree {
    let mut set = leaves_of(items);
    set.pad();
    MerkleTree::build(set).unwrap()
}

#[test]
fn hash_of_empty_leaf_is_sha3_256() {
    assert_eq!(
        hex::encode(hash_leaf(b"")),
        "a7ffc6f8bf1ed76651c14756a061d662f580ff4de43b49fa82d80a4b80f8434a"
    );
}

#[test]
fn hash_of_abc_is_sha3_256() {
    assert_eq!(
        hex::encode(hash_leaf(b"abc")),
        "3a985da74fe225b2045c172d6bd390bd855f086e3e9d525b46bfe24511431532"
    );
}

#[test]
fn join_puts_left_before_right() {
    let left = [1u8; 32];
    let right = [2u8; 32];
    let joined = join(&left, &right);
    assert_eq!(joined.len(), 64);
    assert_eq!(&joined[..32], &left[..]);
    assert_eq!(&joined[32..], &right[..]);
}

#[test]
fn hash_pair_hashes_left_then_right() {
    let a = hash_leaf(b"a");
    let b = hash_leaf(b"b");
    assert_eq!(
        hex::encode(hash_pair(&a, &b)),
        "29df505440ebe180c00857e92b0694c56a33762b08944472492b0cbf6ec607e3"
    );
    assert_eq!(
        hex::encode(hash_pair(&b, &a)),
        "5967a94955d8f1acf5f8ce135bfa7bfca3d456d9170820edc32c38639edda54e"
    );
}

#[test]
fn smallest_pow2_values() {
    assert_eq!(smallest_pow2_at_least(0), Some(1));
    assert_eq!(smallest_pow2_at_least(1), Some(1));
    assert_eq!(smallest_pow2_at_least(2), Some(2));
    assert_eq!(smallest_pow2_at_least(3), Some(4));
    assert_eq!(smallest_pow2_at_least(5), Some(8));
    assert_eq!(smallest_pow2_at_least(1024), Some(1024));
    assert_eq!(smallest_pow2_at_least(1025), Some(2048));
    assert_eq!(smallest_pow2_at_least(1u64 << 63), Some(1u64 << 63));
    assert_eq!(smallest_pow2_at_least((1u64 << 63) + 1), None);
    assert_eq!(smallest_pow2_at_least(u64::MAX), None);
}

#[test]
fn power_of_two_test() {
    assert!(!is_power_of_two(0));
    assert!(is_power_of_two(1));
    assert!(is_power_of_two(2));
    assert!(!is_power_of_two(3));
    assert!(is_power_of_two(64));
    assert!(!is_power_of_two(96));
    assert!(is_power_of_two(1u64 << 63));
    assert!(!is_power_of_two(u64::MAX));
}

#[test]
fn pad_empty_set_gives_one_filler() {
    let mut set = LeafSet::new(Vec::new());
    set.pad();
    assert_eq!(set.len(), 1);
    assert_eq!(set.leaf(0), b"");
}

#[test]
fn pad_is_no_op_on_power_of_two() {
    for n in [1usize, 2, 4, 8, 16] {
        let mut set = LeafSet::new(vec![b"x".to_vec(); n]);
        set.pad();
        assert_eq!(set.len(), n);
        for i in 0..n {
            assert_eq!(set.leaf(i), b"x");
        }
    }
}

#[test]
fn pad_reaches_next_power_of_two() {
    for (n, want) in [(3usize, 4usize), (5, 8), (6, 8), (7, 8), (9, 16), (17, 32)] {
        let mut set = LeafSet::new(vec![b"x".to_vec(); n]);
        assert!(!set.is_padded());
        set.pad();
        assert!(set.is_padded());
        assert_eq!(set.len(), want);
        for i in 0..n {
            assert_eq!(set.leaf(i), b"x");
        }
        for i in n..want {
            assert_eq!(set.leaf(i), b"");
        }
    }
}

#[test]
fn push_and_push_vec_append_in_order() {
    let mut set = leaves_of(&["a"]);
    set.push(b"b".to_vec());
    set.push_vec(vec![b"c".to_vec(), b"d".to_vec()]);
    assert_eq!(set.len(), 4);
    assert_eq!(set.leaf(0), b"a");
    assert_eq!(set.leaf(1), b"b");
    assert_eq!(set.leaf(2), b"c");
    assert_eq!(set.leaf(3), b"d");
}

#[test]
fn collect_keeps_the_fixed_order() {
    let roster = vec![b"Alice".to_vec(), b"Bob".to_vec()];
    let audited = vec![b"B1".to_vec()];
    let planes = vec![
        vec![RowCells { first: b"p0r0a".to_vec(), third: b"p0r0c".to_vec() }],
        vec![
            RowCells { first: b"p1r0a".to_vec(), third: b"p1r0c".to_vec() },
            RowCells { first: b"p1r1a".to_vec(), third: b"p1r1c".to_vec() },
        ],
    ];
    let set = collect_leaves(&roster, &audited, &planes);
    let want: Vec<&[u8]> = vec![
        b"Alice", b"Bob", b"B1", b"p0r0a", b"p0r0c", b"p1r0a", b"p1r0c", b"p1r1a", b"p1r1c",
    ];
    assert_eq!(set.len(), want.len());
    for (i, leaf) in want.iter().enumerate() {
        assert_eq!(set.leaf(i), *leaf);
    }
}

#[test]
fn build_refuses_a_count_that_is_no_power_of_two() {
    assert_eq!(
        MerkleTree::build(leaves_of(&["a", "b", "c"])).err(),
        Some(TreeError::LeafCountNotPowerOfTwo)
    );
    assert_eq!(
        MerkleTree::build(LeafSet::new(Vec::new())).err(),
        Some(TreeError::LeafCountNotPowerOfTwo)
    );
}

#[test]
fn single_leaf_root_is_the_leaf_hash() {
    let tree = built(&["only"]);
    assert_eq!(tree.leaf_count(), 1);
    assert_eq!(tree.height(), 0);
    assert_eq!(tree.node_count(), 1);
    assert_eq!(tree.root(), hash_leaf(b"only"));
}

#[test]
fn empty_set_root_is_the_filler_hash() {
    let tree = built(&[]);
    assert_eq!(tree.node_count(), 1);
    assert_eq!(
        hex::encode(tree.root()),
        "a7ffc6f8bf1ed76651c14756a061d662f580ff4de43b49fa82d80a4b80f8434a"
    );
}

#[test]
fn four_leaf_tree_levels() {
    let tree = built(&["a", "b", "c", "d"]);
    assert_eq!(tree.leaf_count(), 4);
    assert_eq!(tree.height(), 2);
    assert_eq!(tree.node_count(), 7);
    assert_eq!(tree.node(0), hash_leaf(b"a"));
    assert_eq!(tree.node(3), hash_leaf(b"d"));
    assert_eq!(
        hex::encode(tree.node(4)),
        "29df505440ebe180c00857e92b0694c56a33762b08944472492b0cbf6ec607e3"
    );
    assert_eq!(tree.node(5), hash_pair(&tree.node(2), &tree.node(3)));
    assert_eq!(tree.node(6), hash_pair(&tree.node(4), &tree.node(5)));
    assert_eq!(
        hex::encode(tree.root()),
        "5267fec4a5327f9d287233f95213afa39d3aad2fee1fa1384b032b79fb3441e8"
    );
}

#[test]
fn same_leaves_give_the_same_root() {
    let one = built(&["Alice", "Bob", "B1"]);
    let two = built(&["Alice", "Bob", "B1"]);
    assert_eq!(one.root(), two.root());
    for i in 0..one.node_count() {
        assert_eq!(one.node(i), two.node(i));
    }
}

#[test]
fn swapping_two_leaves_changes_the_root() {
    let one = built(&["a", "b", "c", "d"]);
    let two = built(&["b", "a", "c", "d"]);
    assert_ne!(one.root(), two.root());
}

#[test]
fn store_writes_header_then_nodes() {
    let tree = built(&["a", "b", "c", "d"]);
    let bytes = store(&tree);
    assert_eq!(bytes.len(), HEADER_LEN + 32 * 7);
    assert_eq!(&bytes[..4], b"MKLT");
    assert_eq!(bytes[4], FORMAT_VERSION);
    assert_eq!(&bytes[5..13], &4u64.to_le_bytes());
    assert_eq!(&bytes[13..45], &hash_leaf(b"a")[..]);
    assert_eq!(&bytes[bytes.len() - 32..], &tree.root()[..]);
}

#[test]
fn load_gives_back_what_store_wrote() {
    for items in [vec!["only"], vec!["a", "b"], vec!["Alice", "Bob", "B1", "colA", "colC"]] {
        let tree = built(&items);
        let back = load(&store(&tree)).unwrap();
        assert_eq!(back.node_count(), tree.node_count());
        assert_eq!(back.leaf_count(), tree.leaf_count());
        assert_eq!(back.root(), tree.root());
        for i in 0..tree.node_count() {
            assert_eq!(back.node(i), tree.node(i));
        }
    }
}

#[test]
fn load_refuses_truncated_header() {
    assert_eq!(load(b"").err(), Some(StorageError::Truncated));
    assert_eq!(load(b"MKLT\x01\x01\0\0\0\0\0\0").err(), Some(StorageError::Truncated));
}

#[test]
fn load_refuses_other_magic() {
    let mut bytes = store(&built(&["a", "b"]));
    bytes[2] = b'X';
    assert_eq!(load(&bytes).err(), Some(StorageError::BadMagic));
}

#[test]
fn load_refuses_other_version() {
    let mut bytes = store(&built(&["a", "b"]));
    bytes[4] = 2;
    assert_eq!(load(&bytes).err(), Some(StorageError::UnsupportedVersion));
}

#[test]
fn load_refuses_bad_leaf_count() {
    let mut bytes = store(&built(&["a", "b"]));
    bytes[5] = 3;
    assert_eq!(load(&bytes).err(), Some(StorageError::BadLeafCount));
    bytes[5] = 0;
    assert_eq!(load(&bytes).err(), Some(StorageError::BadLeafCount));
}

#[test]
fn load_refuses_cut_or_extended_body() {
    let bytes = store(&built(&["a", "b", "c", "d"]));
    assert_eq!(load(&bytes[..bytes.len() - 1]).err(), Some(StorageError::LengthMismatch));
    assert_eq!(load(&bytes[..bytes.len() - 32]).err(), Some(StorageError::LengthMismatch));
    let mut longer = bytes.clone();
    longer.extend_from_slice(&[0u8; 32]);
    assert_eq!(load(&longer).err(), Some(StorageError::LengthMismatch));
    let mut huge = bytes.clone();
    huge[12] = 0x80;
    huge[5] = 0;
    assert_eq!(load(&huge).err(), Some(StorageError::LengthMismatch));
}

#[test]
fn load_refuses_a_node_that_is_not_the_digest_of_its_children() {
    let bytes = store(&built(&["a", "b", "c", "d"]));
    for at in [13usize, 13 + 32 * 3 + 5, 13 + 32 * 4, bytes.len() - 1] {
        let mut changed = bytes.clone();
        changed[at] ^= 1;
        assert_eq!(load(&changed).err(), Some(StorageError::Corrupt));
    }
}

#[test]
fn load_accepts_any_single_node() {
    let mut bytes = b"MKLT\x01".to_vec();
    bytes.extend_from_slice(&1u64.to_le_bytes());
    bytes.extend_from_slice(&[7u8; 32]);
    let tree = load(&bytes).unwrap();
    assert_eq!(tree.node_count(), 1);
    assert_eq!(tree.root(), [7u8; 32]);
}

#[test]
fn same_digest_compares_every_byte() {
    let a = [3u8; 32];
    let mut b = a;
    assert!(same_digest(&a, &b));
    b[31] = 4;
    assert!(!same_digest(&a, &b));
    b[31] = 3;
    b[0] = 0;
    assert!(!same_digest(&a, &b));
}

#[test]
fn consistency_of_a_node_list() {
    let a = hash_leaf(b"a");
    let b = hash_leaf(b"b");
    assert!(is_consistent(&vec![a]));
    assert!(is_consistent(&vec![a, b, hash_pair(&a, &b)]));
    assert!(!is_consistent(&vec![a, b, hash_pair(&b, &a)]));
    assert!(!is_consistent(&vec![a, b, a]));
}

#[test]
fn inclusion_path_of_each_leaf_leads_to_the_root() {
    let items = ["Alice", "Bob", "B1", "colA", "colC"];
    let tree = built(&items);
    assert_eq!(tree.leaf_count(), 8);
    for i in 0..8 {
        let path = inclusion_path(&tree, i);
        assert_eq!(path.len(), 3);
        assert_eq!(path[0], tree.node(i ^ 1));
        assert_eq!(path[1], tree.node(8 + ((i / 2) ^ 1)));
        assert_eq!(path[2], tree.node(12 + ((i / 4) ^ 1)));
        let leaf: &[u8] = if i < items.len() { items[i].as_bytes() } else { b"" };
        assert_eq!(root_from_path(&hash_leaf(leaf), i, &path), tree.root());
        assert_ne!(root_from_path(&hash_leaf(b"Mallory"), i, &path), tree.root());
        if i < 6 {
            assert_ne!(root_from_path(&hash_leaf(leaf), i ^ 1, &path), tree.root());
        }
    }
}

#[test]
fn inclusion_path_of_a_single_leaf_is_empty() {
    let tree = built(&["only"]);
    let path = inclusion_path(&tree, 0);
    assert!(path.is_empty());
    assert_eq!(root_from_path(&hash_leaf(b"only"), 0, &path), tree.root());
}

#[test]
fn inclusion_path_of_two_leaves() {
    let tree = built(&["a", "b"]);
    assert_eq!(inclusion_path(&tree, 0), vec![hash_leaf(b"b")]);
    assert_eq!(inclusion_path(&tree, 1), vec![hash_leaf(b"a")]);
    assert_eq!(
        hex::encode(root_from_path(&hash_leaf(b"a"), 0, &vec![hash_leaf(b"b")])),
        "29df505440ebe180c00857e92b0694c56a33762b08944472492b0cbf6ec607e3"
    );
}
