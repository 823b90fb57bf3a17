//! The tree builder and traversal engine, exercised on concrete inputs and
//! checked against digests computed independently through the sha256 crate.

use airdrop_merkle::MerkleTree;
use airdrop_merkle::TreeError;
use airdrop_merkle::check_hash_value;
use airdrop_merkle::create_hash_tree;
use airdrop_merkle::get_hash_proof;
use sha256::digest;

fn build(texts: &[&str]) -> MerkleTree {
    let nodes: Vec<String> = texts.iter().map(|t| t.to_string()).collect();
    create_hash_tree(nodes).unwrap().unwrap()
}

#[test]
fn empty_input_builds_no_tree() {
    let r = create_hash_tree(Vec::new());
    assert!(matches!(r, Ok(None)));
}

#[test]
fn three_entries_pad_pair_and_root() {
    // Scenario: three entries; the third leaf is duplicated, the internal
    // level pairs (1,2) and (3,3), and the root hashes the internal pair.
    let tree = build(&["one", "two", "three"]);
    let h1 = digest("one");
    let h2 = digest("two");
    let h3 = digest("three");
    let a = digest(format!("{}{}", h1, h2));
    let b = digest(format!("{}{}", h3, h3));
    let c = digest(format!("{}{}", a, b));

    assert_eq!(tree.padded_leaf_count(), 4);
    assert_eq!(
        tree.nodes().clone(),
        vec![
            h1.clone(),
            h2.clone(),
            h3.clone(),
            h3.clone(),
            a.clone(),
            b.clone(),
            c.clone()
        ]
    );
    assert_eq!(tree.step_table().clone(), vec![3u8, 1u8]);
    assert_eq!(tree.root().clone(), c);

    assert!(check_hash_value(h1.clone(), &tree));
    assert!(check_hash_value(h2.clone(), &tree));
    assert!(check_hash_value(h3.clone(), &tree));

    let canonical = get_hash_proof(h1.clone(), tree).unwrap();
    assert_eq!(canonical, vec![h1, a, c]);
}

#[test]
fn six_entries_three_transitions() {
    // Scenario: six entries pair into three internal nodes, then two (after
    // the buffer repad), then the root: three level transitions.
    let texts = ["1", "2", "3", "4", "5", "6"];
    let tree = build(&texts);
    let leaves: Vec<String> = texts.iter().map(|t| digest(*t)).collect();
    let a = digest(format!("{}{}", leaves[0], leaves[1]));
    let b = digest(format!("{}{}", leaves[2], leaves[3]));
    let c = digest(format!("{}{}", leaves[4], leaves[5]));
    let d = digest(format!("{}{}", a, b));
    let e = digest(format!("{}{}", c, c));
    let root = digest(format!("{}{}", d, e));

    assert_eq!(tree.step_table().len(), 3);
    assert_eq!(tree.step_table().clone(), vec![4u8, 3u8, 1u8]);
    assert_eq!(tree.padded_leaf_count(), 6);
    assert_eq!(tree.root().clone(), root);

    let mut expected_nodes = leaves.clone();
    expected_nodes.extend_from_slice(&[
        a.clone(),
        b.clone(),
        c.clone(),
        c.clone(),
        d.clone(),
        e.clone(),
        root.clone(),
    ]);
    assert_eq!(tree.nodes().clone(), expected_nodes);

    let canonical = get_hash_proof(leaves[0].clone(), tree).unwrap();
    assert_eq!(canonical, vec![leaves[0].clone(), a, d, root]);
}

#[test]
fn single_entry_duplicated_to_root() {
    // Scenario: one entry; the leaf is duplicated with itself and its
    // parent is already the root, found on the scan right after the leaf.
    let tree = build(&["only"]);
    let h = digest("only");
    let root = digest(format!("{}{}", h, h));

    assert_eq!(tree.padded_leaf_count(), 2);
    assert_eq!(tree.nodes().clone(), vec![h.clone(), h.clone(), root.clone()]);
    assert_eq!(tree.step_table().clone(), vec![1u8]);

    let canonical = get_hash_proof(h.clone(), tree).unwrap();
    assert_eq!(canonical, vec![h, root]);
}

#[test]
fn building_twice_is_byte_identical() {
    let t1 = build(&["a", "b", "c", "d", "e"]);
    let t2 = build(&["a", "b", "c", "d", "e"]);
    assert_eq!(t1.nodes().clone(), t2.nodes().clone());
    assert_eq!(t1.step_table().clone(), t2.step_table().clone());
    assert_eq!(t1.root().clone(), t2.root().clone());
    assert_eq!(t1.padded_leaf_count(), t2.padded_leaf_count());
}

#[test]
fn absent_value_not_found() {
    let tree = build(&["one", "two", "three"]);
    let absent = digest("four");
    assert!(!check_hash_value(absent.clone(), &tree));
    assert!(get_hash_proof(absent, tree).is_none());
}

#[test]
fn duplicate_entries_still_found() {
    // Distinct input positions may hold identical hashes; lookup must not
    // assume positional uniqueness.
    let tree = build(&["same", "same", "other", "same"]);
    let h = digest("same");
    let o = digest("other");
    assert!(check_hash_value(h.clone(), &tree));
    assert!(check_hash_value(o.clone(), &tree));
    let canonical = get_hash_proof(h.clone(), tree).unwrap();
    let a = digest(format!("{}{}", h, h));
    let b = digest(format!("{}{}", o, h));
    let root = digest(format!("{}{}", a, b));
    assert_eq!(canonical, vec![h, a, root]);
}

#[test]
fn oversized_whitelist_is_reported() {
    let nodes: Vec<String> = (0..255).map(|i| format!("entry-{}", i)).collect();
    let r = create_hash_tree(nodes);
    assert!(matches!(r, Err(TreeError::WhitelistTooLarge)));
}

#[test]
fn largest_even_whitelist_builds() {
    let nodes: Vec<String> = (0..254).map(|i| format!("entry-{}", i)).collect();
    let tree = create_hash_tree(nodes).unwrap().unwrap();
    assert_eq!(tree.padded_leaf_count(), 254);
}

#[test]
fn large_aligned_whitelist_finds_every_member() {
    // 192 leaves halve to 96, 48, 24, 12, 6, then 3, 2, 1: every scan
    // window stays aligned with its level, so every member is found.
    let nodes: Vec<String> = (0..192).map(|i| format!("entry-{}", i)).collect();
    let tree = create_hash_tree(nodes).unwrap().unwrap();
    assert_eq!(tree.padded_leaf_count(), 192);
    for i in 0..192 {
        let wanted = digest(format!("entry-{}", i));
        assert!(check_hash_value(wanted.clone(), &tree));
    }
    let proof_chain = get_hash_proof(digest("entry-17"), tree).unwrap();
    assert_eq!(proof_chain.len(), 9);
}

#[test]
fn leaves_are_real_digests() {
    // The committed leaf equals the digest that the sha256 crate computes
    // for the input text, not the text itself.
    let tree = build(&["payload"]);
    let h = digest("payload");
    assert_ne!(h, "payload");
    assert_eq!(tree.nodes()[0], h);
}
