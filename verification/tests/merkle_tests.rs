use std::str::FromStr;

use anchor_lang::solana_program::pubkey::Pubkey;
use token_distributor::merkle::hash_leaf;
use token_distributor::merkle::verify;
use token_distributor::merkle_tree::SimpleMerkleTree;
use token_distributor::merkle_tree::TreeNode;

fn get_test_data() -> Vec<TreeNode> {
    vec![
        TreeNode {
            claimant: Pubkey::from_str("3gmBN8LBomg3sZEjTgp2YsECMYgJpjcT7xUfpnDB4gSs")
                .unwrap()
                .to_bytes(),
            amount: 1000,
        },
        TreeNode {
            claimant: Pubkey::from_str("8G9xE8awr9vA2PZWFTJSHNhS16KLnXYdV6XEaJP1a2Yx")
                .unwrap()
                .to_bytes(),
            amount: 2000,
        },
        TreeNode {
            claimant: Pubkey::from_str("A4mDtfFCkdt9CqGzEkfiSHhJD8d3bUMasVzwajudGtb2")
                .unwrap()
                .to_bytes(),
            amount: 3000,
        },
        TreeNode {
            claimant: Pubkey::from_str("4SX6nqv5VRLMoNfYM5phvHgcBNcBEwUEES4qPPjf1EqS")
                .unwrap()
                .to_bytes(),
            amount: 4000,
        },
    ]
}

#[test]
fn test_merkle_tree_consistency() {
    println!("=== Testing Merkle Tree Consistency ===");

    let tree_nodes = get_test_data();

    println!("Creating Merkle Tree with {} nodes", tree_nodes.len());

    for (i, node) in tree_nodes.iter().enumerate() {
        let leaf_hash = hash_leaf(&node.claimant, node.amount);
        println!(
            "Leaf {}: claimant={}, amount={}, hash={:?}",
            i,
            Pubkey::new_from_array(node.claimant),
            node.amount,
            leaf_hash
        );
    }

    let merkle_tree = SimpleMerkleTree::new(tree_nodes);
    let root = merkle_tree.get_merkle_root().unwrap();

    println!("Rust Merkle Root: {:?}", root);
    println!("Rust Merkle Root length: {}", root.len());

    let root_array: Vec<u8> = root.into_iter().collect();
    println!("Rust Merkle Root as array: {:?}", root_array);

    let expected_ts_root = vec![
        51, 122, 158, 29, 92, 151, 242, 153, 236, 252, 41, 211, 22, 50, 250, 139, 218, 189, 37,
        163, 61, 102, 114, 92, 184, 219, 198, 184, 3, 245, 63, 91,
    ];

    println!("Expected TypeScript root: {:?}", expected_ts_root);

    if root_array == expected_ts_root {
        println!("✅ SUCCESS: Rust and TypeScript Merkle roots match!");
    } else {
        println!("❌ MISMATCH: Rust and TypeScript Merkle roots differ!");
        println!("Difference found at positions:");
        for (i, (rust_byte, ts_byte)) in root_array.iter().zip(expected_ts_root.iter()).enumerate()
        {
            if rust_byte != ts_byte {
                println!("  Position {}: Rust={}, TypeScript={}", i, rust_byte, ts_byte);
            }
        }
    }
}

#[test]
fn test_get_proof_and_verify() {
    println!("=== Testing get_proof and verify ===");

    let tree_nodes = get_test_data();
    let merkle_tree = SimpleMerkleTree::new(tree_nodes.clone());
    let root = merkle_tree.get_root().unwrap();

    println!("Merkle root: {:?}", root);

    for (index, node) in tree_nodes.iter().enumerate() {
        println!("\n--- Testing node {} ---", index);
        println!("Claimant: {}", Pubkey::new_from_array(node.claimant));
        println!("Amount: {}", node.amount);

        let leaf_hash = hash_leaf(&node.claimant, node.amount);
        println!("Leaf hash: {:?}", leaf_hash);

        let proof = merkle_tree.get_proof(index).expect("Failed to get proof");
        println!("Proof length: {}", proof.len());
        println!("Proof: {:?}", proof);

        let is_valid = verify(proof.clone(), root, leaf_hash);
        println!(
            "Proof verification: {}",
            if is_valid { "✅ VALID" } else { "❌ INVALID" }
        );

        assert!(is_valid, "Proof verification failed for index {}", index);
    }

    println!("\n✅ All proofs verified successfully!");
}

#[test]
fn test_invalid_proof() {
    println!("=== Testing invalid proof ===");

    let tree_nodes = get_test_data();
    let merkle_tree = SimpleMerkleTree::new(tree_nodes.clone());
    let root = merkle_tree.get_root().unwrap();

    let wrong_leaf = hash_leaf(
        &Pubkey::from_str("11111111111111111111111111111112")
            .unwrap()
            .to_bytes(),
        9999,
    );
    let proof = merkle_tree.get_proof(0).expect("Failed to get proof");

    let is_valid = verify(proof, root, wrong_leaf);
    println!(
        "Invalid proof verification: {}",
        if is_valid {
            "❌ UNEXPECTEDLY VALID"
        } else {
            "✅ CORRECTLY INVALID"
        }
    );

    assert!(!is_valid, "Invalid proof should not verify");

    let correct_leaf = hash_leaf(&tree_nodes[0].claimant, tree_nodes[0].amount);
    let mut tampered_proof = merkle_tree.get_proof(0).expect("Failed to get proof");
    if !tampered_proof.is_empty() {
        tampered_proof[0][0] = tampered_proof[0][0].wrapping_add(1);
    }

    let is_valid_tampered = verify(tampered_proof, root, correct_leaf);
    println!(
        "Tampered proof verification: {}",
        if is_valid_tampered {
            "❌ UNEXPECTEDLY VALID"
        } else {
            "✅ CORRECTLY INVALID"
        }
    );

    assert!(!is_valid_tampered, "Tampered proof should not verify");

    println!("✅ Invalid proof tests passed!");
}

#[test]
fn test_proof_edge_cases() {
    println!("=== Testing proof edge cases ===");

    let single_node = vec![TreeNode {
        claimant: Pubkey::from_str("3gmBN8LBomg3sZEjTgp2YsECMYgJpjcT7xUfpnDB4gSs")
            .unwrap()
            .to_bytes(),
        amount: 1000,
    }];

    let single_tree = SimpleMerkleTree::new(single_node.clone());
    let single_root = single_tree.get_root().unwrap();
    let single_proof = single_tree
        .get_proof(0)
        .expect("Failed to get proof for single node");

    println!("Single node proof length: {}", single_proof.len());
    assert_eq!(single_proof.len(), 0, "Single node should have empty proof");

    let single_leaf = hash_leaf(&single_node[0].claimant, single_node[0].amount);
    let single_valid = verify(single_proof, single_root, single_leaf);
    println!(
        "Single node verification: {}",
        if single_valid { "✅ VALID" } else { "❌ INVALID" }
    );
    assert!(single_valid, "Single node proof should be valid");

    let tree_nodes = get_test_data();
    let merkle_tree = SimpleMerkleTree::new(tree_nodes);
    let out_of_bounds_result = merkle_tree.get_proof(10);
    assert!(
        out_of_bounds_result.is_err(),
        "Out of bounds should return error"
    );

    println!("✅ Edge case tests passed!");
}

#[test]
fn test_merkle_root_matches_reference() {
    // The same eligibility set as above, hashed by an independent builder:
    // the root must come out byte for byte identical.
    let merkle_tree = SimpleMerkleTree::new(get_test_data());
    let root = merkle_tree.get_merkle_root().unwrap();
    let expected: Vec<u8> = vec![
        51, 122, 158, 29, 92, 151, 242, 153, 236, 252, 41, 211, 22, 50, 250, 139, 218, 189, 37,
        163, 61, 102, 114, 92, 184, 219, 198, 184, 3, 245, 63, 91,
    ];
    assert_eq!(root, expected);
}

#[test]
fn test_leaf_hash_matches_direct_hashing() {
    // hash_leaf must agree with hashing the identity bytes and the
    // little-endian amount directly.
    let claimant = Pubkey::from_str("3gmBN8LBomg3sZEjTgp2YsECMYgJpjcT7xUfpnDB4gSs")
        .unwrap()
        .to_bytes();
    let amount: u64 = 123_456_789_012_345;
    let direct = anchor_lang::solana_program::hash::hashv(&[&claimant, &amount.to_le_bytes()])
        .to_bytes();
    assert_eq!(hash_leaf(&claimant, amount), direct);
}

#[test]
fn test_tampered_root_rejected() {
    let tree_nodes = get_test_data();
    let merkle_tree = SimpleMerkleTree::new(tree_nodes.clone());
    let mut root = merkle_tree.get_root().unwrap();
    let leaf = hash_leaf(&tree_nodes[1].claimant, tree_nodes[1].amount);
    let proof = merkle_tree.get_proof(1).unwrap();
    assert!(verify(proof.clone(), root, leaf));
    root[7] = root[7].wrapping_add(1);
    assert!(!verify(proof, root, leaf));
}

#[test]
fn test_tampered_leaf_rejected() {
    let tree_nodes = get_test_data();
    let merkle_tree = SimpleMerkleTree::new(tree_nodes.clone());
    let root = merkle_tree.get_root().unwrap();
    let mut leaf = hash_leaf(&tree_nodes[2].claimant, tree_nodes[2].amount);
    let proof = merkle_tree.get_proof(2).unwrap();
    assert!(verify(proof.clone(), root, leaf));
    leaf[31] = leaf[31].wrapping_add(1);
    assert!(!verify(proof, root, leaf));
}

#[test]
fn test_empty_tree_has_no_root() {
    let empty_tree = SimpleMerkleTree::new(Vec::new());
    assert!(empty_tree.get_root().is_none());
    assert!(empty_tree.get_merkle_root().is_err());
    assert!(empty_tree.get_proof(0).is_err());
}

#[test]
fn test_odd_leaf_count_proofs_verify() {
    // Three leaves: the odd level duplicates its last node; every proof
    // must still fold back to the root.
    let mut tree_nodes = get_test_data();
    tree_nodes.truncate(3);
    let merkle_tree = SimpleMerkleTree::new(tree_nodes.clone());
    let root = merkle_tree.get_root().unwrap();
    for (index, node) in tree_nodes.iter().enumerate() {
        let leaf = hash_leaf(&node.claimant, node.amount);
        let proof = merkle_tree.get_proof(index).unwrap();
        assert!(verify(proof, root, leaf), "proof {} failed", index);
    }
}
