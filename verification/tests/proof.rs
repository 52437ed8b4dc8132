use merkle_simple::MerkleTree;
use merkle_simple::PathItem;
use merkle_simple::Position;
use merkle_simple::Proof;

#[test]
fn test_inclusion_success() {
    let data = vec![format!("one"), format!("two"), format!("three"), format!("four")];
    let tree = MerkleTree::from_vector(data.clone()).unwrap();

    for data_to_check in data {
        let proof = tree.get_proof(data_to_check);
        assert!(proof.is_some());

        let result = proof.unwrap().validate(tree.root_hash());
        assert!(result);
    }
}

#[test]
fn test_inclusion_fail() {
    let data = vec![format!("one"), format!("two"), format!("three"), format!("four")];
    let tree = MerkleTree::from_vector(data).unwrap();

    let data_to_check = format!("five");

    let proof = tree.get_proof(data_to_check);
    assert!(proof.is_none());
}

// Flips one byte of the sibling digest `level` steps below the head of the
// path; reports whether such a sibling exists.
fn flip_sibling_byte(item: &mut PathItem, level: usize, byte_index: usize) -> bool {
    if level == 0 {
        match &mut item.sibling_hash {
            Some(Position::Left(digest)) | Some(Position::Right(digest)) => {
                digest[byte_index] ^= 1;
                true
            }
            None => false,
        }
    } else {
        match &mut item.sub_item {
            Some(sub) => flip_sibling_byte(sub, level - 1, byte_index),
            None => false,
        }
    }
}

#[test]
fn tamper_detection() {
    let data = vec![format!("one"), format!("two"), format!("three"), format!("four")];
    let tree = MerkleTree::from_vector(data).unwrap();
    let proof = tree.get_proof(format!("three")).unwrap();
    assert!(proof.validate(tree.root_hash()));

    // flipping any single byte of any sibling digest must invalidate the proof
    let mut tampered_some_level = false;
    for level in 0..8 {
        for byte_index in 0..32 {
            let fresh = tree.get_proof(format!("three")).unwrap();
            let mut path = fresh.path;
            if flip_sibling_byte(&mut path, level, byte_index) {
                tampered_some_level = true;
                let bad = Proof::new(format!("three"), fresh.root_hash, path);
                assert!(!bad.validate(tree.root_hash()));
            }
        }
    }
    assert!(tampered_some_level);
}

#[test]
fn duplicate_digests_take_leftmost_path() {
    // two identical items: both leaves store the same digest, and the
    // left-first search must return the leftmost one's path, whose recorded
    // sibling therefore lies to the Right
    let data = vec![format!("dup"), format!("dup")];
    let tree = MerkleTree::from_vector(data).unwrap();
    let proof = tree.get_proof(format!("dup")).unwrap();

    let expected_sibling = merkle_simple::Hasher::hash_leaf_data(b"dup");
    match &proof.path.sibling_hash {
        Some(Position::Right(sibling)) => assert_eq!(sibling, &expected_sibling),
        _ => panic!("the sibling of the leftmost path must be on the right"),
    }
    assert!(proof.validate(tree.root_hash()));
}
