use merkle_simple::Hashable;
use merkle_simple::Hasher;
use merkle_simple::MerkleTree;
use merkle_simple::TreeElement;

#[test]
fn produce_tree_from_one_elem() {
    let data = vec![format!("one")];
    let test_hash = Hasher::hash_leaf_data(data[0].get_bytes());

    let tree = MerkleTree::from_vector(data).unwrap();

    assert_eq!(tree.count(), 1);
    assert!(!tree.is_empty());
    assert_eq!(tree.height(), 0);
    assert_eq!(tree.root_hash(), test_hash.as_slice());
}

#[test]
fn produce_tree_from_two_elems() {
    let data = vec!["one".to_string(), "two".to_string()];

    // construct the expected hash value
    let hash_left = Hasher::hash_leaf_data(data[0].get_bytes());
    let hash_right = Hasher::hash_leaf_data(data[1].get_bytes());
    let test_hash = Hasher::hash_node_data(hash_left.as_slice(), hash_right.as_slice());

    let tree = MerkleTree::from_vector(data).unwrap();

    assert_eq!(tree.count(), 2);
    assert!(!tree.is_empty());
    assert_eq!(tree.height(), 1);
    assert_eq!(tree.root_hash(), test_hash.as_slice());
}

#[test]
fn handle_empty_array() {
    let data: Vec<String> = Vec::new();

    let tree = MerkleTree::from_vector(data);

    assert!(tree.is_none());
}

#[test]
fn check_leaf_hash() {
    let data = format!("test string");
    let hash = Hasher::hash_leaf_data(data.get_bytes());

    let leaf = TreeElement::new_leaf(data);

    assert_eq!(leaf.hash(), hash.as_slice());
}

#[test]
fn check_nodes_hash() {
    let d1 = format!("first leaf");
    let d2 = format!("second leaf");
    let h1 = Hasher::hash_leaf_data(d1.get_bytes());
    let h2 = Hasher::hash_leaf_data(d2.get_bytes());
    let h12 = Hasher::hash_node_data(h1.as_slice(), h2.as_slice());

    let node = TreeElement::new_node(TreeElement::new_leaf(d1), TreeElement::new_leaf(d2));

    assert_eq!(node.hash(), h12.as_slice());
}

#[test]
fn deterministic_root_and_order_sensitivity() {
    let build = |words: &[&str]| {
        let data: Vec<String> = words.iter().map(|w| w.to_string()).collect();
        MerkleTree::from_vector(data).unwrap()
    };

    let t1 = build(&["alpha", "beta", "gamma"]);
    let t2 = build(&["alpha", "beta", "gamma"]);
    let t3 = build(&["gamma", "beta", "alpha"]);

    assert_eq!(t1.root_hash(), t2.root_hash());
    assert_ne!(t1.root_hash(), t3.root_hash());
}

#[test]
fn four_elem_root_structure() {
    let data = vec![format!("a"), format!("b"), format!("c"), format!("d")];
    let h: Vec<Vec<u8>> = data.iter().map(|d| Hasher::hash_leaf_data(d.get_bytes())).collect();
    let h12 = Hasher::hash_node_data(&h[0], &h[1]);
    let h34 = Hasher::hash_node_data(&h[2], &h[3]);
    let expected_root = Hasher::hash_node_data(&h12, &h34);

    let tree = MerkleTree::from_vector(data).unwrap();

    assert_eq!(tree.count(), 4);
    assert_eq!(tree.height(), 2);
    assert_eq!(tree.root_hash(), expected_root.as_slice());

    let present = tree.get_proof(format!("c"));
    assert!(present.is_some());
    assert!(present.unwrap().validate(tree.root_hash()));

    let absent = tree.get_proof(format!("e"));
    assert!(absent.is_none());
}

#[test]
fn three_elem_promotes_unpaired() {
    let data = vec![format!("a"), format!("b"), format!("c")];
    let ha = Hasher::hash_leaf_data(data[0].get_bytes());
    let hb = Hasher::hash_leaf_data(data[1].get_bytes());
    let hc = Hasher::hash_leaf_data(data[2].get_bytes());
    // the unpaired third digest is carried up unchanged, so the root joins
    // the pair's digest with the third leaf digest itself
    let hab = Hasher::hash_node_data(&ha, &hb);
    let expected_root = Hasher::hash_node_data(&hab, &hc);
    // the self-pairing shape that the construction must not produce
    let hcc = Hasher::hash_node_data(&hc, &hc);
    let wrong_root = Hasher::hash_node_data(&hab, &hcc);

    let tree = MerkleTree::from_vector(data).unwrap();

    assert_eq!(tree.count(), 3);
    assert_eq!(tree.height(), 2);
    assert_eq!(tree.root_hash(), expected_root.as_slice());
    assert_ne!(tree.root_hash(), wrong_root.as_slice());
}
