use merkle_simple::Hasher;

#[test]
fn leaf_hash_shouldnt_match_node() {
    // prepare data
    let test_hash_source_node = b"This is a test value for hashing";

    // we just concatenate source data of nodes in order to get leaf hash source
    let mut buffer = Vec::with_capacity(test_hash_source_node.len() * 2);
    buffer.extend(test_hash_source_node);
    buffer.extend(test_hash_source_node);

    let test_hash_source_leaf = buffer.as_slice();

    // produce leaf and node from same data
    let leaf_hash = Hasher::hash_leaf_data(test_hash_source_leaf);
    let node_hash = Hasher::hash_node_data(test_hash_source_node, test_hash_source_node);

    assert!(leaf_hash != node_hash);
}

#[test]
fn digest_is_not_the_input() {
    // 28 bytes of data: together with the four tag bytes the digest input is
    // exactly as long as a digest, so a digest function that handed its
    // input back unchanged would be caught by the inequality below
    let data = [7u8; 28];
    let hash = Hasher::hash_leaf_data(&data);
    assert_eq!(hash.len(), 32);

    let mut tagged = Vec::new();
    tagged.extend(b"LEAF");
    tagged.extend(&data);
    assert_ne!(hash, tagged);
}

#[test]
fn equal_bytes_equal_digests() {
    let once = Hasher::hash_leaf_data(b"same bytes");
    let again = Hasher::hash_leaf_data(b"same bytes");
    let other = Hasher::hash_leaf_data(b"other bytes");
    assert_eq!(once, again);
    assert_ne!(once, other);

    let node_once = Hasher::hash_node_data(&once, &other);
    let node_again = Hasher::hash_node_data(&once, &other);
    let node_swapped = Hasher::hash_node_data(&other, &once);
    assert_eq!(node_once, node_again);
    assert_ne!(node_once, node_swapped);
}
