//! A binary hash tree (Merkle tree) over an ordered collection of hashable
//! items, with compact inclusion proofs.
//!
//! A tree is built bottom-up from an ordered sequence of items: each item
//! becomes a leaf, and layers are aggregated pairwise until a single root
//! remains.  An inclusion proof records the sibling digests along the path
//! from the root to one leaf, and can be replayed against an independently
//! obtained root digest without access to the rest of the data set.

mod inclusion;
pub use inclusion::PathItem;
pub use inclusion::Position;
pub use inclusion::Proof;

mod merkletree;
pub use merkletree::MerkleTree;
pub use merkletree::bytes_seq;
pub use merkletree::clog2;
pub use merkletree::combine_layer;
pub use merkletree::leaf_digests;
pub use merkletree::lemma_height_is_ceil_log2;
pub use merkletree::lemma_input_included;
pub use merkletree::lemma_odd_layer_promotion;
pub use merkletree::lemma_root_deterministic;
pub use merkletree::root_digest_of;

mod treeelement;
pub use treeelement::TreeElement;

mod utils;
pub use utils::Hashable;
pub use utils::Hasher;
pub use utils::leaf_hash_of;
pub use utils::leaf_preimage;
pub use utils::lemma_domain_separation;
pub use utils::node_hash_of;
pub use utils::node_preimage;
pub use utils::sha256_of;
