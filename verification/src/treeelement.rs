//! The recursive node/leaf representation of the tree and its stored digest.

use vstd::prelude::*;

use crate::utils::Hashable;
use crate::utils::Hasher;
use crate::utils::leaf_hash_of;
use crate::utils::node_hash_of;

verus! {

/// Common type for leaves and internal nodes.  A leaf owns one domain value
/// and its leaf digest; a node owns its two children and the interior digest
/// derived from the children's digests.
#[derive(Debug)]
pub enum TreeElement<T> where T: Hashable {
    /// Leaves contain data.
    Leaf { value: T, hash: Vec<u8> },
    /// Internal nodes combine the digests of exactly two children.
    Node { left: Box<TreeElement<T>>, right: Box<TreeElement<T>>, hash: Vec<u8> },
}

impl<T> TreeElement<T> where T: Hashable {
    /// The digest stored in this element, leaf or node alike.
    pub open spec fn spec_hash(self) -> Seq<u8> {
        match self {
            TreeElement::Leaf { hash, .. } => hash@,
            TreeElement::Node { hash, .. } => hash@,
        }
    }

    /// The number of elements (leaves and nodes) in this subtree.
    pub open spec fn size(self) -> nat
        decreases self,
    {
        match self {
            TreeElement::Leaf { .. } => 1,
            TreeElement::Node { left, right, .. } => 1 + left.size() + right.size(),
        }
    }

    /// The digests of the leaves of this subtree, leftmost first.
    pub open spec fn leaf_hashes(self) -> Seq<Seq<u8>>
        decreases self,
    {
        match self {
            TreeElement::Leaf { .. } => seq![self.spec_hash()],
            TreeElement::Node { left, right, .. } => left.leaf_hashes() + right.leaf_hashes(),
        }
    }

    /// The domain values owned by the leaves of this subtree, leftmost first.
    pub open spec fn values(self) -> Seq<T>
        decreases self,
    {
        match self {
            TreeElement::Leaf { value, .. } => seq![value],
            TreeElement::Node { left, right, .. } => left.values() + right.values(),
        }
    }

    /// Every stored digest is a 256-bit digest and is the digest its own
    /// case prescribes: a leaf's is the leaf digest of its value's bytes, a
    /// node's is the interior digest of its children's digests.
    pub open spec fn well_formed(self) -> bool
        decreases self,
    {
        match self {
            TreeElement::Leaf { value, hash } => {
                &&& hash@ == leaf_hash_of(value.bytes())
                &&& hash@.len() == 32
            },
            TreeElement::Node { left, right, hash } => {
                &&& left.well_formed()
                &&& right.well_formed()
                &&& hash@ == node_hash_of(left.spec_hash(), right.spec_hash())
                &&& hash@.len() == 32
            },
        }
    }

    /// A subtree holds at least one element and at least one leaf.
    pub proof fn lemma_size_pos(self)
        ensures
            self.size() >= 1,
            self.leaf_hashes().len() >= 1,
            self.values().len() == self.leaf_hashes().len(),
        decreases self,
    {
        match self {
            TreeElement::Leaf { .. } => {},
            TreeElement::Node { left, right, .. } => {
                left.lemma_size_pos();
                right.lemma_size_pos();
            },
        }
    }

    /// Returns the digest stored for this element.
    pub fn hash(&self) -> (r: &[u8])
        ensures
            r@ == self.spec_hash(),
    {
        match self {
            TreeElement::Leaf { hash, .. } => hash.as_slice(),
            TreeElement::Node { hash, .. } => hash.as_slice(),
        }
    }

    /// Produces a new leaf from a domain value, computing and storing the
    /// leaf digest of the value's bytes.
    pub fn new_leaf(value: T) -> (r: TreeElement<T>)
        ensures
            r.well_formed(),
            r.spec_hash() == leaf_hash_of(value.bytes()),
            r.leaf_hashes() == seq![leaf_hash_of(value.bytes())],
            r.values() == seq![value],
    {
        let hash = Hasher::hash_leaf(&value);
        TreeElement::Leaf { hash, value }
    }

    /// Produces a new internal node from two children, computing and storing
    /// the interior digest over the children's digests, left first, and
    /// taking ownership of both children.
    pub fn new_node(left: TreeElement<T>, right: TreeElement<T>) -> (r: TreeElement<T>)
        ensures
            left.well_formed() && right.well_formed() ==> r.well_formed(),
            r.spec_hash() == node_hash_of(left.spec_hash(), right.spec_hash()),
            r.leaf_hashes() == left.leaf_hashes() + right.leaf_hashes(),
            r.values() == left.values() + right.values(),
    {
        let hash = Hasher::hash_node_data(left.hash(), right.hash());
        TreeElement::Node { hash, left: Box::new(left), right: Box::new(right) }
    }
}

} // verus!
