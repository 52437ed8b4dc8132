//! Inclusion proofs: the root-to-leaf path of sibling digests built by
//! searching the tree, and its verification by replaying the hash
//! aggregation along the path.

use vstd::prelude::*;
use vstd::slice::slice_to_vec;

use crate::treeelement::TreeElement;
use crate::utils::Hashable;
use crate::utils::Hasher;
use crate::utils::node_hash_of;

verus! {

/// Encapsulates the position of a sibling digest relative to the proof
/// path's continuation.
#[derive(Debug)]
pub enum Position<T> {
    /// The sibling stands to the left of the path's continuation.
    Left(T),
    /// The sibling stands to the right of the path's continuation.
    Right(T),
}

/// One level of an inclusion-proof path: the digest of the node at this
/// level, the sibling digest with its position (absent exactly at the
/// matched leaf), and the next item one level closer to the leaf (absent
/// exactly at the matched leaf).
#[derive(Debug)]
pub struct PathItem {
    /// Digest of the node at this level.
    pub hash: Vec<u8>,
    /// Digest of the sibling, if any, tagged with its position.
    pub sibling_hash: Option<Position<Vec<u8>>>,
    /// The next item, one level closer to the leaf.
    pub sub_item: Option<Box<PathItem>>,
}

impl PathItem {
    /// The path replays correctly: at every level with a continuation, this
    /// level's digest is the interior digest of the child's digest and the
    /// sibling's digest, combined in the order the sibling's position
    /// dictates; the terminal item carries no sibling.
    pub open spec fn replays(self) -> bool
        decreases self,
    {
        match self.sub_item {
            Option::Some(child) => match self.sibling_hash {
                Option::Some(Position::Left(s)) => {
                    &&& self.hash@ == node_hash_of(s@, child.hash@)
                    &&& child.replays()
                },
                Option::Some(Position::Right(s)) => {
                    &&& self.hash@ == node_hash_of(child.hash@, s@)
                    &&& child.replays()
                },
                Option::None => false,
            },
            Option::None => self.sibling_hash is None,
        }
    }

    /// The digest at the terminal (leaf) end of the path.
    pub open spec fn spec_leaf_hash(self) -> Seq<u8>
        decreases self,
    {
        match self.sub_item {
            Option::Some(child) => child.spec_leaf_hash(),
            Option::None => self.hash@,
        }
    }

    /// The path records the left-first search for `target` through `node`:
    /// at each level whose left subtree holds the target the path descends
    /// left and records the right child's digest as a Right sibling; only
    /// otherwise does it descend right, recording the left child's digest as
    /// a Left sibling.  When duplicate digests exist, the path so described
    /// ends at the leftmost matching leaf.
    pub open spec fn is_leftmost_path<T: Hashable>(
        self,
        node: TreeElement<T>,
        target: Seq<u8>,
    ) -> bool
        decreases node,
    {
        match node {
            TreeElement::Leaf { hash, .. } => {
                &&& self.hash@ == hash@
                &&& self.sibling_hash is None
                &&& self.sub_item is None
            },
            TreeElement::Node { left, right, hash } => {
                &&& self.hash@ == hash@
                &&& match self.sub_item {
                    Option::Some(child) => {
                        if left.leaf_hashes().contains(target) {
                            &&& (self.sibling_hash matches Option::Some(Position::Right(s))
                                && s@ == right.spec_hash())
                            &&& child.is_leftmost_path(*left, target)
                        } else {
                            &&& (self.sibling_hash matches Option::Some(Position::Left(s))
                                && s@ == left.spec_hash())
                            &&& child.is_leftmost_path(*right, target)
                        }
                    },
                    Option::None => false,
                }
            },
        }
    }

    /// Searches the subtree for a leaf storing `hash_to_find` and builds the
    /// path to the leftmost such leaf: present if and only if some leaf of
    /// the subtree stores that digest, and then a path that replays from the
    /// sought digest up to this subtree's own digest.
    pub fn create_path<T: Hashable>(node: &TreeElement<T>, hash_to_find: &[u8]) -> (r: Option<
        PathItem,
    >)
        requires
            node.well_formed(),
        ensures
            match r {
                Option::Some(item) => {
                    &&& node.leaf_hashes().contains(hash_to_find@)
                    &&& item.replays()
                    &&& item.hash@ == node.spec_hash()
                    &&& item.spec_leaf_hash() == hash_to_find@
                    &&& item.is_leftmost_path(*node, hash_to_find@)
                },
                Option::None => !node.leaf_hashes().contains(hash_to_find@),
            },
        decreases node.size(),
    {
        match node {
            TreeElement::Node { left, right, hash } => {
                proof {
                    left.lemma_size_pos();
                    right.lemma_size_pos();
                }
                PathItem::new_node_proof(hash.as_slice(), hash_to_find, left, right)
            },
            TreeElement::Leaf { hash, .. } => {
                let r = PathItem::new_leaf_proof(hash.as_slice(), hash_to_find);
                proof {
                    if r is Some {
                        assert(node.leaf_hashes()[0] == hash_to_find@);
                    }
                }
                r
            },
        }
    }

    /// Builds the terminal path item for a leaf: present if and only if the
    /// leaf's stored digest is the sought digest.
    fn new_leaf_proof(hash: &[u8], hash_to_find: &[u8]) -> (r: Option<PathItem>)
        ensures
            match r {
                Option::Some(item) => {
                    &&& hash@ == hash_to_find@
                    &&& item.replays()
                    &&& item.hash@ == hash@
                    &&& item.sibling_hash is None
                    &&& item.sub_item is None
                    &&& item.spec_leaf_hash() == hash_to_find@
                },
                Option::None => hash@ != hash_to_find@,
            },
    {
        if slices_equal(hash, hash_to_find) {
            Some(PathItem { hash: slice_to_vec(hash), sibling_hash: None, sub_item: None })
        } else {
            None
        }
    }

    /// Builds the path item for an internal node: the left child is searched
    /// first, so duplicate digests resolve to the leftmost matching leaf; the
    /// untaken child's digest is recorded as the sibling, tagged with its
    /// position relative to the path taken.
    fn new_node_proof<T: Hashable>(
        hash: &[u8],
        hash_to_find: &[u8],
        left: &TreeElement<T>,
        right: &TreeElement<T>,
    ) -> (r: Option<PathItem>)
        requires
            left.well_formed(),
            right.well_formed(),
            hash@ == node_hash_of(left.spec_hash(), right.spec_hash()),
        ensures
            match r {
                Option::Some(item) => {
                    &&& (left.leaf_hashes() + right.leaf_hashes()).contains(hash_to_find@)
                    &&& item.replays()
                    &&& item.hash@ == hash@
                    &&& item.spec_leaf_hash() == hash_to_find@
                    &&& match item.sub_item {
                        Option::Some(child) => {
                            if left.leaf_hashes().contains(hash_to_find@) {
                                &&& (item.sibling_hash matches Option::Some(Position::Right(s))
                                    && s@ == right.spec_hash())
                                &&& child.is_leftmost_path(*left, hash_to_find@)
                            } else {
                                &&& (item.sibling_hash matches Option::Some(Position::Left(s))
                                    && s@ == left.spec_hash())
                                &&& child.is_leftmost_path(*right, hash_to_find@)
                            }
                        },
                        Option::None => false,
                    }
                },
                Option::None => !(left.leaf_hashes() + right.leaf_hashes()).contains(
                    hash_to_find@,
                ),
            },
        decreases left.size() + right.size(),
    {
        proof {
            left.lemma_size_pos();
            right.lemma_size_pos();
        }
        let from_left = PathItem::create_path(left, hash_to_find);
        match from_left {
            Some(item) => {
                proof {
                    lemma_concat_contains(left.leaf_hashes(), right.leaf_hashes(), hash_to_find@);
                }
                Some(
                    PathItem {
                        hash: slice_to_vec(hash),
                        sibling_hash: Some(Position::Right(slice_to_vec(right.hash()))),
                        sub_item: Some(Box::new(item)),
                    },
                )
            },
            None => {
                let from_right = PathItem::create_path(right, hash_to_find);
                match from_right {
                    Some(item) => {
                        proof {
                            lemma_concat_contains(
                                left.leaf_hashes(),
                                right.leaf_hashes(),
                                hash_to_find@,
                            );
                        }
                        Some(
                            PathItem {
                                hash: slice_to_vec(hash),
                                sibling_hash: Some(Position::Left(slice_to_vec(left.hash()))),
                                sub_item: Some(Box::new(item)),
                            },
                        )
                    },
                    None => {
                        proof {
                            lemma_concat_contains(
                                left.leaf_hashes(),
                                right.leaf_hashes(),
                                hash_to_find@,
                            );
                        }
                        None
                    },
                }
            },
        }
    }
}

/// Membership in a concatenation is membership in one of the parts.
proof fn lemma_concat_contains<A>(x: Seq<A>, y: Seq<A>, e: A)
    ensures
        (x + y).contains(e) <==> x.contains(e) || y.contains(e),
{
    if x.contains(e) {
        let i = choose|i: int| 0 <= i < x.len() && x[i] == e;
        assert((x + y)[i] == e);
    }
    if y.contains(e) {
        let i = choose|i: int| 0 <= i < y.len() && y[i] == e;
        assert((x + y)[i + x.len()] == e);
    }
    if (x + y).contains(e) {
        let i = choose|i: int| 0 <= i < (x + y).len() && (x + y)[i] == e;
        if i < x.len() {
            assert(x[i] == e);
        } else {
            assert(y[i - x.len()] == e);
        }
    }
}

/// Whether two byte slices hold the same bytes.
fn slices_equal(a: &[u8], b: &[u8]) -> (r: bool)
    ensures
        r == (a@ == b@),
{
    if a.len() != b.len() {
        proof {
            assert(a@.len() != b@.len());
        }
        return false;
    }
    let n = a.len();
    let mut i: usize = 0;
    while i < n
        invariant
            n == a@.len(),
            n == b@.len(),
            0 <= i <= n,
            forall|j: int| 0 <= j < i ==> a@[j] == b@[j],
        decreases n - i,
    {
        if a[i] != b[i] {
            return false;
        }
        i = i + 1;
    }
    proof {
        assert(a@ =~= b@);
    }
    true
}

/// Couples a candidate value, the root digest captured when the proof was
/// created, and the head of the proof path.  Once built, a proof is fully
/// self-contained and independent of the tree that produced it.
#[derive(Debug)]
pub struct Proof<T> {
    /// Value whose inclusion the proof attests.
    pub value: T,
    /// Root digest of the tree, captured at proof creation.
    pub root_hash: Vec<u8>,
    /// Starting point of the proof path, at root level.
    pub path: PathItem,
}

impl<T> Proof<T> {
    /// The proof validates against a claimed root digest: its own captured
    /// root digest is the claimed one, its head path item carries that same
    /// digest, and the whole path replays correctly.
    pub open spec fn valid_for(self, claimed_root: Seq<u8>) -> bool {
        &&& self.root_hash@ == claimed_root
        &&& self.path.hash@ == claimed_root
        &&& self.path.replays()
    }

    /// Produces a new proof from its parts.
    pub fn new(value: T, root_hash: Vec<u8>, path_item: PathItem) -> (r: Self)
        ensures
            r == (Proof { value, root_hash, path: path_item }),
    {
        Proof { value, root_hash, path: path_item }
    }

    /// Replays the proof path against a claimed root digest.  Returns true
    /// if and only if the proof's captured root digest and the head item's
    /// digest both equal the claimed digest and every level of the path
    /// replays; any mismatch, and any malformed path, yields false.
    pub fn validate(&self, root_hash: &[u8]) -> (r: bool)
        ensures
            r == self.valid_for(root_hash@),
    {
        if !slices_equal(root_hash, self.root_hash.as_slice()) || !slices_equal(
            self.path.hash.as_slice(),
            root_hash,
        ) {
            return false;
        }
        self.validate_recursive(&self.path)
    }

    fn validate_recursive(&self, path_item: &PathItem) -> (r: bool)
        ensures
            r == path_item.replays(),
        decreases path_item,
    {
        match &path_item.sub_item {
            Some(child) => match &path_item.sibling_hash {
                Some(Position::Left(sibling)) => {
                    let calculated = Hasher::hash_node_data(
                        sibling.as_slice(),
                        child.hash.as_slice(),
                    );
                    slices_equal(calculated.as_slice(), path_item.hash.as_slice())
                        && self.validate_recursive(child)
                },
                Some(Position::Right(sibling)) => {
                    let calculated = Hasher::hash_node_data(
                        child.hash.as_slice(),
                        sibling.as_slice(),
                    );
                    slices_equal(calculated.as_slice(), path_item.hash.as_slice())
                        && self.validate_recursive(child)
                },
                None => false,
            },
            None => path_item.sibling_hash.is_none(),
        }
    }
}

} // verus!
