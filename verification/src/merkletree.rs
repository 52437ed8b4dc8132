//! Construction of the tree from an ordered sequence of items, the read
//! surface of a built tree, and proof generation.

use std::collections::VecDeque;

use vstd::arithmetic::power2::lemma_pow2_unfold;
use vstd::arithmetic::power2::pow2;
use vstd::prelude::*;
use vstd::slice::slice_to_vec;

use crate::inclusion::PathItem;
use crate::inclusion::Proof;
use crate::treeelement::TreeElement;
use crate::utils::Hashable;
use crate::utils::Hasher;
use crate::utils::leaf_hash_of;
use crate::utils::node_hash_of;

verus! {

/// The byte views of a sequence of hashable values, in order.
pub open spec fn bytes_seq<T: Hashable>(data: Seq<T>) -> Seq<Seq<u8>> {
    data.map(|i: int, v: T| v.bytes())
}

/// The leaf digests of a sequence of byte views, in order: layer zero of the
/// construction.
pub open spec fn leaf_digests(bytes: Seq<Seq<u8>>) -> Seq<Seq<u8>> {
    bytes.map(|i: int, b: Seq<u8>| leaf_hash_of(b))
}

/// One aggregation round over a layer of digests: pairs are combined left to
/// right into interior digests, and an unpaired last digest is carried
/// forward unchanged, not paired with itself.
pub open spec fn combine_layer(layer: Seq<Seq<u8>>) -> Seq<Seq<u8>>
    decreases layer.len(),
{
    if layer.len() < 2 {
        layer
    } else {
        seq![node_hash_of(layer[0], layer[1])] + combine_layer(layer.skip(2))
    }
}

/// One aggregation round leaves the ceiling of half as many digests.
pub proof fn lemma_combine_layer_len(layer: Seq<Seq<u8>>)
    ensures
        combine_layer(layer).len() == (layer.len() + 1) / 2,
    decreases layer.len(),
{
    if layer.len() >= 2 {
        lemma_combine_layer_len(layer.skip(2));
    }
}

/// The digest that repeated aggregation rounds produce from a non-empty
/// layer of digests: the root commitment to that layer.
pub open spec fn root_digest_of(layer: Seq<Seq<u8>>) -> Seq<u8>
    recommends
        layer.len() >= 1,
    decreases layer.len(),
    via root_digest_of_decreases
{
    if layer.len() <= 1 {
        layer[0]
    } else {
        root_digest_of(combine_layer(layer))
    }
}

#[via_fn]
proof fn root_digest_of_decreases(layer: Seq<Seq<u8>>) {
    lemma_combine_layer_len(layer);
}

/// The ceiling of the base-two logarithm, as the number of pairing rounds
/// that reduce a layer of the given size to a single element.
pub open spec fn clog2(n: nat) -> nat
    decreases n,
{
    if n <= 1 {
        0
    } else {
        (1 + clog2((n + 1) / 2)) as nat
    }
}

/// The number of aggregation rounds never exceeds the number of leaves.
pub proof fn lemma_clog2_le(n: nat)
    ensures
        clog2(n) <= n,
    decreases n,
{
    if n >= 2 {
        lemma_clog2_le((n + 1) / 2);
    }
}

/// Law: a tree of `n` leaves has height `ceil(log2(n))`: the smallest `h`
/// with `pow2(h) >= n` is `clog2(n)`.
pub proof fn lemma_height_is_ceil_log2(n: nat)
    requires
        n >= 1,
    ensures
        pow2(clog2(n)) >= n,
        n >= 2 ==> pow2((clog2(n) - 1) as nat) < n,
    decreases n,
{
    vstd::arithmetic::power2::lemma2_to64();
    if n >= 2 {
        let m = (n + 1) / 2;
        lemma_height_is_ceil_log2(m);
        assert(clog2(n) == 1 + clog2(m));
        lemma_pow2_unfold(clog2(n));
        assert(pow2(clog2(n)) == 2 * pow2(clog2(m)));
        assert(2 * pow2(clog2(m)) >= 2 * m);
        assert(2 * m >= n);
        if m >= 2 {
            lemma_pow2_unfold(clog2(m));
            assert(pow2(clog2(m)) == 2 * pow2((clog2(m) - 1) as nat));
            assert(pow2((clog2(m) - 1) as nat) <= m - 1);
            assert(pow2(clog2(m)) <= 2 * m - 2);
            assert(2 * m - 2 < n);
        } else {
            assert(m == 1);
            assert(n == 2);
            assert(clog2(n) == 1);
            assert(pow2(0) == 1) by {
                vstd::arithmetic::power2::lemma2_to64();
            }
        }
    }
}

/// The stored digests of a layer of elements, in order.
spec fn layer_hashes<T: Hashable>(layer: Seq<TreeElement<T>>) -> Seq<Seq<u8>> {
    layer.map(|i: int, e: TreeElement<T>| e.spec_hash())
}

/// The leaf digests beneath a layer of elements, leftmost first.
spec fn layer_leaf_hashes<T: Hashable>(layer: Seq<TreeElement<T>>) -> Seq<Seq<u8>>
    decreases layer.len(),
{
    if layer.len() == 0 {
        Seq::empty()
    } else {
        layer[0].leaf_hashes() + layer_leaf_hashes(layer.drop_first())
    }
}

/// The domain values beneath a layer of elements, leftmost first.
spec fn layer_values<T: Hashable>(layer: Seq<TreeElement<T>>) -> Seq<T>
    decreases layer.len(),
{
    if layer.len() == 0 {
        Seq::empty()
    } else {
        layer[0].values() + layer_values(layer.drop_first())
    }
}

/// Every element of a layer is well formed.
spec fn layer_well_formed<T: Hashable>(layer: Seq<TreeElement<T>>) -> bool {
    forall|i: int| 0 <= i < layer.len() ==> (#[trigger] layer[i]).well_formed()
}

/// Appending an element appends its leaf digests and values.
proof fn lemma_layer_push<T: Hashable>(layer: Seq<TreeElement<T>>, e: TreeElement<T>)
    ensures
        layer_leaf_hashes(layer.push(e)) == layer_leaf_hashes(layer) + e.leaf_hashes(),
        layer_values(layer.push(e)) == layer_values(layer) + e.values(),
    decreases layer.len(),
{
    if layer.len() == 0 {
        assert(layer.push(e)[0] == e);
        assert(layer.push(e).drop_first() =~= Seq::<TreeElement<T>>::empty());
        assert(layer_leaf_hashes(layer.push(e).drop_first()) =~= Seq::<Seq<u8>>::empty());
        assert(layer_values(layer.push(e).drop_first()) =~= Seq::<T>::empty());
        assert(layer_leaf_hashes(layer) =~= Seq::<Seq<u8>>::empty());
        assert(layer_values(layer) =~= Seq::<T>::empty());
        assert(layer_leaf_hashes(layer.push(e)) =~= layer_leaf_hashes(layer) + e.leaf_hashes());
        assert(layer_values(layer.push(e)) =~= layer_values(layer) + e.values());
    } else {
        lemma_layer_push(layer.drop_first(), e);
        assert(layer.push(e).drop_first() =~= layer.drop_first().push(e));
        assert(layer.push(e)[0] == layer[0]);
        assert(layer_leaf_hashes(layer.push(e).drop_first()) == layer_leaf_hashes(
            layer.drop_first(),
        ) + e.leaf_hashes());
        assert(layer_leaf_hashes(layer.push(e)) == layer[0].leaf_hashes() + (layer_leaf_hashes(
            layer.drop_first(),
        ) + e.leaf_hashes()));
        assert(layer_leaf_hashes(layer) == layer[0].leaf_hashes() + layer_leaf_hashes(
            layer.drop_first(),
        ));
        assert(layer_leaf_hashes(layer.push(e)) =~= layer_leaf_hashes(layer) + e.leaf_hashes());
        assert(layer_values(layer.push(e).drop_first()) == layer_values(layer.drop_first())
            + e.values());
        assert(layer_values(layer.push(e)) == layer[0].values() + (layer_values(
            layer.drop_first(),
        ) + e.values()));
        assert(layer_values(layer) == layer[0].values() + layer_values(layer.drop_first()));
        assert(layer_values(layer.push(e)) =~= layer_values(layer) + e.values());
    }
}

/// A layer of two or more elements splits as its first two and the rest.
proof fn lemma_layer_skip2<T: Hashable>(layer: Seq<TreeElement<T>>)
    requires
        layer.len() >= 2,
    ensures
        layer_leaf_hashes(layer) == (layer[0].leaf_hashes() + layer[1].leaf_hashes())
            + layer_leaf_hashes(layer.skip(2)),
        layer_values(layer) == (layer[0].values() + layer[1].values()) + layer_values(
            layer.skip(2),
        ),
{
    assert(layer.drop_first()[0] == layer[1]);
    assert(layer.drop_first().drop_first() =~= layer.skip(2));
    assert(layer_leaf_hashes(layer.drop_first()) == layer[1].leaf_hashes() + layer_leaf_hashes(
        layer.skip(2),
    ));
    assert(layer_leaf_hashes(layer) == layer[0].leaf_hashes() + (layer[1].leaf_hashes()
        + layer_leaf_hashes(layer.skip(2))));
    assert(layer_leaf_hashes(layer) =~= (layer[0].leaf_hashes() + layer[1].leaf_hashes())
        + layer_leaf_hashes(layer.skip(2)));
    assert(layer_values(layer.drop_first()) == layer[1].values() + layer_values(layer.skip(2)));
    assert(layer_values(layer) == layer[0].values() + (layer[1].values() + layer_values(
        layer.skip(2),
    )));
    assert(layer_values(layer) =~= (layer[0].values() + layer[1].values()) + layer_values(
        layer.skip(2),
    ));
}

/// Holds the root element of a built tree together with the element count
/// and the height (the number of aggregation rounds performed).
#[derive(Debug)]
pub struct MerkleTree<T> where T: Hashable {
    root: TreeElement<T>,
    count: usize,
    height: usize,
}

impl<T> MerkleTree<T> where T: Hashable {
    /// The root element.
    pub closed spec fn spec_root(self) -> TreeElement<T> {
        self.root
    }

    /// The number of leaves: one per input item.
    pub closed spec fn spec_count(self) -> nat {
        self.count as nat
    }

    /// The number of aggregation rounds performed during construction.
    pub closed spec fn spec_height(self) -> nat {
        self.height as nat
    }

    /// The root digest: the commitment to the whole input sequence.
    pub open spec fn spec_root_hash(self) -> Seq<u8> {
        self.spec_root().spec_hash()
    }

    /// The digests of the tree's leaves, in input order.
    pub open spec fn spec_leaf_hashes(self) -> Seq<Seq<u8>> {
        self.spec_root().leaf_hashes()
    }

    /// The domain values owned by the tree's leaves, in input order.
    pub open spec fn spec_values(self) -> Seq<T> {
        self.spec_root().values()
    }

    /// The invariant of every constructed tree: the root's stored digests
    /// all follow the hashing rules, the count is the number of leaves and
    /// is at least one, and the height is the ceiling of the base-two
    /// logarithm of the count.  Construction upholds it, and no mutation
    /// exists after construction.
    #[verifier::type_invariant]
    pub open spec fn well_formed(self) -> bool {
        &&& self.spec_root().well_formed()
        &&& self.spec_count() == self.spec_leaf_hashes().len()
        &&& self.spec_count() >= 1
        &&& self.spec_height() == clog2(self.spec_count())
    }

    /// Total amount of elements in the tree: at least one, since a tree is
    /// only ever constructed from a non-empty input.
    pub fn count(&self) -> (r: usize)
        ensures
            r == self.spec_count(),
            r >= 1,
    {
        proof {
            use_type_invariant(&*self);
        }
        self.count
    }

    /// Whether the tree is empty; a constructed tree never is.
    pub fn is_empty(&self) -> (r: bool)
        ensures
            r == (self.spec_count() == 0),
            !r,
    {
        proof {
            use_type_invariant(&*self);
        }
        self.count == 0
    }

    /// The height (number of aggregation rounds) of the tree.
    pub fn height(&self) -> (r: usize)
        ensures
            r == self.spec_height(),
    {
        self.height
    }

    /// The digest of the root element: a 256-bit (32-byte) digest.
    pub fn root_hash(&self) -> (r: &[u8])
        ensures
            r@ == self.spec_root_hash(),
            r@.len() == 32,
    {
        proof {
            use_type_invariant(&*self);
        }
        self.root.hash()
    }

    /// Produces a tree from a vector of hashable items.  An empty vector
    /// yields absence; otherwise the tree commits to exactly the given
    /// items in their given order: its count is the input length, its
    /// height is the ceiling of the base-two logarithm of the count, its
    /// leaves hold the input values and their leaf digests in input order,
    /// and its root digest is the layered aggregation of those leaf digests.
    pub fn from_vector(data: Vec<T>) -> (r: Option<Self>)
        ensures
            match r {
                Option::Some(tree) => {
                    &&& data@.len() >= 1
                    &&& tree.well_formed()
                    &&& tree.spec_count() == data@.len()
                    &&& tree.spec_height() == clog2(data@.len() as nat)
                    &&& tree.spec_values() == data@
                    &&& tree.spec_leaf_hashes() == leaf_digests(bytes_seq(data@))
                    &&& tree.spec_root_hash() == root_digest_of(leaf_digests(bytes_seq(data@)))
                },
                Option::None => data@.len() == 0,
            },
    {
        let count = data.len();
        if count == 0 {
            return None;
        }
        let ghost input = data@;

        let mut data = data;
        let mut height: usize = 0;
        let mut src: VecDeque<TreeElement<T>> = VecDeque::with_capacity(count);

        // create first layer of leaves
        while data.len() > 0
            invariant
                src@.len() + data@.len() == input.len(),
                layer_well_formed(src@),
                layer_values(src@) + data@ == input,
                layer_hashes(src@) == leaf_digests(bytes_seq(layer_values(src@))),
                layer_leaf_hashes(src@) == layer_hashes(src@),
            decreases data@.len(),
        {
            let ghost src_before = src@;
            let ghost data_before = data@;
            let val = data.remove(0);
            let leaf = TreeElement::new_leaf(val);
            src.push_back(leaf);
            proof {
                lemma_layer_push(src_before, leaf);
                assert(seq![val] + data@ =~= data_before);
                assert((layer_values(src_before) + seq![val]) + data@ =~= layer_values(src_before)
                    + data_before);
                assert(layer_hashes(src@) =~= layer_hashes(src_before).push(leaf.spec_hash()));
                assert(layer_hashes(src@) =~= leaf_digests(bytes_seq(layer_values(src@))));
                assert(layer_leaf_hashes(src@) =~= layer_hashes(src@));
            }
        }

        proof {
            assert(layer_values(src@) + data@ =~= layer_values(src@));
            assert(layer_values(src@) == input);
            assert(leaf_digests(bytes_seq(input)).len() == input.len());
        }

        // build the tree without recursion, layer by layer
        while src.len() > 1
            invariant
                src@.len() >= 1,
                layer_well_formed(src@),
                layer_values(src@) == input,
                layer_leaf_hashes(src@) == leaf_digests(bytes_seq(input)),
                root_digest_of(layer_hashes(src@)) == root_digest_of(
                    leaf_digests(bytes_seq(input)),
                ),
                height + clog2(src@.len() as nat) == clog2(input.len() as nat),
                input.len() <= usize::MAX,
            decreases src@.len(),
        {
            let ghost src0 = src@;
            let mut new_layer: VecDeque<TreeElement<T>> = VecDeque::with_capacity(src.len() / 2);

            while src.len() > 0
                invariant
                    layer_well_formed(new_layer@),
                    layer_well_formed(src@),
                    layer_hashes(new_layer@) + combine_layer(layer_hashes(src@)) == combine_layer(
                        layer_hashes(src0),
                    ),
                    layer_leaf_hashes(new_layer@) + layer_leaf_hashes(src@) == layer_leaf_hashes(
                        src0,
                    ),
                    layer_values(new_layer@) + layer_values(src@) == layer_values(src0),
                decreases src@.len(),
            {
                let ghost new_before = new_layer@;
                let ghost src_before = src@;
                // check for the case when one element only remains - promote it
                if src.len() == 1 {
                    let elem = src.pop_front().unwrap();
                    new_layer.push_back(elem);
                    proof {
                        lemma_layer_push(new_before, elem);
                        assert(src@ =~= Seq::<TreeElement<T>>::empty());
                        assert(layer_hashes(src@) =~= Seq::<Seq<u8>>::empty());
                        assert(layer_hashes(new_layer@) =~= layer_hashes(new_before).push(
                            elem.spec_hash(),
                        ));
                        assert(combine_layer(layer_hashes(src_before)) =~= seq![elem.spec_hash()]);
                        assert(layer_hashes(new_layer@) + combine_layer(layer_hashes(src@))
                            =~= layer_hashes(new_before) + combine_layer(
                            layer_hashes(src_before),
                        ));
                        assert(layer_leaf_hashes(src_before) =~= elem.leaf_hashes()
                            + layer_leaf_hashes(src@));
                        assert(layer_leaf_hashes(new_layer@) + layer_leaf_hashes(src@)
                            =~= layer_leaf_hashes(new_before) + layer_leaf_hashes(src_before));
                        assert(layer_values(src_before) =~= elem.values() + layer_values(src@));
                        assert(layer_values(new_layer@) + layer_values(src@) =~= layer_values(
                            new_before,
                        ) + layer_values(src_before));
                    }
                } else {
                    // take two elements and produce a node above them
                    let left_node = src.pop_front().unwrap();
                    let right_node = src.pop_front().unwrap();
                    let node = TreeElement::new_node(left_node, right_node);
                    new_layer.push_back(node);
                    proof {
                        lemma_layer_push(new_before, node);
                        lemma_layer_skip2(src_before);
                        assert(src@ =~= src_before.skip(2));
                        assert(layer_hashes(src@) =~= layer_hashes(src_before).skip(2));
                        assert(layer_hashes(src_before)[0] == left_node.spec_hash());
                        assert(layer_hashes(src_before)[1] == right_node.spec_hash());
                        assert(combine_layer(layer_hashes(src_before)) == seq![node.spec_hash()]
                            + combine_layer(layer_hashes(src@)));
                        assert(layer_hashes(new_layer@) =~= layer_hashes(new_before).push(
                            node.spec_hash(),
                        ));
                        assert(layer_hashes(new_layer@) + combine_layer(layer_hashes(src@))
                            =~= layer_hashes(new_before) + combine_layer(
                            layer_hashes(src_before),
                        ));
                        assert(layer_leaf_hashes(new_layer@) + layer_leaf_hashes(src@)
                            =~= layer_leaf_hashes(new_before) + layer_leaf_hashes(src_before));
                        assert(layer_values(new_layer@) + layer_values(src@) =~= layer_values(
                            new_before,
                        ) + layer_values(src_before));
                    }
                }
            }
            // the layer is fully processed: one more aggregation round is done
            proof {
                assert(layer_hashes(new_layer@) + combine_layer(layer_hashes(src@))
                    =~= layer_hashes(new_layer@));
                assert(layer_hashes(new_layer@) == combine_layer(layer_hashes(src0)));
                lemma_combine_layer_len(layer_hashes(src0));
                assert(layer_hashes(src0).len() == src0.len());
                assert(new_layer@.len() == (src0.len() + 1) / 2);
                assert(layer_leaf_hashes(new_layer@) + layer_leaf_hashes(src@)
                    =~= layer_leaf_hashes(new_layer@));
                assert(layer_values(new_layer@) + layer_values(src@) =~= layer_values(new_layer@));
                assert(root_digest_of(combine_layer(layer_hashes(src0))) == root_digest_of(
                    layer_hashes(src0),
                ));
                lemma_clog2_le(input.len() as nat);
                assert(clog2(src0.len() as nat) == 1 + clog2(new_layer@.len() as nat));
            }
            height = height + 1;
            src = new_layer;
        }

        // the one remaining element is the root node
        let ghost src_final = src@;
        let root = src.pop_back().unwrap();
        proof {
            assert(root == src_final[0]);
            assert(layer_hashes(src_final)[0] == root.spec_hash());
            assert(root_digest_of(layer_hashes(src_final)) == root.spec_hash());
            assert(src_final.drop_first() =~= Seq::<TreeElement<T>>::empty());
            assert(layer_leaf_hashes(src_final.drop_first()) =~= Seq::<Seq<u8>>::empty());
            assert(layer_values(src_final.drop_first()) =~= Seq::<T>::empty());
            assert(layer_leaf_hashes(src_final) =~= root.leaf_hashes());
            assert(layer_values(src_final) =~= root.values());
            root.lemma_size_pos();
        }

        Some(MerkleTree { root, count, height })
    }

    /// Generates the proof of inclusion for a candidate value: present if
    /// and only if the value's leaf digest is among the tree's leaf digests,
    /// and then a self-contained proof that validates against this tree's
    /// root digest and ends at that leaf digest.
    pub fn get_proof(&self, value: T) -> (r: Option<Proof<T>>)
        ensures
            match r {
                Option::Some(p) => {
                    &&& self.spec_leaf_hashes().contains(leaf_hash_of(value.bytes()))
                    &&& p.value == value
                    &&& p.valid_for(self.spec_root_hash())
                    &&& p.path.spec_leaf_hash() == leaf_hash_of(value.bytes())
                    &&& p.path.is_leftmost_path(self.spec_root(), leaf_hash_of(value.bytes()))
                },
                Option::None => !self.spec_leaf_hashes().contains(leaf_hash_of(value.bytes())),
            },
    {
        proof {
            use_type_invariant(&*self);
        }
        // digest the candidate exactly as a leaf would be digested
        let calculated_hash = Hasher::hash_leaf_data(value.get_bytes());
        // and capture the root digest of this tree
        let root_hash = slice_to_vec(self.root_hash());

        match PathItem::create_path(&self.root, calculated_hash.as_slice()) {
            Some(path) => Some(Proof::new(value, root_hash, path)),
            None => None,
        }
    }
}

/// Law: construction is deterministic.  Two trees whose root digests were
/// both produced by aggregating the leaf digests of the same byte sequences
/// carry the same root digest.
pub proof fn lemma_root_deterministic<T: Hashable>(
    a: MerkleTree<T>,
    b: MerkleTree<T>,
    bytes: Seq<Seq<u8>>,
)
    requires
        a.spec_root_hash() == root_digest_of(leaf_digests(bytes)),
        b.spec_root_hash() == root_digest_of(leaf_digests(bytes)),
    ensures
        a.spec_root_hash() == b.spec_root_hash(),
{
}

/// Law: odd layers promote their unpaired last digest.  Over three leaf
/// digests, the first two are paired and the third is carried into the next
/// layer unchanged — not paired with itself, not hashed again — so the root
/// joins the pair's digest with the third digest as it stands.
pub proof fn lemma_odd_layer_promotion(a: Seq<u8>, b: Seq<u8>, c: Seq<u8>)
    ensures
        root_digest_of(seq![a, b, c]) == node_hash_of(node_hash_of(a, b), c),
{
    let layer0 = seq![a, b, c];
    let layer1 = seq![node_hash_of(a, b), c];
    let layer2 = seq![node_hash_of(node_hash_of(a, b), c)];
    assert(layer0.skip(2) =~= seq![c]);
    assert(combine_layer(seq![c]) == seq![c]);
    assert(combine_layer(layer0) =~= layer1);
    assert(layer1.skip(2) =~= Seq::<Seq<u8>>::empty());
    assert(combine_layer(Seq::<Seq<u8>>::empty()) == Seq::<Seq<u8>>::empty());
    assert(combine_layer(layer1) =~= layer2);
    assert(root_digest_of(layer2) == layer2[0]);
    assert(root_digest_of(layer1) == root_digest_of(layer2));
    assert(root_digest_of(layer0) == root_digest_of(layer1));
}

/// Law: every item of the input sequence is included.  The leaf digest of
/// each input item is among the leaf digests of a tree built from that
/// input, so a proof request for the item cannot come back absent.
pub proof fn lemma_input_included<T: Hashable>(tree: MerkleTree<T>, data: Seq<T>, i: int)
    requires
        tree.spec_leaf_hashes() == leaf_digests(bytes_seq(data)),
        0 <= i < data.len(),
    ensures
        tree.spec_leaf_hashes().contains(leaf_hash_of(data[i].bytes())),
{
    assert(leaf_digests(bytes_seq(data))[i] == leaf_hash_of(data[i].bytes()));
}

} // verus!
