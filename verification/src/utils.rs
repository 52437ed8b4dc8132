//! Hashing rules: a domain-separated leaf digest and interior-node digest
//! layered over a 256-bit digest function, and the capability by which a
//! domain type exposes the bytes that are hashed for it.

use vstd::prelude::*;

verus! {

/// The digest that the SHA-256 function returns for a byte sequence.  The
/// algorithm itself is not modelled: the digest of given bytes is a single
/// unspecified value, the same on every call.
pub uninterp spec fn sha256_of(data: Seq<u8>) -> Seq<u8>;

/// The bytes fed to the digest function for a leaf: the tag `LEAF` followed
/// by the leaf's own bytes.
pub open spec fn leaf_preimage(data: Seq<u8>) -> Seq<u8> {
    seq![76u8, 69u8, 65u8, 70u8] + data
}

/// The bytes fed to the digest function for an interior node: the tag `NODE`
/// followed by the left child's digest, then the right child's digest.
pub open spec fn node_preimage(left: Seq<u8>, right: Seq<u8>) -> Seq<u8> {
    seq![78u8, 79u8, 68u8, 69u8] + left + right
}

/// The digest stored for a leaf whose value has the given bytes.
pub open spec fn leaf_hash_of(data: Seq<u8>) -> Seq<u8> {
    sha256_of(leaf_preimage(data))
}

/// The digest stored for an interior node over two child digests, left first.
pub open spec fn node_hash_of(left: Seq<u8>, right: Seq<u8>) -> Seq<u8> {
    sha256_of(node_preimage(left, right))
}

/// Law: domain separation.  The digest input built for a leaf can never be
/// the digest input built for an interior node, whatever bytes the leaf holds
/// and whatever two digests the node combines, because the two constructions
/// begin with different tags.  Leaf and node digests therefore cannot collide
/// unless the digest function itself collides on distinct inputs.
pub proof fn lemma_domain_separation(data: Seq<u8>, left: Seq<u8>, right: Seq<u8>)
    ensures
        leaf_preimage(data) != node_preimage(left, right),
{
    assert(leaf_preimage(data)[0] == 76u8);
    assert(node_preimage(left, right)[0] == 78u8);
}

/// Relies on `crypto_hash::digest` with the SHA-256 algorithm: it returns the
/// 32-byte SHA-256 digest of the input, a deterministic function of the input
/// bytes alone.  (The call aborts if the platform's cryptographic library
/// fails to initialise; it returns no wrong digest.)
#[verifier::external_body]
fn sha256(data: &[u8]) -> (r: Vec<u8>)
    ensures
        r@ == sha256_of(data@),
        r@.len() == 32,
{
    crypto_hash::digest(crypto_hash::Algorithm::SHA256, data)
}

/// The capability by which a domain type joins a tree: it exposes a byte
/// view of itself, and those bytes are what its leaf digest commits to.
pub trait Hashable: Sized {
    /// The byte sequence that this value hashes as.
    spec fn bytes(&self) -> Seq<u8>;

    /// The representation of the value as an array of bytes.
    fn get_bytes(&self) -> (r: &[u8])
        ensures
            r@ == self.bytes(),
    ;
}

impl Hashable for String {
    open spec fn bytes(&self) -> Seq<u8> {
        vstd::utf8::encode_utf8(self@)
    }

    fn get_bytes(&self) -> (r: &[u8]) {
        self.as_str().as_bytes()
    }
}

impl Hashable for Vec<u8> {
    open spec fn bytes(&self) -> Seq<u8> {
        self@
    }

    fn get_bytes(&self) -> (r: &[u8]) {
        self.as_slice()
    }
}

/// Helper structure with the single purpose of serving the hashing of data.
#[derive(Debug, Clone, Copy)]
pub struct Hasher;

impl Hasher {
    /// The leaf digest of the given bytes.
    pub fn hash_leaf_data(data: &[u8]) -> (r: Vec<u8>)
        ensures
            r@ == leaf_hash_of(data@),
            r@.len() == 32,
    {
        Hasher::gen_leaf_hash(data)
    }

    /// The leaf digest of a `Hashable` value's bytes.
    pub fn hash_leaf<T: Hashable>(data: &T) -> (r: Vec<u8>)
        ensures
            r@ == leaf_hash_of(data.bytes()),
            r@.len() == 32,
    {
        Hasher::gen_leaf_hash(data.get_bytes())
    }

    fn gen_leaf_hash(data: &[u8]) -> (r: Vec<u8>)
        ensures
            r@ == leaf_hash_of(data@),
            r@.len() == 32,
    {
        let mut buffer: Vec<u8> = Vec::new();
        buffer.push(76);
        buffer.push(69);
        buffer.push(65);
        buffer.push(70);
        buffer.extend_from_slice(data);
        assert(buffer@ =~= leaf_preimage(data@));
        sha256(buffer.as_slice())
    }

    /// The interior-node digest over two child digests, left first.
    pub fn hash_node_data(left: &[u8], right: &[u8]) -> (r: Vec<u8>)
        ensures
            r@ == node_hash_of(left@, right@),
            r@.len() == 32,
    {
        let mut buffer: Vec<u8> = Vec::new();
        buffer.push(78);
        buffer.push(79);
        buffer.push(68);
        buffer.push(69);
        buffer.extend_from_slice(left);
        buffer.extend_from_slice(right);
        assert(buffer@ =~= node_preimage(left@, right@));
        sha256(buffer.as_slice())
    }
}

} // verus!
