use vstd::prelude::*;
use rs_merkle::{MerkleProof, MerkleTree};
use rs_merkle::algorithms::Sha256;

use crate::hashing::{hex_encode_lower, sha256_bytes};

verus! {

/// The 32-byte pieces of a byte string, in order (a trailing piece shorter
/// than 32 bytes is dropped).
pub open spec fn chunks32(b: Seq<u8>) -> Seq<Seq<u8>> {
    Seq::new(b.len() / 32, |i: int| b.subrange(32 * i, 32 * i + 32))
}

/// Every element is 32 bytes long.
pub open spec fn all_hash_sized(hs: Seq<Seq<u8>>) -> bool {
    forall|i: int| 0 <= i < hs.len() ==> (#[trigger] hs[i]).len() == 32
}

/// The views of an array of leaves.
pub open spec fn leaf_views(leaves: Seq<[u8; 32]>) -> Seq<Seq<u8>> {
    leaves.map_values(|a: [u8; 32]| a@)
}

/// The layer above a layer of a SHA-256 Merkle tree: each pair of nodes is
/// hashed together, left then right; an odd last node is carried up as it is.
pub open spec fn merkle_parent_layer(layer: Seq<Seq<u8>>) -> Seq<Seq<u8>> {
    Seq::new(
        ((layer.len() + 1) / 2) as nat,
        |i: int|
            if 2 * i + 1 < layer.len() {
                sha256_bytes(layer[2 * i] + layer[2 * i + 1])
            } else {
                layer[2 * i]
            },
    )
}

/// The root of the SHA-256 Merkle tree over the given leaves: the single
/// node that remains when layers are built one above the other (the empty
/// sequence for no leaves).
pub open spec fn merkle_root(leaves: Seq<Seq<u8>>) -> Seq<u8>
    decreases leaves.len(),
{
    if leaves.len() == 0 {
        Seq::empty()
    } else if leaves.len() == 1 {
        leaves[0]
    } else {
        merkle_root(merkle_parent_layer(leaves))
    }
}

/// A tree of one leaf has that leaf as its root.
pub proof fn lemma_single_leaf_root(leaf: Seq<u8>)
    ensures
        merkle_root(seq![leaf]) == leaf,
{
}

/// The hashes that prove the leaf at `index` against the root of the tree
/// over the given leaves.
pub uninterp spec fn merkle_proof_path(leaves: Seq<Seq<u8>>, index: usize) -> Seq<Seq<u8>>;

/// Whether the proof hashes lead from `leaf` at `index`, in a tree of `count`
/// leaves, to `root`.
pub uninterp spec fn merkle_verifies(
    hashes: Seq<Seq<u8>>,
    root: Seq<u8>,
    index: usize,
    leaf: Seq<u8>,
    count: usize,
) -> bool;

#[verifier::external_type_specification]
#[verifier::external_body]
pub struct ExMerkleError(rs_merkle::Error);

/// A SHA-256 Merkle tree of `rs_merkle`, held whole.
#[verifier::external_body]
pub struct LeafTree {
    inner: MerkleTree<Sha256>,
}

/// The leaves that a tree holds.
pub uninterp spec fn tree_leaves(t: LeafTree) -> Seq<Seq<u8>>;

/// A Merkle proof of `rs_merkle`, held whole.
#[verifier::external_body]
pub struct LeafProof {
    inner: MerkleProof<Sha256>,
}

/// The hashes that a proof holds.
pub uninterp spec fn proof_hashes(p: LeafProof) -> Seq<Seq<u8>>;

impl LeafTree {
    /// Calls `MerkleTree::<Sha256>::from_leaves`. The contract claims that the
    /// tree holds exactly the given leaves, in order, as the crate's source
    /// appends and commits them.
    #[verifier::external_body]
    pub(crate) fn from_leaves(leaves: &[[u8; 32]]) -> (t: LeafTree)
        ensures
            tree_leaves(t) == leaf_views(leaves@),
    {
        LeafTree { inner: MerkleTree::<Sha256>::from_leaves(leaves) }
    }

    /// Calls `MerkleTree::root_hex`. The contract claims what the crate's
    /// source shows: there is a root exactly when the tree has a leaf, and its
    /// text is the lower-case hexadecimal of the 32-byte root, built layer by
    /// layer with SHA-256 over each pair and the odd last node carried up.
    #[verifier::external_body]
    pub(crate) fn root_hex(&self) -> (r: Option<String>)
        ensures
            r is Some <==> tree_leaves(*self).len() > 0,
            r matches Some(s) ==> s@ == hex_encode_lower(merkle_root(tree_leaves(*self))),
            r matches Some(s) ==> s@.len() == 64,
    {
        self.inner.root_hex()
    }

    /// Calls `MerkleTree::proof` for one leaf index. The contract claims that
    /// the proof holds 32-byte hashes, names which ones, and claims what the
    /// crate documents of a proof of a leaf of the tree: it verifies that leaf
    /// at its index against the tree's root, for the tree's number of leaves.
    #[verifier::external_body]
    pub(crate) fn proof_for(&self, index: usize) -> (p: LeafProof)
        ensures
            proof_hashes(p) == merkle_proof_path(tree_leaves(*self), index),
            all_hash_sized(proof_hashes(p)),
            index < tree_leaves(*self).len() ==> merkle_verifies(
                proof_hashes(p),
                merkle_root(tree_leaves(*self)),
                index,
                tree_leaves(*self)[index as int],
                tree_leaves(*self).len() as usize,
            ),
    {
        LeafProof { inner: self.inner.proof(&[index]) }
    }
}

impl LeafProof {
    /// Calls `MerkleProof::<Sha256>::from_bytes`. The contract claims what the
    /// crate's source shows: the bytes decode exactly when their length is a
    /// multiple of 32, into their 32-byte pieces in order.
    #[verifier::external_body]
    pub(crate) fn from_bytes(bytes: &[u8]) -> (r: Result<LeafProof, rs_merkle::Error>)
        ensures
            r is Ok <==> bytes@.len() % 32 == 0,
            r matches Ok(p) ==> proof_hashes(p) == chunks32(bytes@),
    {
        match MerkleProof::<Sha256>::from_bytes(bytes) {
            Ok(p) => Ok(LeafProof { inner: p }),
            Err(e) => Err(e),
        }
    }

    /// Calls `MerkleProof::to_bytes`. The contract claims what the crate's
    /// source shows: the bytes are the proof's hashes one after another.
    #[verifier::external_body]
    pub(crate) fn to_bytes(&self) -> (b: Vec<u8>)
        ensures
            b@ == proof_hashes(*self).flatten(),
    {
        self.inner.to_bytes()
    }

    /// Calls `MerkleProof::verify` for one leaf. Whether the proof holds is
    /// named, not stated.
    #[verifier::external_body]
    pub(crate) fn verify(&self, root: &[u8; 32], index: usize, leaf: &[u8; 32], count: usize) -> (ok:
        bool)
        ensures
            ok == merkle_verifies(proof_hashes(*self), root@, index, leaf@, count),
    {
        self.inner.verify(*root, &[index], &[*leaf], count)
    }
}

/// Cutting the concatenation of 32-byte hashes into 32-byte pieces gives the
/// hashes back.
pub proof fn lemma_chunks_of_flatten(hs: Seq<Seq<u8>>)
    requires
        all_hash_sized(hs),
    ensures
        hs.flatten().len() == 32 * hs.len(),
        chunks32(hs.flatten()) == hs,
    decreases hs.len(),
{
    if hs.len() > 0 {
        let rest = hs.drop_first();
        assert(all_hash_sized(rest)) by {
            assert forall|i: int| 0 <= i < rest.len() implies (#[trigger] rest[i]).len() == 32 by {
                assert(rest[i] == hs[i + 1]);
            }
        }
        lemma_chunks_of_flatten(rest);
        let f = hs.flatten();
        assert(f == hs[0] + rest.flatten());
        assert(hs[0].len() == 32);
        let c = chunks32(f);
        assert(c.len() == hs.len()) by {
            assert(f.len() == 32 + 32 * rest.len());
            assert((32 + 32 * rest.len()) / 32 == 1 + rest.len()) by (nonlinear_arith);
        }
        assert forall|i: int| 0 <= i < hs.len() implies #[trigger] c[i] == hs[i] by {
            if i == 0 {
                assert(c[0] =~= hs[0]);
            } else {
                let rc = chunks32(rest.flatten());
                assert(rc[i - 1] == rest[i - 1]);
                assert(32 * i == 32 + 32 * (i - 1));
                assert(c[i] =~= rc[i - 1]);
            }
        }
        assert(c =~= hs);
    }
}

} // verus!
