use vstd::prelude::*;

use crate::hashing::{
    HashTextError, decode_hash, file_leaf, hash_of_text, hex_encode_lower, lemma_hex_decode_encode,
    lemma_hex_encode_len, sha256_bytes,
};
use crate::merkle::{
    LeafProof, all_hash_sized, chunks32, lemma_chunks_of_flatten, merkle_proof_path, merkle_root,
    merkle_verifies,
};
use crate::metadata::{
    MerkleVerification, leaf_hashes, leaf_names_distinct, leaves_fit, leaves_to_map,
    lemma_fitting_leaves_are_proof_leaves, lemma_metadata_keeps_leaf_order, proof_for_clip,
};

verus! {

/// Why a received file could not be checked.
#[derive(Debug, Clone, Copy, PartialEq, Eq, Structural)]
pub enum RetrieveError {
    /// The proof bytes are not a whole number of 32-byte hashes.
    MalformedProof,
    /// The resource name is not hexadecimal.
    RootNotHex,
    /// The resource name is hexadecimal but not 32 bytes long.
    RootWrongLength,
}

/// What checking a received file against the resource it was asked for
/// gives: the proof is decoded first, then the resource name is read as the
/// Merkle root, and the file's SHA-256 leaf must lead to that root through
/// the proof.
pub open spec fn retrieval_check(
    resource: Seq<char>,
    proof: Seq<u8>,
    index: usize,
    count: usize,
    file: Seq<u8>,
) -> Result<bool, RetrieveError> {
    if proof.len() % 32 != 0 {
        Err(RetrieveError::MalformedProof)
    } else {
        match hash_of_text(resource) {
            Err(HashTextError::NotHex) => Err(RetrieveError::RootNotHex),
            Err(HashTextError::WrongLength) => Err(RetrieveError::RootWrongLength),
            Ok(root) => Ok(
                merkle_verifies(chunks32(proof), root, index, sha256_bytes(file), count),
            ),
        }
    }
}

/// Checks a file received for a resource against the proof that came with
/// it: `Ok(true)` when the file belongs to the resource, `Ok(false)` when it
/// does not.
pub fn verify_retrieved(resource: &str, proof: &MerkleVerification, file: &[u8]) -> (r: Result<
    bool,
    RetrieveError,
>)
    ensures
        r == retrieval_check(resource@, proof.merkle_proof@, proof.index, proof.count, file@),
{
    let decoded = match LeafProof::from_bytes(proof.merkle_proof.as_slice()) {
        Ok(p) => p,
        Err(_) => {
            return Err(RetrieveError::MalformedProof);
        },
    };
    let root = match decode_hash(resource) {
        Ok(root) => root,
        Err(HashTextError::NotHex) => {
            return Err(RetrieveError::RootNotHex);
        },
        Err(HashTextError::WrongLength) => {
            return Err(RetrieveError::RootWrongLength);
        },
    };
    let leaf = file_leaf(file);
    Ok(decoded.verify(&root, proof.index, &leaf, proof.count))
}

/// For a video whose clips have distinct names, the proof that the server
/// serves for clip `i`, checked by a client against the resource name that
/// the upload published (the hex text of the Merkle root), comes down to
/// exactly the Merkle check of the received file's hash at position `i`
/// against that root: no step of the exchange makes a good file fail or a
/// bad one pass on its own.
pub proof fn lemma_served_proof_checks_against_published_root(
    clips: Seq<(Seq<char>, Seq<u8>)>,
    i: int,
    file: Seq<u8>,
)
    requires
        leaf_names_distinct(clips),
        clips.len() <= usize::MAX,
        0 <= i < clips.len(),
        merkle_root(leaf_hashes(clips)).len() == 32,
        all_hash_sized(merkle_proof_path(leaf_hashes(clips), i as usize)),
    ensures
        ({
            let path = merkle_proof_path(leaf_hashes(clips), i as usize);
            let root = merkle_root(leaf_hashes(clips));
            &&& proof_for_clip(leaves_to_map(clips), clips[i].0) == Some(
                (path.flatten(), i as usize, clips.len() as usize),
            )
            &&& retrieval_check(
                hex_encode_lower(root),
                path.flatten(),
                i as usize,
                clips.len() as usize,
                file,
            ) == Ok::<bool, RetrieveError>(
                merkle_verifies(path, root, i as usize, sha256_bytes(file), clips.len() as usize),
            )
        }),
{
    let path = merkle_proof_path(leaf_hashes(clips), i as usize);
    let root = merkle_root(leaf_hashes(clips));
    lemma_metadata_keeps_leaf_order(clips);
    lemma_chunks_of_flatten(path);
    lemma_hex_decode_encode(root);
    assert((32 * path.len()) % 32 == 0) by (nonlinear_arith);
}

/// A clip of a video uploaded with distinct clip names, served with the
/// proof that `generate_proof` makes for it from the stored metadata, is
/// accepted by a client that checks the clip's bytes against the resource
/// name that the upload published.
pub proof fn lemma_served_clip_is_accepted(
    clips: Seq<(Seq<char>, Seq<u8>)>,
    i: int,
    root_text: Seq<char>,
    leaves: Seq<Seq<u8>>,
    proof: Seq<u8>,
    file: Seq<u8>,
)
    requires
        leaf_names_distinct(clips),
        clips.len() <= usize::MAX,
        0 <= i < clips.len(),
        root_text == hex_encode_lower(merkle_root(leaf_hashes(clips))),
        root_text.len() == 64,
        leaves_fit(leaves_to_map(clips), leaves),
        proof == merkle_proof_path(leaves, i as usize).flatten(),
        all_hash_sized(merkle_proof_path(leaves, i as usize)),
        merkle_verifies(
            merkle_proof_path(leaves, i as usize),
            merkle_root(leaves),
            i as usize,
            leaves[i],
            clips.len() as usize,
        ),
        sha256_bytes(file) == leaf_hashes(clips)[i],
    ensures
        leaves_to_map(clips)[clips[i].0].0 == i as usize,
        leaves_to_map(clips).dom().len() == clips.len(),
        retrieval_check(root_text, proof, i as usize, clips.len() as usize, file) == Ok::<
            bool,
            RetrieveError,
        >(true),
{
    let h = leaf_hashes(clips);
    lemma_metadata_keeps_leaf_order(clips);
    assert(leaves_to_map(clips).contains_key(clips[i].0));
    lemma_fitting_leaves_are_proof_leaves(leaves_to_map(clips), leaves);
    assert(leaves == h);
    let path = merkle_proof_path(h, i as usize);
    lemma_chunks_of_flatten(path);
    lemma_hex_encode_len(merkle_root(h));
    lemma_hex_decode_encode(merkle_root(h));
    assert((32 * path.len()) % 32 == 0) by (nonlinear_arith);
}

} // verus!
