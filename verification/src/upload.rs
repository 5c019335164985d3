use vstd::prelude::*;

use crate::hashing::hex_encode_lower;
use crate::merkle::{LeafTree, leaf_views, merkle_root};
use crate::metadata::{VideoMetadata, leaves_to_map, pair_views};
use crate::ordering::{
    item_names_distinct,
    lemma_distinct_names_kept,
    lemma_sorted_order_is_unique,
    sort_by_name,
    sorted_by_name,
};
use crate::tags::{make_tag, tag_text};

verus! {

/// What storing an uploaded video writes, in order: each clip under its file
/// tag, then the metadata under the resource's tag. The resource is named by
/// the hex text of the Merkle root over the clips' hashes, taken in the order
/// of the clips' names.
pub struct UploadPlan {
    /// The clips in leaf order, that is sorted by name.
    pub clips: Vec<(String, [u8; 32])>,
    pub root: String,
    pub file_tags: Vec<String>,
    pub metadata_tag: String,
    pub metadata: VideoMetadata,
}

/// Why an upload could not be planned.
#[derive(Debug, Clone, Copy, PartialEq, Eq, Structural)]
pub enum UploadError {
    /// There are no clips, so the Merkle tree has no root.
    NoRoot,
}

/// The leaf hashes of named clips, in order.
pub open spec fn clip_leaves(clips: Seq<(String, [u8; 32])>) -> Seq<Seq<u8>> {
    clips.map_values(|p: (String, [u8; 32])| p.1@)
}

/// Plans the storing of a video's clips, listed in any order with their
/// SHA-256 hashes, under a namespace. The clips become leaves in the order
/// of their names.
pub fn plan_upload(namespace: &str, listed: Vec<(String, [u8; 32])>, video_name: &str) -> (r: Result<
    UploadPlan,
    UploadError,
>)
    ensures
        r is Err <==> listed@.len() == 0,
        r matches Ok(p) ==> {
            let clips = p.clips@;
            &&& clips.to_multiset() == listed@.to_multiset()
            &&& sorted_by_name(clips)
            &&& p.root@ == hex_encode_lower(merkle_root(clip_leaves(clips)))
            &&& p.root@.len() == 64
            &&& p.file_tags@.len() == clips.len()
            &&& forall|i: int|
                0 <= i < clips.len() ==> (#[trigger] p.file_tags@[i])@ == tag_text(
                    namespace@,
                    Some(p.root@),
                    Some(clips[i].0@),
                )
            &&& p.metadata_tag@ == tag_text(namespace@, Some(p.root@), None)
            &&& p.metadata@ == leaves_to_map(pair_views(clips))
            &&& p.metadata.name() == video_name@
        },
{
    proof {
        vstd::seq_lib::to_multiset_len(listed@);
    }
    let clips = sort_by_name(listed);
    proof {
        vstd::seq_lib::to_multiset_len(clips@);
    }
    let mut leaves: Vec<[u8; 32]> = Vec::new();
    let mut i: usize = 0;
    while i < clips.len()
        invariant
            0 <= i <= clips@.len(),
            leaves@.len() == i,
            forall|j: int| 0 <= j < i ==> (#[trigger] leaves@[j]) == clips@[j].1,
        decreases clips@.len() - i,
    {
        leaves.push(clips[i].1);
        i = i + 1;
    }
    assert(leaf_views(leaves@) =~= clip_leaves(clips@));
    let tree = LeafTree::from_leaves(leaves.as_slice());
    let root = match tree.root_hex() {
        Some(root) => root,
        None => {
            return Err(UploadError::NoRoot);
        },
    };
    let mut file_tags: Vec<String> = Vec::new();
    let mut order: Vec<(String, [u8; 32])> = Vec::new();
    let mut j: usize = 0;
    while j < clips.len()
        invariant
            0 <= j <= clips@.len(),
            file_tags@.len() == j,
            order@ == clips@.take(j as int),
            forall|k: int|
                0 <= k < j ==> (#[trigger] file_tags@[k])@ == tag_text(
                    namespace@,
                    Some(root@),
                    Some(clips@[k].0@),
                ),
        decreases clips@.len() - j,
    {
        let tag = make_tag(namespace, Some(root.as_str()), Some(clips[j].0.as_str()));
        file_tags.push(tag);
        let name = clips[j].0.clone();
        order.push((name, clips[j].1));
        assert(clips@.take(j + 1) =~= clips@.take(j as int).push(clips@[j as int]));
        j = j + 1;
    }
    assert(order@ =~= clips@);
    let metadata_tag = make_tag(namespace, Some(root.as_str()), None);
    let metadata = VideoMetadata::new(clips, video_name);
    Ok(UploadPlan { clips: order, root, file_tags, metadata_tag, metadata })
}

/// The plan of an upload does not depend on the order in which its clips
/// were listed: where the clips have distinct names, two listings of the same
/// clips are arranged into the same leaf order, so the Merkle root, the tags
/// and the metadata come out the same.
pub proof fn lemma_plan_ignores_listing_order(
    listed_a: Seq<(String, [u8; 32])>,
    listed_b: Seq<(String, [u8; 32])>,
    clips_a: Seq<(String, [u8; 32])>,
    clips_b: Seq<(String, [u8; 32])>,
)
    requires
        item_names_distinct(listed_a),
        listed_a.to_multiset() == listed_b.to_multiset(),
        sorted_by_name(clips_a),
        clips_a.to_multiset() == listed_a.to_multiset(),
        sorted_by_name(clips_b),
        clips_b.to_multiset() == listed_b.to_multiset(),
    ensures
        clips_a == clips_b,
        merkle_root(clip_leaves(clips_a)) == merkle_root(clip_leaves(clips_b)),
        leaves_to_map(pair_views(clips_a)) == leaves_to_map(pair_views(clips_b)),
{
    lemma_distinct_names_kept(listed_a, clips_a);
    lemma_sorted_order_is_unique(clips_a, clips_b);
}

} // verus!
