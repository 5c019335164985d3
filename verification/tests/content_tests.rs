use gate::discovery::{AddressInfo, Announcement, PeerRegistry, SignedMessage};
use gate::hashing::{decode_hash, file_leaf, HashTextError};
use gate::metadata::{ClipEntry, MerkleVerification, VideoMetadata};
use gate::retrieval::{verify_retrieved, RetrieveError};
use gate::ordering::{names_in_order, sort_by_name};
use gate::upload::{plan_upload, UploadError};

const ABC_SHA256: &str = "ba7816bf8f01cfea414140de5dae2223b00361a396177a9cb410ff61f20015ad";

fn hex_of(b: &[u8]) -> String {
    b.iter().map(|x| format!("{:02x}", x)).collect()
}

fn clip_files() -> Vec<(String, Vec<u8>)> {
    vec![
        ("clip0.ts".to_string(), b"first clip".to_vec()),
        ("clip1.ts".to_string(), b"second clip".to_vec()),
        ("clip2.ts".to_string(), b"third clip".to_vec()),
    ]
}

fn clips() -> Vec<(String, [u8; 32])> {
    clip_files().into_iter().map(|(n, d)| (n, file_leaf(&d))).collect()
}

#[test]
fn file_leaf_is_sha256() {
    let leaf = file_leaf(b"abc");
    assert_eq!(hex_of(&leaf), ABC_SHA256);
}

#[test]
fn decode_hash_accepts_either_case() {
    let lower = decode_hash(ABC_SHA256).unwrap();
    let upper = decode_hash(&ABC_SHA256.to_uppercase()).unwrap();
    assert_eq!(lower, upper);
    assert_eq!(lower[0], 0xba);
    assert_eq!(lower[31], 0xad);
}

#[test]
fn decode_hash_errors() {
    assert_eq!(decode_hash("zz"), Err(HashTextError::NotHex));
    assert_eq!(decode_hash("abc"), Err(HashTextError::NotHex));
    assert_eq!(decode_hash("abcd"), Err(HashTextError::WrongLength));
    assert_eq!(decode_hash(""), Err(HashTextError::WrongLength));
}

#[test]
fn plan_upload_without_clips_fails() {
    assert!(matches!(plan_upload("ns", vec![], "video"), Err(UploadError::NoRoot)));
}

#[test]
fn single_clip_root_is_its_leaf() {
    let leaf = file_leaf(b"only clip");
    let plan = plan_upload("ns", vec![("a.ts".to_string(), leaf)], "video").unwrap();
    assert_eq!(plan.root, hex_of(&leaf));
    assert_eq!(plan.file_tags, vec![format!("ns/{}/a.ts", plan.root)]);
    assert_eq!(plan.metadata_tag, format!("ns/{}", plan.root));
}

#[test]
fn two_clip_root_hashes_the_pair() {
    let l0 = file_leaf(b"x");
    let l1 = file_leaf(b"y");
    let mut both = l0.to_vec();
    both.extend_from_slice(&l1);
    let plan = plan_upload("ns", vec![("x".to_string(), l0), ("y".to_string(), l1)], "v").unwrap();
    assert_eq!(plan.root, hex_of(&file_leaf(&both)));
}

#[test]
fn plan_upload_tags_and_metadata() {
    let plan = plan_upload("space", clips(), "My video").unwrap();
    assert_eq!(plan.root.len(), 64);
    assert_eq!(plan.file_tags.len(), 3);
    assert_eq!(plan.file_tags[1], format!("space/{}/clip1.ts", plan.root));
    assert_eq!(plan.metadata.video_name(), "My video");
    assert_eq!(plan.metadata.clips().len(), 3);
    assert!(plan.metadata.has_valid_indices());
}

#[test]
fn served_proof_verifies_against_root() {
    let files = clip_files();
    let plan = plan_upload("space", clips(), "My video").unwrap();
    for (i, (name, data)) in files.iter().enumerate() {
        let proof = plan.metadata.generate_proof(name).unwrap();
        assert_eq!(proof.index, i);
        assert_eq!(proof.count, 3);
        assert_eq!(proof.merkle_proof.len() % 32, 0);
        assert_eq!(verify_retrieved(&plan.root, &proof, data), Ok(true));
    }
}

#[test]
fn served_proof_rejects_other_file() {
    let plan = plan_upload("space", clips(), "My video").unwrap();
    let proof = plan.metadata.generate_proof("clip1.ts").unwrap();
    assert_eq!(verify_retrieved(&plan.root, &proof, b"tampered"), Ok(false));
    let wrong_index = MerkleVerification { merkle_proof: proof.merkle_proof.clone(), index: 0, count: 3 };
    assert_eq!(verify_retrieved(&plan.root, &wrong_index, b"second clip"), Ok(false));
}

#[test]
fn unknown_clip_has_no_proof() {
    let plan = plan_upload("space", clips(), "My video").unwrap();
    assert!(plan.metadata.generate_proof("missing.ts").is_none());
}

#[test]
fn retrieval_errors() {
    let plan = plan_upload("space", clips(), "v").unwrap();
    let proof = plan.metadata.generate_proof("clip0.ts").unwrap();
    let malformed = MerkleVerification { merkle_proof: vec![1, 2, 3], index: 0, count: 3 };
    assert_eq!(verify_retrieved("not hex", &malformed, b"x"), Err(RetrieveError::MalformedProof));
    assert_eq!(verify_retrieved("xyz", &proof, b"first clip"), Err(RetrieveError::RootNotHex));
    assert_eq!(verify_retrieved("abcd", &proof, b"first clip"), Err(RetrieveError::RootWrongLength));
}

#[test]
fn metadata_later_clip_wins() {
    let l0 = file_leaf(b"0");
    let l1 = file_leaf(b"1");
    let l2 = file_leaf(b"2");
    let m = VideoMetadata::new(
        vec![("a".to_string(), l0), ("b".to_string(), l1), ("a".to_string(), l2)],
        "v",
    );
    let entries = m.clips();
    assert_eq!(entries.len(), 2);
    let a = entries.iter().find(|e| e.filename == "a").unwrap();
    assert_eq!(a.index, 2);
    assert_eq!(a.hash, l2);
    // positions 1 and 2 among two clips: not an arrangement of 0..2
    assert!(!m.has_valid_indices());
}

#[test]
fn metadata_from_entries() {
    let l0 = file_leaf(b"0");
    let l1 = file_leaf(b"1");
    let m = VideoMetadata::from_entries(
        vec![
            ClipEntry { filename: "b".to_string(), index: 1, hash: l1 },
            ClipEntry { filename: "a".to_string(), index: 0, hash: l0 },
        ],
        "v".to_string(),
    );
    assert!(m.has_valid_indices());
    let p = m.generate_proof("b").unwrap();
    assert_eq!(p.index, 1);
    assert_eq!(p.count, 2);
    let root = plan_upload("n", vec![("a".to_string(), l0), ("b".to_string(), l1)], "v").unwrap().root;
    assert_eq!(verify_retrieved(&root, &p, b"1"), Ok(true));
}

#[test]
fn metadata_repeated_position_is_invalid() {
    let l0 = file_leaf(b"0");
    let m = VideoMetadata::from_entries(
        vec![
            ClipEntry { filename: "a".to_string(), index: 0, hash: l0 },
            ClipEntry { filename: "b".to_string(), index: 0, hash: l0 },
        ],
        "v".to_string(),
    );
    assert!(!m.has_valid_indices());
    assert!(m.positions_in_range());
    let p = m.generate_proof("b").unwrap();
    assert_eq!(p.index, 0);
    assert_eq!(p.count, 2);
    assert_eq!(p.merkle_proof.len() % 32, 0);
    assert!(m.generate_proof("c").is_none());
}

#[test]
fn metadata_position_out_of_range() {
    let l0 = file_leaf(b"0");
    let m = VideoMetadata::from_entries(
        vec![ClipEntry { filename: "a".to_string(), index: 1, hash: l0 }],
        "v".to_string(),
    );
    assert!(!m.positions_in_range());
    assert!(!m.has_valid_indices());
}

fn secret(b: u8) -> [u8; 32] {
    [b; 32]
}

#[test]
fn signed_message_is_authentic() {
    let m = SignedMessage::sign(&secret(7), b"hello".to_vec());
    assert!(m.is_authentic());
    assert_eq!(m.data, b"hello".to_vec());
    assert_ne!(m.from, secret(7));
    let tampered = SignedMessage { from: m.from, data: b"hellp".to_vec(), signature: m.signature };
    assert!(!tampered.is_authentic());
}

#[test]
fn registry_takes_new_peer_once() {
    let m = SignedMessage::sign(&secret(7), b"announce".to_vec());
    let info = AddressInfo { node_id: m.from, topic_id: "topic".to_string() };
    let mut reg = PeerRegistry::new(&vec![]);
    assert!(!reg.is_known(&m.from));
    assert_eq!(reg.on_message(&m, &info), Announcement::NewPeer);
    assert!(reg.is_known(&m.from));
    assert_eq!(reg.on_message(&m, &info), Announcement::Known);
}

#[test]
fn registry_ignores_spoofed_and_forged() {
    let m = SignedMessage::sign(&secret(7), b"announce".to_vec());
    let other = SignedMessage::sign(&secret(8), b"x".to_vec());
    let spoof = AddressInfo { node_id: other.from, topic_id: "topic".to_string() };
    let mut reg = PeerRegistry::new(&vec![]);
    assert_eq!(reg.on_message(&m, &spoof), Announcement::Spoofed);
    assert!(!reg.is_known(&m.from));
    let forged = SignedMessage { from: m.from, data: b"changed".to_vec(), signature: m.signature };
    let info = AddressInfo { node_id: m.from, topic_id: "topic".to_string() };
    assert_eq!(reg.on_message(&forged, &info), Announcement::Forged);
    assert!(!reg.is_known(&m.from));
}

#[test]
fn registry_knows_bootstrap_peers() {
    let m = SignedMessage::sign(&secret(3), b"a".to_vec());
    let info = AddressInfo { node_id: m.from, topic_id: "t".to_string() };
    let mut reg = PeerRegistry::new(&vec![m.from]);
    assert_eq!(reg.on_message(&m, &info), Announcement::Known);
}

#[test]
fn metadata_read_back_in_other_order() {
    let plan = plan_upload("space", clips(), "My video").unwrap();
    let mut stored: Vec<ClipEntry> = plan
        .metadata
        .clips()
        .iter()
        .map(|e| ClipEntry { filename: e.filename.clone(), index: e.index, hash: e.hash })
        .collect();
    stored.reverse();
    let read = VideoMetadata::from_entries(stored, plan.metadata.video_name().clone());
    assert_eq!(read.video_name(), "My video");
    for name in ["clip0.ts", "clip1.ts", "clip2.ts"] {
        let a = plan.metadata.generate_proof(name).unwrap();
        let b = read.generate_proof(name).unwrap();
        assert_eq!(a.merkle_proof, b.merkle_proof);
        assert_eq!(a.index, b.index);
        assert_eq!(a.count, b.count);
    }
}

#[test]
fn plan_upload_orders_clips_by_name() {
    let mut listed = clips();
    listed.reverse();
    let from_reversed = plan_upload("space", listed, "My video").unwrap();
    let from_sorted = plan_upload("space", clips(), "My video").unwrap();
    assert_eq!(from_reversed.root, from_sorted.root);
    assert_eq!(from_reversed.clips, clips());
    assert_eq!(from_reversed.file_tags, from_sorted.file_tags);
    assert_eq!(from_reversed.file_tags[0], format!("space/{}/clip0.ts", from_reversed.root));
}

#[test]
fn plan_upload_root_follows_name_order() {
    let l0 = file_leaf(b"x");
    let l1 = file_leaf(b"y");
    let mut both = l0.to_vec();
    both.extend_from_slice(&l1);
    let plan = plan_upload("ns", vec![("b".to_string(), l1), ("a".to_string(), l0)], "v").unwrap();
    assert_eq!(plan.root, hex_of(&file_leaf(&both)));
    assert_eq!(plan.metadata.generate_proof("a").unwrap().index, 0);
    assert_eq!(plan.metadata.generate_proof("b").unwrap().index, 1);
}

#[test]
fn names_compare_by_code_points() {
    assert!(names_in_order("clip10.ts", "clip2.ts"));
    assert!(!names_in_order("clip2.ts", "clip10.ts"));
    assert!(names_in_order("a", "ab"));
    assert!(!names_in_order("ab", "a"));
    assert!(names_in_order("same", "same"));
    assert!(names_in_order("", ""));
    assert!(names_in_order("B", "a"));
    assert!(names_in_order("z", "\u{e9}"));
}

#[test]
fn sort_by_name_sorts_and_keeps_items() {
    let items = vec![
        ("c".to_string(), 3u8),
        ("a".to_string(), 1u8),
        ("b2".to_string(), 2u8),
        ("b10".to_string(), 4u8),
    ];
    let sorted = sort_by_name(items);
    assert_eq!(
        sorted,
        vec![
            ("a".to_string(), 1u8),
            ("b10".to_string(), 4u8),
            ("b2".to_string(), 2u8),
            ("c".to_string(), 3u8),
        ]
    );
    assert!(sort_by_name(Vec::<(String, u8)>::new()).is_empty());
}
