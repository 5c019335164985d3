use gate::access::{
    access_decision, append_member, authorized_tags, serve_status, AccessLookup, LookupStep, PeerSet,
};
use gate::error::CommandError;
use gate::records::{Request, VideoInfo};
use gate::routing::{route_alpn, Protocol, ALPN, DISCOVERY_ALPN};
use gate::status::Status;
use gate::tags::{make_tag, resource_of_tag};
use gate::web::{download_reply, DownloadOutcome};
use gate::wire::{encode_frame, parse_file_response, u32_from_be, u32_to_be, FileResponse, WireError};

fn key(b: u8) -> [u8; 32] {
    [b; 32]
}

#[test]
fn status_try_from_known_codes() {
    assert_eq!(Status::try_from(0u8), Ok(Status::Denied));
    assert_eq!(Status::try_from(1u8), Ok(Status::Allowed));
    assert_eq!(Status::try_from(2u8), Ok(Status::FileNotFound));
    assert_eq!(Status::try_from(3u8), Ok(Status::ResourceNotFound));
    assert_eq!(Status::try_from(4u8), Ok(Status::UnknownError));
}

#[test]
fn status_try_from_unknown_code() {
    assert_eq!(Status::try_from(7u8), Ok(Status::UnknownError));
    assert_eq!(Status::try_from(255u8), Ok(Status::UnknownError));
}

#[test]
fn status_code_round_trip() {
    for s in [
        Status::Denied,
        Status::Allowed,
        Status::FileNotFound,
        Status::ResourceNotFound,
        Status::UnknownError,
    ] {
        assert_eq!(Status::from_code(s.code()), s);
    }
    assert_eq!(Status::ResourceNotFound.code(), 3);
}

#[test]
fn be_length_round_trip() {
    assert_eq!(u32_to_be(0x0102_0304), [1, 2, 3, 4]);
    assert_eq!(u32_from_be([1, 2, 3, 4]), 0x0102_0304);
    assert_eq!(u32_from_be(u32_to_be(u32::MAX)), u32::MAX);
}

#[test]
fn frame_is_length_then_body() {
    assert_eq!(encode_frame(b"abc"), vec![0, 0, 0, 3, 97, 98, 99]);
    assert_eq!(encode_frame(b""), vec![0, 0, 0, 0]);
}

#[test]
fn accepted_reply_reads_back() {
    let mut reply = vec![Status::Allowed.code()];
    reply.extend_from_slice(&encode_frame(b"PROOF"));
    reply.extend_from_slice(b"file bytes");
    match parse_file_response(&reply) {
        Ok(FileResponse::Accepted { proof, file }) => {
            assert_eq!(proof, b"PROOF".to_vec());
            assert_eq!(file, b"file bytes".to_vec());
        }
        _ => panic!("expected an accepted reply"),
    }
}

#[test]
fn rejected_reply_reads_back() {
    match parse_file_response(&[Status::Denied.code()]) {
        Ok(FileResponse::Rejected(s)) => assert_eq!(s, Status::Denied),
        _ => panic!("expected a rejection"),
    }
    match parse_file_response(&[9, 1, 2]) {
        Ok(FileResponse::Rejected(s)) => assert_eq!(s, Status::UnknownError),
        _ => panic!("expected a rejection"),
    }
}

#[test]
fn truncated_replies_are_errors() {
    assert!(matches!(parse_file_response(&[]), Err(WireError::Truncated)));
    assert!(matches!(parse_file_response(&[1, 0, 0]), Err(WireError::Truncated)));
    assert!(matches!(parse_file_response(&[1, 0, 0, 0, 5, 1, 2]), Err(WireError::Truncated)));
}

#[test]
fn empty_proof_and_file() {
    match parse_file_response(&[1, 0, 0, 0, 0]) {
        Ok(FileResponse::Accepted { proof, file }) => {
            assert!(proof.is_empty());
            assert!(file.is_empty());
        }
        _ => panic!("expected an accepted reply"),
    }
}

#[test]
fn tags_join_with_slashes() {
    assert_eq!(make_tag("ns", None, None), "ns");
    assert_eq!(make_tag("ns", Some("root"), None), "ns/root");
    assert_eq!(make_tag("ns", Some("root"), Some("clip0.ts")), "ns/root/clip0.ts");
    assert_eq!(make_tag("ns", None, Some("f")), "ns/f");
}

#[test]
fn tags_keep_namespace_prefix() {
    let t = make_tag("abc", Some("r"), Some("f"));
    assert!(t.starts_with("abc"));
    let r = make_tag("abc", Some("r"), None);
    assert_eq!(t, format!("{}/f", r));
}

#[test]
fn peer_set_insert_and_contains() {
    let mut s = PeerSet::new();
    assert!(!s.contains(&key(1)));
    assert!(s.insert(key(1)));
    assert!(s.contains(&key(1)));
    assert!(!s.insert(key(1)));
    assert!(s.insert(key(2)));
    assert_eq!(s.members().len(), 2);
}

#[test]
fn peer_set_from_keys_drops_repeats() {
    let s = PeerSet::from_keys(&vec![key(1), key(2), key(1)]);
    assert_eq!(s.members().len(), 2);
    assert!(s.contains(&key(2)));
    assert!(!s.contains(&key(3)));
}

#[test]
fn append_member_to_missing_list() {
    let (list, changed) = append_member(None, &key(5));
    assert!(changed);
    assert!(list.contains(&key(5)));
    assert_eq!(list.members().len(), 1);
}

#[test]
fn append_member_is_idempotent() {
    let (list, changed) = append_member(None, &key(5));
    assert!(changed);
    let (list, changed) = append_member(Some(list), &key(6));
    assert!(changed);
    let (list, changed) = append_member(Some(list), &key(5));
    assert!(!changed);
    assert_eq!(list.members().len(), 2);
    assert!(list.contains(&key(5)) && list.contains(&key(6)));
}

#[test]
fn access_decision_cases() {
    let list = PeerSet::from_keys(&vec![key(1)]);
    assert_eq!(access_decision(None, &key(1)), Status::ResourceNotFound);
    assert_eq!(access_decision(Some(&list), &key(2)), Status::Denied);
    assert_eq!(access_decision(Some(&list), &key(1)), Status::Allowed);
}

#[test]
fn serve_status_cases() {
    assert_eq!(serve_status(false, false), Status::ResourceNotFound);
    assert_eq!(serve_status(false, true), Status::ResourceNotFound);
    assert_eq!(serve_status(true, false), Status::FileNotFound);
    assert_eq!(serve_status(true, true), Status::Allowed);
}

#[test]
fn lookup_prefers_namespace_list() {
    let (mut lookup, first) = AccessLookup::start("ns", "res");
    assert_eq!(first, "ns");
    match lookup.on_answer(Some(PeerSet::from_keys(&vec![key(9)]))) {
        LookupStep::Found(l) => assert!(l.contains(&key(9))),
        _ => panic!("expected the namespace list"),
    }
}

#[test]
fn lookup_falls_back_to_resource_list() {
    let (mut lookup, _) = AccessLookup::start("ns", "res");
    match lookup.on_answer(None) {
        LookupStep::Query(tag) => assert_eq!(tag, "ns/res"),
        _ => panic!("expected a second query"),
    }
    match lookup.on_answer(Some(PeerSet::from_keys(&vec![key(3)]))) {
        LookupStep::Found(l) => assert!(l.contains(&key(3))),
        _ => panic!("expected the resource list"),
    }
}

#[test]
fn lookup_without_lists() {
    let (mut lookup, _) = AccessLookup::start("ns", "res");
    assert!(matches!(lookup.on_answer(None), LookupStep::Query(_)));
    assert!(matches!(lookup.on_answer(None), LookupStep::NotFound));
}

#[test]
fn error_messages() {
    let e = CommandError::InputErr("bad ticket".to_string());
    assert_eq!(e.message(), "Data has invalid format, bad ticket");
    assert_eq!(e.kind(), "inputErr");
    let e = CommandError::IrohErr("gone".to_string());
    assert_eq!(e.message(), "Iroh had an error, gone");
    assert_eq!(e.kind(), "irohErr");
    let e = CommandError::DatabaseErr("locked".to_string());
    assert_eq!(e.message(), "locked");
    assert_eq!(e.kind(), "databaseErr");
}

#[test]
fn download_replies() {
    let r = download_reply(&DownloadOutcome::Delivered);
    assert_eq!(r.status, 200);
    assert!(r.message.is_none());
    let r = download_reply(&DownloadOutcome::Refused);
    assert_eq!(r.status, 403);
    assert_eq!(r.message.unwrap(), "Permission error or file hash didn't match resource");
    let r = download_reply(&DownloadOutcome::Failed("timeout".to_string()));
    assert_eq!(r.status, 404);
    assert_eq!(r.message.unwrap(), "Network error occured, timeout");
}

#[test]
fn alpn_routing() {
    assert_eq!(&ALPN, b"gate");
    assert_eq!(&DISCOVERY_ALPN, b"discovery");
    assert_eq!(route_alpn(b"gate"), Some(Protocol::Gate));
    assert_eq!(route_alpn(b"discovery"), Some(Protocol::Discovery));
    assert_eq!(route_alpn(b"gat"), None);
    assert_eq!(route_alpn(b"other"), None);
}

#[test]
fn request_and_video_info() {
    let r = Request::new("ns".to_string(), "res".to_string(), "a.ts".to_string());
    assert_eq!(r.namespace, "ns");
    assert_eq!(r.resource, "res");
    assert_eq!(r.filename, "a.ts");
    let v = VideoInfo { tag: "t".to_string(), video_name: "v".to_string() };
    assert_eq!(v.video_name, "v");
}

#[test]
fn resource_tags_read_back() {
    let t = make_tag("ns", Some("root"), None);
    assert_eq!(resource_of_tag("ns", &t), Some("root".to_string()));
    assert_eq!(resource_of_tag("ns", "ns/root/clip.ts"), None);
    assert_eq!(resource_of_tag("ns", "ns/"), None);
    assert_eq!(resource_of_tag("ns", "ns"), None);
    assert_eq!(resource_of_tag("ns", "other/root"), None);
    assert_eq!(resource_of_tag("ns", "nsxroot"), None);
}

#[test]
fn peer_set_members_round_trip() {
    let s = PeerSet::from_keys(&vec![key(4), key(1), key(4), key(2)]);
    let again = PeerSet::from_keys(s.members());
    assert_eq!(again.members().len(), 3);
    for k in [key(1), key(2), key(4)] {
        assert!(again.contains(&k));
    }
}

#[test]
fn authorized_tags_keep_listed_resources() {
    let candidates = vec![
        ("ns/r1".to_string(), Some(PeerSet::from_keys(&vec![key(1), key(2)]))),
        ("ns/r2".to_string(), Some(PeerSet::from_keys(&vec![key(3)]))),
        ("ns/r3".to_string(), None),
        ("ns/r4".to_string(), Some(PeerSet::from_keys(&vec![key(2)]))),
    ];
    assert_eq!(authorized_tags(&candidates, &key(2)), vec!["ns/r1".to_string(), "ns/r4".to_string()]);
    assert_eq!(authorized_tags(&candidates, &key(3)), vec!["ns/r2".to_string()]);
    assert!(authorized_tags(&candidates, &key(7)).is_empty());
    assert!(authorized_tags(&Vec::new(), &key(1)).is_empty());
}
