/// The hexadecimal and SHA-256 texts of hashes.
pub mod hashing;
/// The SHA-256 Merkle trees and proofs over the clips of a video.
pub mod merkle;
/// The status byte at the head of a reply.
pub mod status;
/// The tags under which entries are stored.
pub mod tags;
/// The metadata stored beside a video, and the proofs made from it.
pub mod metadata;
/// Frames and replies on the peer-to-peer streams.
pub mod wire;
/// The check a requester makes on a received file.
pub mod retrieval;
/// The plan of storing an uploaded video.
pub mod upload;
/// Access lists and the decisions made from them.
pub mod access;
/// Signed gossip announcements and the peers they bring in.
pub mod discovery;
/// The errors that commands report.
pub mod error;
/// Requests and video descriptions.
pub mod records;
/// The replies of the local web server.
pub mod web;
/// The query of the download service that may name a peer.
pub mod server;
/// The protocol names that connections select.
pub mod routing;
/// The order of names.
pub mod ordering;
