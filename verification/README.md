# gate

A peer-to-peer video store: a node cuts a video into clips, names the video by
the SHA-256 Merkle root of its clips, and serves each clip with a Merkle proof
to the peers on the video's access list; peers find each other through signed
gossip announcements.

- `src/` is the verified library (Verus): the wire format of requests and
  replies, the access-list decisions, storage tags, video metadata and Merkle
  proofs, the requester's check of a received file, the plan of an upload, and
  the handling of gossip announcements. Calls into `rs_merkle`, `hex`,
  `sha256` and `ed25519-dalek` stand behind small trusted wrappers whose
  contracts are stated in their doc comments.
- `app/` is the application around it: the Tauri commands, the iroh endpoint,
  documents, blobs and gossip, the database, and the local web server.
- `tests/` runs the library on concrete values.
