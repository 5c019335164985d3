use vstd::prelude::*;
use ed25519_dalek::{Signature, Signer, SigningKey, Verifier, VerifyingKey};

use crate::access::{PeerSet, key_views};

verus! {

/// The public key that an Ed25519 secret key derives.
pub uninterp spec fn ed25519_public_key(secret: Seq<u8>) -> Seq<u8>;

/// The Ed25519 signature that a secret key makes over a message.
pub uninterp spec fn ed25519_signature(secret: Seq<u8>, message: Seq<u8>) -> Seq<u8>;

/// Whether a public key accepts a signature over a message.
pub uninterp spec fn ed25519_accepts(key: Seq<u8>, message: Seq<u8>, signature: Seq<u8>) -> bool;

/// Calls `SigningKey::from_bytes` and `SigningKey::verifying_key`. The
/// contract names the public key, which is a function of the secret key
/// alone.
#[verifier::external_body]
fn public_key_of(secret: &[u8; 32]) -> (key: [u8; 32])
    ensures
        key@ == ed25519_public_key(secret@),
{
    SigningKey::from_bytes(secret).verifying_key().to_bytes()
}

/// Calls `Signer::sign` of `SigningKey`. Ed25519 signing is deterministic,
/// so the contract names the signature as a function of the secret key and
/// the message, and claims what the crate documents: the public key that the
/// secret key derives accepts the signature over the message.
#[verifier::external_body]
fn sign_bytes(secret: &[u8; 32], message: &[u8]) -> (signature: [u8; 64])
    ensures
        signature@ == ed25519_signature(secret@, message@),
        ed25519_accepts(ed25519_public_key(secret@), message@, signature@),
{
    SigningKey::from_bytes(secret).sign(message).to_bytes()
}

/// Calls `VerifyingKey::from_bytes` and then `Verifier::verify`. The
/// contract names whether the key accepts the signature; bytes that are no
/// valid public key accept nothing, which the name takes in.
#[verifier::external_body]
fn signature_accepted(key: &[u8; 32], message: &[u8], signature: &[u8; 64]) -> (ok: bool)
    ensures
        ok == ed25519_accepts(key@, message@, signature@),
{
    match VerifyingKey::from_bytes(key) {
        Ok(k) => k.verify(message, &Signature::from_bytes(signature)).is_ok(),
        Err(_) => false,
    }
}

/// What a node announces on a gossip topic: its endpoint key and the topic.
pub struct AddressInfo {
    pub node_id: [u8; 32],
    pub topic_id: String,
}

/// An announcement with the key of its signer and the signature over its
/// bytes.
pub struct SignedMessage {
    pub from: [u8; 32],
    pub data: Vec<u8>,
    pub signature: [u8; 64],
}

impl SignedMessage {
    /// Signs the encoded announcement with the node's secret key.
    pub fn sign(secret: &[u8; 32], data: Vec<u8>) -> (m: SignedMessage)
        ensures
            m.from@ == ed25519_public_key(secret@),
            m.data@ == data@,
            m.signature@ == ed25519_signature(secret@, data@),
            ed25519_accepts(m.from@, m.data@, m.signature@),
    {
        let from = public_key_of(secret);
        let signature = sign_bytes(secret, data.as_slice());
        SignedMessage { from, data, signature }
    }

    /// Whether the signature over the bytes is the signer's.
    pub fn is_authentic(&self) -> (ok: bool)
        ensures
            ok == ed25519_accepts(self.from@, self.data@, self.signature@),
    {
        signature_accepted(&self.from, self.data.as_slice(), &self.signature)
    }
}

/// How a received announcement is taken.
#[derive(Debug, Clone, Copy, PartialEq, Eq, Structural)]
pub enum Announcement {
    /// The signature does not hold; the message is ignored.
    Forged,
    /// The announced endpoint is not the signer; the message is ignored.
    Spoofed,
    /// The signer is already known.
    Known,
    /// The signer is new: it is to be joined and recorded.
    NewPeer,
}

/// The known peers after an announcement, and how it is taken: only an
/// authentic announcement of the signer itself, from a signer not yet
/// known, adds a peer.
pub open spec fn announcement_step(
    known: Set<Seq<u8>>,
    authentic: bool,
    signer: Seq<u8>,
    announced: Seq<u8>,
) -> (Set<Seq<u8>>, Announcement) {
    if !authentic {
        (known, Announcement::Forged)
    } else if announced != signer {
        (known, Announcement::Spoofed)
    } else if known.contains(signer) {
        (known, Announcement::Known)
    } else {
        (known.insert(signer), Announcement::NewPeer)
    }
}

/// The peers that a gossip receiver knows on a topic.
pub struct PeerRegistry {
    known: PeerSet,
}

impl PeerRegistry {
    /// The keys of the known peers.
    pub closed spec fn known(&self) -> Set<Seq<u8>> {
        self.known@
    }

    /// Starts with the topic's bootstrap peers.
    pub fn new(bootstrap: &Vec<[u8; 32]>) -> (r: PeerRegistry)
        ensures
            r.known() == key_views(bootstrap@).to_set(),
    {
        PeerRegistry { known: PeerSet::from_keys(bootstrap) }
    }

    /// Whether a peer is known.
    pub fn is_known(&self, key: &[u8; 32]) -> (r: bool)
        ensures
            r == self.known().contains(key@),
    {
        self.known.contains(key)
    }

    /// Takes a received announcement, decoded into what it announces.
    pub fn on_message(&mut self, message: &SignedMessage, info: &AddressInfo) -> (a: Announcement)
        ensures
            (final(self).known(), a) == announcement_step(
                old(self).known(),
                ed25519_accepts(message.from@, message.data@, message.signature@),
                message.from@,
                info.node_id@,
            ),
    {
        if !message.is_authentic() {
            return Announcement::Forged;
        }
        if !crate::access::same_key(&info.node_id, &message.from) {
            return Announcement::Spoofed;
        }
        if self.known.insert(message.from) {
            Announcement::NewPeer
        } else {
            Announcement::Known
        }
    }
}

/// The known peers only grow, and only by the signer of an authentic
/// announcement of itself; a peer is taken as new at most once: the same
/// announcement received again is taken as known.
pub proof fn lemma_peer_is_new_once(
    known: Set<Seq<u8>>,
    authentic: bool,
    signer: Seq<u8>,
    announced: Seq<u8>,
)
    ensures
        ({
            let (after, first) = announcement_step(known, authentic, signer, announced);
            let (again, second) = announcement_step(after, authentic, signer, announced);
            &&& known.subset_of(after)
            &&& first == Announcement::NewPeer ==> authentic && announced == signer && !known.contains(
                signer,
            ) && after == known.insert(signer)
            &&& first != Announcement::NewPeer ==> after == known
            &&& second != Announcement::NewPeer
            &&& again == after
        }),
{
    let (after, first) = announcement_step(known, authentic, signer, announced);
    if first == Announcement::NewPeer {
        assert(after.insert(signer) =~= after);
    }
}

/// An authentic announcement that names its own signer is always taken: as
/// a new peer the first time, as a known one after, and the signer is known
/// afterwards.
pub proof fn lemma_own_announcement_is_taken(known: Set<Seq<u8>>, signer: Seq<u8>)
    ensures
        ({
            let (after, a) = announcement_step(known, true, signer, signer);
            &&& a == Announcement::NewPeer || a == Announcement::Known
            &&& after.contains(signer)
        }),
{
}

} // verus!
