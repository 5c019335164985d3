use vstd::prelude::*;

use crate::status::{Status, status_of_code, status_code};

verus! {

/// The four big-endian bytes of a 32-bit length.
pub open spec fn be32(n: u32) -> Seq<u8> {
    seq![
        (n / 0x1000000) as u8,
        ((n / 0x10000) % 0x100) as u8,
        ((n / 0x100) % 0x100) as u8,
        (n % 0x100) as u8,
    ]
}

/// The number that four big-endian bytes stand for.
pub open spec fn be32_value(b: Seq<u8>) -> int {
    b[0] * 0x1000000 + b[1] * 0x10000 + b[2] * 0x100 + b[3]
}

/// A length-prefixed frame: the body's length, cut to 32 bits as the sender
/// writes it, in four big-endian bytes, then the body.
pub open spec fn frame(body: Seq<u8>) -> Seq<u8> {
    be32((body.len() % 0x1_0000_0000) as u32) + body
}

/// Writes a 32-bit length as four big-endian bytes.
pub fn u32_to_be(n: u32) -> (b: [u8; 4])
    ensures
        b@ == be32(n),
        b[0] == (n >> 24u32) as u8,
        b[1] == ((n >> 16u32) & 0xffu32) as u8,
        b[2] == ((n >> 8u32) & 0xffu32) as u8,
        b[3] == (n & 0xffu32) as u8,
{
    proof {
        lemma_be32_is_big_endian(n);
    }
    let b = [(n / 0x1000000) as u8, ((n / 0x10000) % 0x100) as u8, ((n / 0x100) % 0x100) as u8, (n
        % 0x100) as u8];
    assert(b@ =~= be32(n));
    b
}

/// Reads four big-endian bytes as a 32-bit length.
pub fn u32_from_be(b: [u8; 4]) -> (n: u32)
    ensures
        n == be32_value(b@),
        n == ((b[0] as u32) << 24u32) | ((b[1] as u32) << 16u32) | ((b[2] as u32) << 8u32) | (
        b[3] as u32),
{
    proof {
        lemma_be32_value_is_big_endian(b@);
    }
    (b[0] as u32) * 0x1000000 + (b[1] as u32) * 0x10000 + (b[2] as u32) * 0x100 + (b[3] as u32)
}

/// Frames a body: its length in four big-endian bytes, then the body.
pub fn encode_frame(body: &[u8]) -> (f: Vec<u8>)
    ensures
        f@ == frame(body@),
{
    let len = ((body.len() as u64) % 0x1_0000_0000u64) as u32;
    let head = u32_to_be(len);
    let mut out: Vec<u8> = Vec::new();
    out.push(head[0]);
    out.push(head[1]);
    out.push(head[2]);
    out.push(head[3]);
    let mut i: usize = 0;
    while i < body.len()
        invariant
            0 <= i <= body@.len(),
            out@ == head@ + body@.take(i as int),
        decreases body@.len() - i,
    {
        out.push(body[i]);
        assert(body@.take(i + 1) =~= body@.take(i as int).push(body@[i as int]));
        i = i + 1;
    }
    assert(body@.take(body@.len() as int) =~= body@);
    assert(out@ =~= frame(body@));
    out
}

/// What a reader gets from bytes that begin with a frame: its length.
pub proof fn lemma_be32_round_trip(n: u32)
    ensures
        be32(n).len() == 4,
        be32_value(be32(n)) == n,
{
}

/// The head of a frame is the standard big-endian form of the length: the
/// first byte holds bits 24 to 31 of it, the second bits 16 to 23, the third
/// bits 8 to 15 and the last bits 0 to 7.
pub proof fn lemma_be32_is_big_endian(n: u32)
    ensures
        be32(n).len() == 4,
        be32(n)[0] == (n >> 24u32) as u8,
        be32(n)[1] == ((n >> 16u32) & 0xffu32) as u8,
        be32(n)[2] == ((n >> 8u32) & 0xffu32) as u8,
        be32(n)[3] == (n & 0xffu32) as u8,
{
    assert((n / 0x1000000) as u8 == (n >> 24u32) as u8) by (bit_vector);
    assert(((n / 0x10000) % 0x100) as u8 == ((n >> 16u32) & 0xffu32) as u8) by (bit_vector);
    assert(((n / 0x100) % 0x100) as u8 == ((n >> 8u32) & 0xffu32) as u8) by (bit_vector);
    assert((n % 0x100) as u8 == (n & 0xffu32) as u8) by (bit_vector);
}

/// Four bytes are read big-endian: the first byte gives bits 24 to 31 of the
/// number, the last bits 0 to 7; so the number fits in 32 bits, and writing
/// it back gives the same four bytes.
pub proof fn lemma_be32_value_is_big_endian(b: Seq<u8>)
    requires
        b.len() == 4,
    ensures
        0 <= be32_value(b) < 0x1_0000_0000,
        be32_value(b) == (((b[0] as u32) << 24u32) | ((b[1] as u32) << 16u32) | ((b[2] as u32)
            << 8u32) | (b[3] as u32)),
        be32(be32_value(b) as u32) == b,
{
    let x0: u8 = b[0];
    let x1: u8 = b[1];
    let x2: u8 = b[2];
    let x3: u8 = b[3];
    let v: u32 = ((x0 as u32) * 0x1000000 + (x1 as u32) * 0x10000 + (x2 as u32) * 0x100 + (
    x3 as u32)) as u32;
    assert(v == ((x0 as u32) << 24u32) | ((x1 as u32) << 16u32) | ((x2 as u32) << 8u32) | (
    x3 as u32)) by (bit_vector)
        requires
            v == ((x0 as u32) * 0x1000000 + (x1 as u32) * 0x10000 + (x2 as u32) * 0x100 + (
            x3 as u32)) as u32,
    ;
    assert(be32_value(b) == v);
    assert(be32(v) =~= b);
}

/// Reading the head of a frame gives the body's length, and the body follows
/// it, whatever comes after, when the length fits in 32 bits.
pub proof fn lemma_frame_round_trip(body: Seq<u8>, rest: Seq<u8>)
    requires
        body.len() < 0x1_0000_0000,
    ensures
        be32_value((frame(body) + rest).subrange(0, 4)) == body.len(),
        (frame(body) + rest).subrange(4, 4 + body.len() as int) == body,
        (frame(body) + rest).subrange(4 + body.len() as int, (frame(body) + rest).len() as int) == rest,
{
    let all = frame(body) + rest;
    let n = (body.len() % 0x1_0000_0000) as u32;
    assert(n == body.len());
    lemma_be32_round_trip(n);
    assert(all.subrange(0, 4) =~= be32(n));
    assert(all.subrange(4, 4 + body.len() as int) =~= body);
    assert(all.subrange(4 + body.len() as int, all.len() as int) =~= rest);
}

/// The reply to a file request, as the requester reads it.
pub enum FileResponse {
    /// The server refused, with this status.
    Rejected(Status),
    /// The server accepted: the proof bytes, then the file's bytes.
    Accepted { proof: Vec<u8>, file: Vec<u8> },
}

/// Why a reply could not be read.
#[derive(Debug, Clone, Copy, PartialEq, Eq, Structural)]
pub enum WireError {
    /// The reply ended before its status byte, or before the end of its proof frame.
    Truncated,
}

/// The length of the proof frame of an accepting reply.
pub open spec fn reply_proof_len(b: Seq<u8>) -> int {
    be32_value(b.subrange(1, 5))
}

/// A reply ends too early: no status byte, or an accepting reply whose
/// proof frame is cut short.
pub open spec fn reply_truncated(b: Seq<u8>) -> bool {
    ||| b.len() < 1
    ||| (b[0] == status_code(Status::Allowed) && (b.len() < 5 || b.len() < 5 + reply_proof_len(b)))
}

/// The head of an accepting reply: the `Allowed` byte and the proof frame;
/// the file's bytes follow it.
pub open spec fn accepted_reply_head(proof: Seq<u8>) -> Seq<u8> {
    seq![status_code(Status::Allowed)] + frame(proof)
}

fn copy_range(b: &[u8], from: usize, to: usize) -> (out: Vec<u8>)
    requires
        from <= to <= b@.len(),
    ensures
        out@ == b@.subrange(from as int, to as int),
{
    let mut out: Vec<u8> = Vec::new();
    let mut i = from;
    while i < to
        invariant
            from <= i <= to <= b@.len(),
            out@ == b@.subrange(from as int, i as int),
        decreases to - i,
    {
        out.push(b[i]);
        assert(b@.subrange(from as int, i + 1) =~= b@.subrange(from as int, i as int).push(
            b@[i as int],
        ));
        i = i + 1;
    }
    out
}

/// Reads the whole reply to a file request: a status byte; when it is
/// `Allowed`, a proof frame and then the file's bytes to the end.
pub fn parse_file_response(b: &[u8]) -> (r: Result<FileResponse, WireError>)
    ensures
        match r {
            Err(WireError::Truncated) => reply_truncated(b@),
            Ok(FileResponse::Rejected(s)) => !reply_truncated(b@) && b@[0] != status_code(
                Status::Allowed,
            ) && s == status_of_code(b@[0]),
            Ok(FileResponse::Accepted { proof, file }) => {
                &&& !reply_truncated(b@)
                &&& b@[0] == status_code(Status::Allowed)
                &&& proof@ == b@.subrange(5, 5 + reply_proof_len(b@))
                &&& file@ == b@.subrange(5 + reply_proof_len(b@), b@.len() as int)
            },
        },
{
    if b.len() < 1 {
        return Err(WireError::Truncated);
    }
    if b[0] != Status::Allowed.code() {
        return Ok(FileResponse::Rejected(Status::from_code(b[0])));
    }
    if b.len() < 5 {
        return Err(WireError::Truncated);
    }
    let n = u32_from_be([b[1], b[2], b[3], b[4]]);
    proof {
        assert([b[1], b[2], b[3], b[4]]@ =~= b@.subrange(1, 5));
    }
    if b.len() - 5 < n as usize {
        return Err(WireError::Truncated);
    }
    let end = 5 + n as usize;
    let proof = copy_range(b, 5, end);
    let file = copy_range(b, end, b.len());
    Ok(FileResponse::Accepted { proof, file })
}

/// An accepting reply is read back as the proof and the file it carries,
/// when the proof's length fits in 32 bits.
pub proof fn lemma_accepted_reply_round_trip(proof: Seq<u8>, file: Seq<u8>)
    requires
        proof.len() < 0x1_0000_0000,
    ensures
        !reply_truncated(accepted_reply_head(proof) + file),
        (accepted_reply_head(proof) + file)[0] == status_code(Status::Allowed),
        reply_proof_len(accepted_reply_head(proof) + file) == proof.len(),
        (accepted_reply_head(proof) + file).subrange(5, 5 + proof.len() as int) == proof,
        (accepted_reply_head(proof) + file).subrange(
            5 + proof.len() as int,
            (accepted_reply_head(proof) + file).len() as int,
        ) == file,
{
    let all = accepted_reply_head(proof) + file;
    let inner = frame(proof) + file;
    lemma_frame_round_trip(proof, file);
    assert(all =~= seq![status_code(Status::Allowed)] + inner);
    assert(all.subrange(1, 5) =~= inner.subrange(0, 4));
    assert(all.subrange(5, 5 + proof.len() as int) =~= inner.subrange(4, 4 + proof.len() as int));
    assert(all.subrange(5 + proof.len() as int, all.len() as int) =~= inner.subrange(
        4 + proof.len() as int,
        inner.len() as int,
    ));
}

/// A refusing reply is read back as the status it carries, whatever follows.
pub proof fn lemma_rejected_reply_round_trip(s: Status, rest: Seq<u8>)
    requires
        s != Status::Allowed,
    ensures
        !reply_truncated(seq![status_code(s)] + rest),
        (seq![status_code(s)] + rest)[0] != status_code(Status::Allowed),
        status_of_code((seq![status_code(s)] + rest)[0]) == s,
{
}

} // verus!
