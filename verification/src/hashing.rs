use vstd::prelude::*;

verus! {

/// The lower-case hexadecimal digits, in order of value.
pub open spec fn hex_lower_digits() -> Seq<char> {
    seq!['0', '1', '2', '3', '4', '5', '6', '7', '8', '9', 'a', 'b', 'c', 'd', 'e', 'f']
}

/// The value of one hexadecimal digit; upper and lower case are both digits.
pub open spec fn hex_digit_value(c: char) -> Option<u8> {
    let n = c as u32;
    if 48 <= n <= 57 {
        Some((n - 48) as u8)
    } else if 97 <= n <= 102 {
        Some((n - 87) as u8)
    } else if 65 <= n <= 70 {
        Some((n - 55) as u8)
    } else {
        None
    }
}

/// What a hexadecimal text stands for: one byte per two digits, high digit
/// first; `None` for an odd number of characters or for a character that is
/// no digit.
pub open spec fn hex_decode_chars(s: Seq<char>) -> Option<Seq<u8>>
    decreases s.len(),
{
    if s.len() == 0 {
        Some(Seq::empty())
    } else if s.len() == 1 {
        None
    } else {
        match (hex_digit_value(s[0]), hex_digit_value(s[1]), hex_decode_chars(s.skip(2))) {
            (Some(hi), Some(lo), Some(rest)) => Some(seq![(hi * 16 + lo) as u8] + rest),
            _ => None,
        }
    }
}

/// The lower-case hexadecimal text of a byte string, two digits per byte.
pub open spec fn hex_encode_lower(b: Seq<u8>) -> Seq<char>
    decreases b.len(),
{
    if b.len() == 0 {
        Seq::empty()
    } else {
        seq![hex_lower_digits()[(b[0] / 16) as int], hex_lower_digits()[(b[0] % 16) as int]]
            + hex_encode_lower(b.drop_first())
    }
}

/// The SHA-256 digest of a byte string.
pub uninterp spec fn sha256_bytes(data: Seq<u8>) -> Seq<u8>;

#[verifier::external_type_specification]
#[verifier::external_body]
pub struct ExFromHexError(hex::FromHexError);

/// Calls `hex::decode`. The contract claims what the crate's source shows:
/// the text decodes exactly when it has an even number of characters that are
/// all hexadecimal digits of either case, and then each pair of digits gives
/// one byte, high digit first. Which error variant comes back is left unsaid.
#[verifier::external_body]
fn hex_decode(s: &str) -> (r: Result<Vec<u8>, hex::FromHexError>)
    ensures
        r is Ok <==> hex_decode_chars(s@) is Some,
        r matches Ok(v) ==> v@ == hex_decode_chars(s@)->0,
{
    hex::decode(s)
}

/// Calls `sha256::digest` on a byte slice. The contract claims that the text
/// returned is the lower-case hexadecimal encoding (64 characters) of the
/// SHA-256 digest of the bytes, as the crate's source computes it with
/// `hex::encode`; the digest itself is named, not stated.
#[verifier::external_body]
fn sha256_hex(data: &[u8]) -> (r: String)
    ensures
        r@ == hex_encode_lower(sha256_bytes(data@)),
        r@.len() == 64,
{
    sha256::digest(data)
}

/// Why a text could not be read as a 32-byte hash.
#[derive(Debug, Clone, Copy, PartialEq, Eq, Structural)]
pub enum HashTextError {
    /// The text is not hexadecimal.
    NotHex,
    /// The text is hexadecimal but does not stand for exactly 32 bytes.
    WrongLength,
}

/// What reading a text as a 32-byte hash gives.
pub open spec fn hash_of_text(s: Seq<char>) -> Result<Seq<u8>, HashTextError> {
    match hex_decode_chars(s) {
        None => Err(HashTextError::NotHex),
        Some(b) => if b.len() == 32 {
            Ok(b)
        } else {
            Err(HashTextError::WrongLength)
        },
    }
}

proof fn lemma_hex_digit_round_trip(v: int)
    requires
        0 <= v < 16,
    ensures
        hex_digit_value(hex_lower_digits()[v]) == Some(v as u8),
{
    let d = hex_lower_digits();
    if v == 0 { assert(d[v] == '0'); }
    else if v == 1 { assert(d[v] == '1'); }
    else if v == 2 { assert(d[v] == '2'); }
    else if v == 3 { assert(d[v] == '3'); }
    else if v == 4 { assert(d[v] == '4'); }
    else if v == 5 { assert(d[v] == '5'); }
    else if v == 6 { assert(d[v] == '6'); }
    else if v == 7 { assert(d[v] == '7'); }
    else if v == 8 { assert(d[v] == '8'); }
    else if v == 9 { assert(d[v] == '9'); }
    else if v == 10 { assert(d[v] == 'a'); }
    else if v == 11 { assert(d[v] == 'b'); }
    else if v == 12 { assert(d[v] == 'c'); }
    else if v == 13 { assert(d[v] == 'd'); }
    else if v == 14 { assert(d[v] == 'e'); }
    else { assert(d[v] == 'f'); }
}

/// Hexadecimal encoding doubles the length.
pub proof fn lemma_hex_encode_len(b: Seq<u8>)
    ensures
        hex_encode_lower(b).len() == 2 * b.len(),
    decreases b.len(),
{
    if b.len() > 0 {
        lemma_hex_encode_len(b.drop_first());
    }
}

/// Decoding the lower-case hexadecimal text of a byte string gives the byte
/// string back.
pub proof fn lemma_hex_decode_encode(b: Seq<u8>)
    ensures
        hex_decode_chars(hex_encode_lower(b)) == Some(b),
    decreases b.len(),
{
    if b.len() > 0 {
        let e = hex_encode_lower(b);
        let rest = hex_encode_lower(b.drop_first());
        lemma_hex_decode_encode(b.drop_first());
        lemma_hex_digit_round_trip((b[0] / 16) as int);
        lemma_hex_digit_round_trip((b[0] % 16) as int);
        assert(e.skip(2) =~= rest);
        assert(seq![(((b[0] / 16) as u8) * 16 + (b[0] % 16) as u8) as u8] + b.drop_first() =~= b);
    }
}

/// Copies a 32-byte vector into an array.
fn to_hash_array(v: &Vec<u8>) -> (a: [u8; 32])
    requires
        v@.len() == 32,
    ensures
        a@ == v@,
{
    let mut a = [0u8; 32];
    let mut i: usize = 0;
    while i < 32
        invariant
            v@.len() == 32,
            0 <= i <= 32,
            a@.len() == 32,
            forall|j: int| 0 <= j < i ==> a@[j] == v@[j],
        decreases 32 - i,
    {
        a[i] = v[i];
        i = i + 1;
    }
    assert(a@ =~= v@);
    a
}

/// Reads a hexadecimal text as a 32-byte hash (a Merkle root named by its
/// text, or a digest printed as hex).
pub fn decode_hash(s: &str) -> (r: Result<[u8; 32], HashTextError>)
    ensures
        match (r, hash_of_text(s@)) {
            (Ok(a), Ok(b)) => a@ == b,
            (Err(e1), Err(e2)) => e1 == e2,
            _ => false,
        },
{
    match hex_decode(s) {
        Ok(v) => {
            if v.len() == 32 {
                Ok(to_hash_array(&v))
            } else {
                Err(HashTextError::WrongLength)
            }
        },
        Err(_) => Err(HashTextError::NotHex),
    }
}

/// The SHA-256 digest of a file's bytes, as the 32-byte leaf that stands for
/// the file in a Merkle tree. The digest is computed as hex text and read
/// back, which cannot fail.
pub fn file_leaf(data: &[u8]) -> (leaf: [u8; 32])
    ensures
        leaf@ == sha256_bytes(data@),
{
    let text = sha256_hex(data);
    proof {
        lemma_hex_encode_len(sha256_bytes(data@));
        lemma_hex_decode_encode(sha256_bytes(data@));
    }
    match decode_hash(text.as_str()) {
        Ok(a) => a,
        Err(_) => {
            proof {
                assert(false);
            }
            [0u8; 32]
        },
    }
}

} // verus!
