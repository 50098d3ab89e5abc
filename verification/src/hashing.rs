//! Content hashing: a SHA-256 digest of a file's (or image's) bytes, shown as
//! lowercase hexadecimal. The digest identifies duplicate uploads and duplicate
//! embedded images.

use vstd::prelude::*;

verus! {

/// The SHA-256 digest of a byte sequence. The algorithm itself is the sha2
/// crate's business; the name only fixes that equal inputs give equal digests.
pub uninterp spec fn sha256_of(data: Seq<u8>) -> Seq<u8>;

/// Relies on sha2::Sha256::digest: a 32-byte digest determined by the input
/// bytes alone.
#[verifier::external_body]
fn sha256(data: &Vec<u8>) -> (r: Vec<u8>)
    ensures
        r@ == sha256_of(data@),
        r@.len() == 32,
{
    <sha2::Sha256 as sha2::Digest>::digest(data.as_slice()).to_vec()
}

/// The lowercase hexadecimal digit for a value below 16.
pub open spec fn hex_digit(v: u8) -> char {
    if v < 10 {
        (v + 48) as char
    } else {
        (v + 87) as char
    }
}

/// Two lowercase hexadecimal digits for each byte, high nibble first.
pub open spec fn hex_of_bytes(data: Seq<u8>) -> Seq<char>
    decreases data.len(),
{
    if data.len() == 0 {
        Seq::empty()
    } else {
        hex_of_bytes(data.drop_last()).push(hex_digit(data.last() / 16)).push(
            hex_digit(data.last() % 16),
        )
    }
}

fn hex_digit_char(v: u8) -> (c: char)
    requires
        v < 16,
    ensures
        c == hex_digit(v),
{
    if v < 10 {
        (v + 48) as char
    } else {
        (v + 87) as char
    }
}

/// Encode bytes as lowercase hexadecimal characters, two per byte.
pub fn hex_encode(data: &Vec<u8>) -> (r: Vec<char>)
    ensures
        r@ == hex_of_bytes(data@),
{
    let mut out: Vec<char> = Vec::new();
    let mut i: usize = 0;
    while i < data.len()
        invariant
            i <= data.len(),
            out@ == hex_of_bytes(data@.take(i as int)),
        decreases data.len() - i,
    {
        let b = data[i];
        out.push(hex_digit_char(b / 16));
        out.push(hex_digit_char(b % 16));
        i = i + 1;
        proof {
            assert(data@.take(i as int).drop_last() =~= data@.take(i - 1));
            assert(data@.take(i as int).last() == data@[i - 1]);
        }
    }
    proof {
        assert(data@.take(data@.len() as int) =~= data@);
    }
    out
}

/// The hexadecimal SHA-256 content hash of a byte buffer: 64 lowercase hex
/// characters identifying the content.
pub fn content_hash_hex(data: &Vec<u8>) -> (r: Vec<char>)
    ensures
        r@ == hex_of_bytes(sha256_of(data@)),
        r@.len() == 64,
{
    let digest = sha256(data);
    let r = hex_encode(&digest);
    proof {
        lemma_hex_len(digest@);
    }
    r
}

/// Hex encoding yields two characters per byte.
pub proof fn lemma_hex_len(data: Seq<u8>)
    ensures
        hex_of_bytes(data).len() == 2 * data.len(),
    decreases data.len(),
{
    if data.len() > 0 {
        lemma_hex_len(data.drop_last());
    }
}

} // verus!
