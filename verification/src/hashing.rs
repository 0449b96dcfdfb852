//! Content fingerprinting for deduplication: a 256-bit digest behind a
//! trusted wrapper, hex-encoded by verified code.

use vstd::prelude::*;
use crate::text::{ascii_chars_of, ascii_string};
use sha2::Digest;

verus! {

/// What the SHA-256 digest of a byte sequence is; the result depends on
/// the bytes alone.
pub uninterp spec fn sha256_of(data: Seq<u8>) -> Seq<u8>;

/// Relies on `sha2::Sha256`: the digest is a function of the input bytes
/// alone and is 32 bytes long.
#[verifier::external_body]
fn sha256_digest(data: &[u8]) -> (r: Vec<u8>)
    ensures
        r@ == sha256_of(data@),
        r@.len() == 32,
{
    sha2::Sha256::digest(data).to_vec()
}

/// The ASCII code of the lower-case hex digit for a value below 16.
pub open spec fn hex_digit(d: int) -> u8 {
    if d < 10 {
        (48 + d) as u8
    } else {
        (87 + d) as u8
    }
}

/// The ASCII bytes of the lower-case hex encoding: two digits per byte,
/// high nibble first.
pub open spec fn hex_ascii(bytes: Seq<u8>) -> Seq<u8>
    decreases bytes.len(),
{
    if bytes.len() == 0 {
        Seq::empty()
    } else {
        hex_ascii(bytes.drop_last()) + seq![
            hex_digit(bytes.last() as int / 16),
            hex_digit(bytes.last() as int % 16),
        ]
    }
}

/// The hex digest string of a byte sequence: the digest's bytes encoded
/// as lower-case hex characters.
pub open spec fn sha256_hex(data: Seq<u8>) -> Seq<char> {
    ascii_chars_of(hex_ascii(sha256_of(data)))
}

proof fn lemma_hex_ascii_len(bytes: Seq<u8>)
    ensures
        hex_ascii(bytes).len() == 2 * bytes.len(),
        forall|i: int| 0 <= i < hex_ascii(bytes).len() ==> hex_ascii(bytes)[i] < 128,
    decreases bytes.len(),
{
    if bytes.len() > 0 {
        lemma_hex_ascii_len(bytes.drop_last());
    }
}

/// Encode bytes as lower-case hex ASCII.
fn to_hex_ascii(bytes: &Vec<u8>) -> (r: Vec<u8>)
    ensures
        r@ == hex_ascii(bytes@),
{
    let mut r: Vec<u8> = Vec::new();
    let mut i: usize = 0;
    while i < bytes.len()
        invariant
            i <= bytes@.len(),
            r@ == hex_ascii(bytes@.take(i as int)),
        decreases bytes@.len() - i,
    {
        let b = bytes[i];
        let hi = b / 16;
        let lo = b % 16;
        let hc: u8 = if hi < 10 {
            48 + hi
        } else {
            87 + hi
        };
        let lc: u8 = if lo < 10 {
            48 + lo
        } else {
            87 + lo
        };
        r.push(hc);
        r.push(lc);
        proof {
            assert(bytes@.take(i + 1 as int).drop_last() =~= bytes@.take(i as int));
            assert(r@ =~= hex_ascii(bytes@.take(i + 1 as int)));
        }
        i = i + 1;
    }
    proof {
        assert(bytes@.take(bytes@.len() as int) =~= bytes@);
    }
    r
}

/// Compute the SHA-256 hash of content bytes as a lower-case hex string.
/// Equal inputs give equal digests: the result is a function of the
/// bytes alone.
pub fn compute_hash(data: &[u8]) -> (r: String)
    ensures
        r@ == sha256_hex(data@),
        r@.len() == 64,
{
    let digest = sha256_digest(data);
    let hex = to_hex_ascii(&digest);
    proof {
        lemma_hex_ascii_len(digest@);
    }
    ascii_string(hex)
}

} // verus!
