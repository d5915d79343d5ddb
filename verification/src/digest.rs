//! SHA-256 fingerprints of file contents, as lowercase hex.

use sha2::{Digest, Sha256};
use vstd::prelude::*;

verus! {

/// The SHA-256 digest of `data`.
pub uninterp spec fn sha256(data: Seq<u8>) -> Seq<u8>;

/// A nibble as a lowercase hex digit.
pub open spec fn hex_digit(n: int) -> char {
    if n < 10 {
        (('0' as int) + n) as char
    } else {
        (('a' as int) + n - 10) as char
    }
}

/// `data` as lowercase hex, two digits per byte.
pub open spec fn hex_spec(data: Seq<u8>) -> Seq<char>
    decreases data.len(),
{
    if data.len() == 0 {
        Seq::empty()
    } else {
        hex_spec(data.drop_last()) + seq![
            hex_digit(data.last() as int / 16),
            hex_digit(data.last() as int % 16),
        ]
    }
}

/// `Sha256::digest` (sha2): the 32-byte digest of `data`.  The digest is
/// named, not computed here.
#[verifier::external_body]
fn sha256_digest(data: &[u8]) -> (r: Vec<u8>)
    ensures
        r@ == sha256(data@),
        r@.len() == 32,
{
    Sha256::digest(data).to_vec()
}

/// `hex::encode`: each byte as two lowercase hex digits, in order.
#[verifier::external_body]
fn hex_lower(data: &[u8]) -> (r: String)
    ensures
        r@ == hex_spec(data@),
{
    hex::encode(data)
}

/// The SHA-256 of `bytes`, in lowercase hex.
pub fn hash_bytes(bytes: &[u8]) -> (r: String)
    ensures
        r@ == hex_spec(sha256(bytes@)),
        r@.len() == 64,
{
    let d = sha256_digest(bytes);
    proof {
        lemma_hex_len(d@);
    }
    hex_lower(&d)
}

pub proof fn lemma_hex_len(data: Seq<u8>)
    ensures
        hex_spec(data).len() == 2 * data.len(),
    decreases data.len(),
{
    if data.len() > 0 {
        lemma_hex_len(data.drop_last());
    }
}

} // verus!
