//! SHA-256 digests.
use crate::text::{hex, to_hex};
use vstd::prelude::*;

verus! {

/// The SHA-256 digest of bytes.
pub uninterp spec fn sha256_of(data: Seq<u8>) -> Seq<u8>;

/// `sha2::Sha256::digest`: the digest of bytes, which is 32 bytes long and depends on them
/// alone.
#[verifier::external_body]
fn sha256(data: &[u8]) -> (r: Vec<u8>)
    ensures
        r@ == sha256_of(data@),
        r@.len() == 32,
{
    <sha2::Sha256 as sha2::Digest>::digest(data).to_vec()
}

/// The SHA-256 digest of bytes in hexadecimal notation.
pub open spec fn sha256_text(data: Seq<u8>) -> Seq<char> {
    hex(sha256_of(data))
}

/// The SHA-256 digest of bytes in hexadecimal notation: 64 digits in lower case.
pub fn sha256_hex(data: &[u8]) -> (r: String)
    ensures
        r@ == sha256_text(data@),
        r@.len() == 64,
{
    let digest = sha256(data);
    to_hex(digest.as_slice())
}

} // verus!
