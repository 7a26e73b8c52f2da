//! Digests and constant-time comparison.

use vstd::prelude::*;
use vstd::string::StringSliceAdditionalSpecFns;
use vstd::utf8::encode_utf8;

use sha2::Digest;
use subtle::ConstantTimeEq;

use crate::ids::hex_digit;

verus! {

/// The SHA-256 digest of a sequence of bytes.
pub uninterp spec fn sha256_of(data: Seq<u8>) -> Seq<u8>;

/// `sha2::Sha256::digest`: the digest of `data`, which is thirty-two bytes long.
#[verifier::external_body]
fn sha256(data: &[u8]) -> (r: Vec<u8>)
    ensures
        r@ == sha256_of(data@),
        r@.len() == 32,
{
    sha2::Sha256::digest(data).to_vec()
}

/// The lower-case hexadecimal text of bytes: two digits each, high half first.
pub open spec fn hex_text(data: Seq<u8>) -> Seq<char> {
    Seq::new(
        2 * data.len(),
        |i: int|
            if i % 2 == 0 {
                hex_digit((data[i / 2] >> 4) as u128)
            } else {
                hex_digit((data[i / 2] & 0x0f) as u128)
            },
    )
}

/// `hex::encode`: the lower-case hexadecimal text of `data`.
#[verifier::external_body]
fn hex_encode(data: &Vec<u8>) -> (r: String)
    ensures
        r@ == hex_text(data@),
{
    hex::encode(data)
}

/// The lower-case hexadecimal text of the SHA-256 digest of bytes.
pub open spec fn sha256_text(data: Seq<u8>) -> Seq<char> {
    hex_text(sha256_of(data))
}

/// The lower-case hexadecimal text of the SHA-256 digest of `data`.
pub fn sha256_hex(data: &[u8]) -> (r: String)
    ensures
        r@ == sha256_text(data@),
        r@ == hex_text(sha256_of(data@)),
        r@.len() == 64,
{
    hex_encode(&sha256(data))
}

/// The key under which a capability token is stored.
pub open spec fn token_key(raw: Seq<char>) -> Seq<char> {
    sha256_text(encode_utf8(raw))
}

/// The key under which a capability token is stored: the token itself is never
/// kept in the clear.
pub fn token_hash(raw: &str) -> (r: String)
    ensures
        r@ == token_key(raw@),
        r@ == hex_text(sha256_of(encode_utf8(raw@))),
{
    sha256_hex(raw.as_bytes())
}

/// `subtle::ConstantTimeEq::ct_eq` on byte slices: whether both hold the same
/// bytes, found in time independent of what they are.
#[verifier::external_body]
pub(crate) fn ct_eq(a: &[u8], b: &[u8]) -> (r: bool)
    ensures
        r == (a@ == b@),
{
    a.ct_eq(b).into()
}

} // verus!
