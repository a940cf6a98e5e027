//! SHA-256 digests, computed by the `sha2` crate, and their hexadecimal spelling.

use sha2::Digest;
use vstd::prelude::*;

use crate::bytes::ascii_chars;
use crate::otlp::entries::{hex_encode, hex_string};

verus! {

/// The SHA-256 digest of `bytes`.
pub uninterp spec fn sha256_of(bytes: Seq<u8>) -> Seq<u8>;

/// `sha2::Sha256::digest`: the digest of `bytes`, which depends on the bytes alone and
/// is 32 bytes long (the hash's fixed output size). What the digest is, beyond that, is
/// left to the name.
#[verifier::external_body]
pub(crate) fn sha256_digest(bytes: &[u8]) -> (r: Vec<u8>)
    ensures
        r@ == sha256_of(bytes@),
        r@.len() == 32,
{
    sha2::Sha256::digest(bytes).to_vec()
}

/// The SHA-256 digest of `value` in lower-case hexadecimal (64 digits).
pub fn sha256_hex(value: &[u8]) -> (r: String)
    ensures
        r@ == ascii_chars(hex_encode(sha256_of(value@))),
{
    let digest = sha256_digest(value);
    hex_string(digest.as_slice())
}

} // verus!
