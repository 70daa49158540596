//! Password hashing: a one-way hex digest computed by outside libraries.

use vstd::prelude::*;
use sha2::Digest;

verus! {

/// The SHA-256 digest of a password's UTF-8 bytes, written as lowercase hex
/// characters; a function of the password's characters alone.
pub uninterp spec fn sha256_hex_of(s: Seq<char>) -> Seq<char>;

/// Relies on sha2's `Sha256::digest` and `hex::encode`: the 32-byte SHA-256
/// digest of the password's bytes, encoded as two hex digits per byte, hence
/// 64 characters; the result depends on the password alone.
#[verifier::external_body]
pub(crate) fn hash_password(password: &str) -> (r: String)
    ensures
        r@ == sha256_hex_of(password@),
        r@.len() == 64,
{
    hex::encode(sha2::Sha256::digest(password.as_bytes()))
}

} // verus!
