//! Credential hashing: a deterministic one-way transform of a plaintext
//! password into a fixed-length digest, used both when a credential is stored
//! and when a login attempt is compared against the stored digest.

use vstd::prelude::*;
use vstd::utf8::encode_utf8;
use sha3::Digest;

verus! {

/// The SHA3-256 digest of a byte sequence. The digest is a function of the
/// input bytes alone; its definition is supplied by the `sha3` crate and is
/// not restated here.
pub uninterp spec fn sha3_256_of(bytes: Seq<u8>) -> Seq<u8>;

/// Relies on `sha3::Sha3_256` (through the `Digest` trait): a deterministic
/// 32-byte digest of the input bytes.
#[verifier::external_body]
fn sha3_256_digest(bytes: &[u8]) -> (r: Vec<u8>)
    ensures
        r@ == sha3_256_of(bytes@),
        r@.len() == 32,
{
    sha3::Sha3_256::digest(bytes).to_vec()
}

/// Hash a plaintext password into the digest that is stored beside the login.
/// The digest depends on the UTF-8 bytes of the text alone, so repeated calls
/// on equal inputs agree.
pub fn hash_text(text: String) -> (r: Vec<u8>)
    ensures
        r@ == sha3_256_of(encode_utf8(text@)),
        r@.len() == 32,
{
    sha3_256_digest(text.as_str().as_bytes())
}

} // verus!
