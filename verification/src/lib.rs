//! Authentication core of a discussion-forum backend.
//!
//! The library covers the security-relevant subsystem: credential hashing,
//! bearer-token issue and verification, the request gate that guards
//! protected routes, and the register/login orchestration over a credential
//! store. Every executable function carries a verified contract; the only
//! trusted items are the thin wrappers around the SHA3 digest, the HMAC
//! signature primitive, and the bytes-to-string conversion.

pub mod base64url;
pub mod claims;
pub mod config;
pub mod dto;
pub mod gate;
pub mod hashing;
pub mod jstring;
pub mod models;
pub mod numbers;
pub mod responses;
pub mod store;
pub mod token;

use vstd::prelude::*;

verus! {

/// Equality of two byte slices, stated over their sequence views.
pub fn bytes_eq(a: &[u8], b: &[u8]) -> (r: bool)
    ensures
        r == (a@ == b@),
{
    if a.len() != b.len() {
        assert(a@.len() != b@.len());
        return false;
    }
    let mut i: usize = 0;
    while i < a.len()
        invariant
            0 <= i <= a@.len(),
            a@.len() == b@.len(),
            forall|j: int| 0 <= j < i ==> a@[j] == b@[j],
        decreases a@.len() - i,
    {
        if a[i] != b[i] {
            return false;
        }
        i += 1;
    }
    assert(a@ =~= b@);
    true
}

} // verus!
