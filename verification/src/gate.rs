//! The auth gate: the pure decision taken in front of every protected
//! route. Given the request's authorization header value, the secret key and
//! the clock, it either attaches verified claims or rejects the request with
//! the fixed unauthorized reply — no other outcome exists.

use vstd::prelude::*;
use vstd::slice::slice_subrange;
use vstd::utf8::encode_utf8;

use crate::bytes_eq;
use crate::claims::Claims;
use crate::responses::{
    body_pass_token, body_token_incorrect, err_body_bytes, msg_pass_token, msg_token_incorrect,
};
use crate::token::{spec_verify, verify_bytes, VerificationFailure};

verus! {

/// What the auth gate decides for one request: hand the verified claims to the
/// handler, or answer with a status and body at once.
pub enum GateOutcome {
    Proceed(Claims),
    Reject(u16, String),
}

/// `Bearer ` — the scheme prefix stripped off the header value.
pub open spec fn bearer_lit() -> Seq<u8> {
    seq![66u8, 101u8, 97u8, 114u8, 101u8, 114u8, 32u8]
}

/// The token text inside a header value: the value with one leading
/// `Bearer ` removed, or the value itself when the prefix is absent.
pub open spec fn stripped_token(h: Seq<u8>) -> Seq<u8> {
    if h.len() >= 7 && h.subrange(0, 7) == bearer_lit() {
        h.skip(7)
    } else {
        h
    }
}

/// Exec form of the scheme prefix.
fn bearer_vec() -> (v: Vec<u8>)
    ensures
        v@ == bearer_lit(),
{
    let v: Vec<u8> = vec![66u8, 101u8, 97u8, 114u8, 101u8, 114u8, 32u8];
    proof {
        assert(v@ =~= bearer_lit());
    }
    v
}

/// Verify a bearer token and hand back its claims; `None` on any
/// verification failure.
pub fn authorize_current_user(auth_token: &str, secret_key: &str, now: u64) -> (r: Option<Claims>)
    ensures
        r matches Some(c) ==> spec_verify(encode_utf8(auth_token@), encode_utf8(secret_key@), now)
            == Ok::<(Seq<u8>, int, int), VerificationFailure>(
            (c.sub_bytes(), c.user_id as int, c.exp as int),
        ),
        r is None ==> spec_verify(encode_utf8(auth_token@), encode_utf8(secret_key@), now) is Err,
{
    match crate::token::verify(auth_token, secret_key, now) {
        Ok(c) => Some(c),
        Err(_) => None,
    }
}

/// The auth gate itself. No header: reject with `pass token`. A header: strip
/// the scheme prefix, verify, and either proceed with the claims or reject
/// with `token is incorrect`. Every rejection carries the unauthorized
/// status and nothing else is ever produced.
pub fn authorize_request(header: Option<&str>, secret_key: &str, now: u64) -> (r: GateOutcome)
    ensures
        header is None ==> (r matches GateOutcome::Reject(s, b) && s == 401 && encode_utf8(b@)
            == err_body_bytes(msg_pass_token())),
        (header matches Some(h) && spec_verify(
            stripped_token(encode_utf8(h@)),
            encode_utf8(secret_key@),
            now,
        ) is Err) ==> (r matches GateOutcome::Reject(s, b) && s == 401 && encode_utf8(b@)
            == err_body_bytes(msg_token_incorrect())),
        (header matches Some(h) && spec_verify(
            stripped_token(encode_utf8(h@)),
            encode_utf8(secret_key@),
            now,
        ) is Ok) ==> (r matches GateOutcome::Proceed(c) && header matches Some(h) && Ok::<
            (Seq<u8>, int, int),
            VerificationFailure,
        >((c.sub_bytes(), c.user_id as int, c.exp as int)) == spec_verify(
            stripped_token(encode_utf8(h@)),
            encode_utf8(secret_key@),
            now,
        )),
{
    let h = match header {
        None => {
            return GateOutcome::Reject(401, body_pass_token());
        },
        Some(h) => h,
    };
    let hb = h.as_bytes();
    let bearer = bearer_vec();
    let tok: &[u8] = if hb.len() >= 7 && bytes_eq(slice_subrange(hb, 0, 7), bearer.as_slice()) {
        let t = slice_subrange(hb, 7, hb.len());
        proof {
            assert(t@ =~= stripped_token(hb@));
        }
        t
    } else {
        proof {
            assert(hb@ == stripped_token(hb@));
        }
        hb
    };
    match verify_bytes(tok, secret_key.as_bytes(), now) {
        Ok(c) => GateOutcome::Proceed(c),
        Err(_) => GateOutcome::Reject(401, body_token_incorrect()),
    }
}

} // verus!
