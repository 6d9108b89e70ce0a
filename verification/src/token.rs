//! Bearer tokens: issue a signed token for a claims value, and verify a
//! presented token's structure, signature and expiry.
//!
//! A token is `base64url(header) "." base64url(payload) "." signature`,
//! HMAC-SHA256-signed over everything before the second dot. The header and
//! payload encodings are built and parsed by verified code; only the MAC
//! itself is computed by the `jsonwebtoken` crate behind a trusted wrapper.

use vstd::prelude::*;
use vstd::slice::slice_subrange;
use vstd::utf8::{
    encode_utf8, is_leading_byte_width_1, partial_valid_utf8, partial_valid_utf8_extend_ascii_block,
    valid_utf8,
};

use vstd::string::StringExecFns;

use crate::base64url::{
    b64u_decode, b64u_decode_bytes, b64u_encode, b64u_encode_bytes, is_b64u_byte,
    lemma_b64u_encode_alphabet, lemma_b64u_roundtrip,
};
use crate::bytes_eq;
use crate::jstring::{is_plain_byte, lemma_plain_concat};
use crate::claims::{
    lemma_concat_piece, lemma_parse_of_payload, parse_payload, parse_payload_bytes, payload_bytes,
    Claims,
};
use crate::numbers::pow10;

verus! {

/// Why a presented token was rejected. The three cases are reported to the
/// client as one unauthorized response; they are distinguished here for
/// diagnostics and for the contracts.
#[derive(Clone, Copy, Debug, PartialEq, Eq, Structural)]
pub enum VerificationFailure {
    /// The token does not have the canonical three-part shape.
    Malformed,
    /// The signature does not match the secret key.
    BadSignature,
    /// The expiry instant is not after the present instant.
    Expired,
}

/// Issuing failed inside the signing primitive. With the configured HMAC
/// provider this cannot happen; the case is kept because the interface
/// treats signing as fallible.
#[derive(Clone, Copy, Debug, PartialEq, Eq, Structural)]
pub struct SigningError;

/// Seconds in the fixed validity window of thirty-one days.
pub const TOKEN_VALIDITY_SECS: u64 = 2678400;

/// Expiry instants are kept below this bound so that every rendered token
/// stays within the canonical nineteen-digit numeric field.
pub const MAX_EXPIRY: u64 = 10000000000000000000;

/// The fixed token header `{"typ":"JWT","alg":"HS256"}`.
pub open spec fn header_json() -> Seq<u8> {
    seq![
        123u8, 34u8, 116u8, 121u8, 112u8, 34u8, 58u8, 34u8, 74u8, 87u8, 84u8, 34u8, 44u8, 34u8,
        97u8, 108u8, 103u8, 34u8, 58u8, 34u8, 72u8, 83u8, 50u8, 53u8, 54u8, 34u8, 125u8,
    ]
}

/// The HMAC-SHA256 signature of a message under a key, already in base64url
/// text form, exactly as the signing primitive returns it. A function of the
/// message and key alone; its definition lives in the outside crate.
pub uninterp spec fn hs256_sig_of(msg: Seq<u8>, key: Seq<u8>) -> Seq<u8>;

/// The signature text consists of base64url alphabet bytes — in particular
/// it holds no dot. The signing wrapper grants this at every call.
pub open spec fn sig_is_b64u(msg: Seq<u8>, key: Seq<u8>) -> bool {
    forall|i: int|
        0 <= i < hs256_sig_of(msg, key).len() ==> is_b64u_byte(#[trigger] hs256_sig_of(msg, key)[i])
}

#[verifier::external_type_specification]
#[verifier::external_body]
pub struct ExJwtError(jsonwebtoken::errors::Error);

/// Relies on `jsonwebtoken::crypto::sign` with `Algorithm::HS256` and an
/// `EncodingKey::from_secret` key: the returned text is the base64url form
/// of the HMAC-SHA256 of the message under the key, a deterministic function
/// of the two arguments; its bytes are base64url alphabet bytes; and with
/// this provider the HMAC path cannot fail (the key is always accepted and
/// HMAC itself is total), so the call returns `Ok`.
#[verifier::external_body]
fn hs256_sign(msg: &[u8], key: &[u8]) -> (r: Result<String, jsonwebtoken::errors::Error>)
    ensures
        r is Ok,
        r matches Ok(s) ==> encode_utf8(s@) == hs256_sig_of(msg@, key@) && sig_is_b64u(msg@, key@),
{
    jsonwebtoken::crypto::sign(
        msg,
        &jsonwebtoken::EncodingKey::from_secret(key),
        jsonwebtoken::Algorithm::HS256,
    )
}

/// Relies on `String::from_utf8`: `Ok` exactly on valid UTF-8 input, and the
/// returned string holds exactly the input bytes.
#[verifier::external_body]
pub(crate) fn bytes_to_string(v: Vec<u8>) -> (r: Option<String>)
    ensures
        r is Some <==> valid_utf8(v@),
        r matches Some(s) ==> encode_utf8(s@) == v@,
{
    match String::from_utf8(v) {
        Ok(s) => Some(s),
        Err(_) => None,
    }
}

/// UTF-8 encoding distributes over concatenation.
pub proof fn lemma_encode_utf8_append(a: Seq<char>, b: Seq<char>)
    ensures
        encode_utf8(a + b) == encode_utf8(a) + encode_utf8(b),
    decreases a.len(),
{
    if a.len() == 0 {
        assert(a + b =~= b);
        assert(encode_utf8(a) + encode_utf8(b) =~= encode_utf8(b));
    } else {
        let s = a + b;
        assert(s[0] == a[0]);
        assert(s.drop_first() =~= a.drop_first() + b);
        lemma_encode_utf8_append(a.drop_first(), b);
        assert(encode_utf8(a + b) =~= encode_utf8(a) + encode_utf8(b));
    }
}

/// A sequence of ASCII bytes is valid UTF-8.
pub(crate) proof fn lemma_ascii_bytes_valid_utf8(s: Seq<u8>)
    requires
        forall|i: int| 0 <= i < s.len() ==> #[trigger] s[i] < 128,
    ensures
        valid_utf8(s),
{
    assert(forall|i: int| 0 <= i < s.len() ==> is_leading_byte_width_1(#[trigger] s[i]));
    assert(s.subrange(0, 0) =~= Seq::<u8>::empty());
    assert(partial_valid_utf8(s, 0));
    partial_valid_utf8_extend_ascii_block(s, 0, s.len() as int);
    assert(s.subrange(0, s.len() as int) =~= s);
}

/// First index at or after `i` holding byte `b`, or the length.
pub open spec fn find_byte(s: Seq<u8>, i: int, b: u8) -> int
    decreases s.len() - i,
{
    if i < 0 || i >= s.len() {
        s.len() as int
    } else if s[i] == b {
        i
    } else {
        find_byte(s, i + 1, b)
    }
}

/// `find_byte` lands on the first occurrence.
proof fn lemma_find_byte(s: Seq<u8>, i: int, j: int, b: u8)
    requires
        0 <= i <= j <= s.len(),
        forall|k: int| i <= k < j ==> #[trigger] s[k] != b,
        j == s.len() || s[j] == b,
    ensures
        find_byte(s, i, b) == j,
    decreases j - i,
{
    if i < j {
        lemma_find_byte(s, i + 1, j, b);
    }
}

/// The three dot-separated parts of a token; `None` unless there are
/// exactly two dots.
pub open spec fn split3(t: Seq<u8>) -> Option<(Seq<u8>, Seq<u8>, Seq<u8>)> {
    let d1 = find_byte(t, 0, 46);
    let d2 = find_byte(t, d1 + 1, 46);
    let d3 = find_byte(t, d2 + 1, 46);
    if d1 == t.len() || d2 == t.len() || d3 != t.len() {
        None
    } else {
        Some((t.subrange(0, d1), t.subrange(d1 + 1, d2), t.subrange(d2 + 1, t.len() as int)))
    }
}

/// The byte form of the signing input: encoded header, dot, encoded payload.
pub open spec fn signing_input(sub: Seq<u8>, user_id: int, exp: nat) -> Seq<u8> {
    b64u_encode(header_json()) + seq![46u8] + b64u_encode(payload_bytes(sub, user_id, exp))
}

/// The byte form of a finished token under a key.
pub open spec fn token_bytes(sub: Seq<u8>, user_id: int, exp: nat, key: Seq<u8>) -> Seq<u8> {
    signing_input(sub, user_id, exp) + seq![46u8] + hs256_sig_of(
        signing_input(sub, user_id, exp),
        key,
    )
}

/// The verification outcome on a token's bytes under a key at an instant:
/// the steps are structure, then signature, then expiry, and the claims
/// fields come out exactly as embedded.
pub open spec fn spec_verify(t: Seq<u8>, key: Seq<u8>, now: u64) -> Result<
    (Seq<u8>, int, int),
    VerificationFailure,
> {
    match split3(t) {
        None => Err(VerificationFailure::Malformed),
        Some((h, p, s)) => {
            if h != b64u_encode(header_json()) {
                Err(VerificationFailure::Malformed)
            } else {
                match b64u_decode(p) {
                    None => Err(VerificationFailure::Malformed),
                    Some(pl) => match parse_payload(pl) {
                        None => Err(VerificationFailure::Malformed),
                        Some((sub, uid, exp)) => if !valid_utf8(sub) {
                            Err(VerificationFailure::Malformed)
                        } else if s != hs256_sig_of(h + seq![46u8] + p, key) {
                            Err(VerificationFailure::BadSignature)
                        } else if now as int >= exp {
                            Err(VerificationFailure::Expired)
                        } else {
                            Ok((sub, uid, exp))
                        },
                    },
                }
            }
        },
    }
}

/// Exec form of the fixed header bytes.
fn header_json_vec() -> (v: Vec<u8>)
    ensures
        v@ == header_json(),
{
    let v: Vec<u8> = vec![
        123u8, 34u8, 116u8, 121u8, 112u8, 34u8, 58u8, 34u8, 74u8, 87u8, 84u8, 34u8, 44u8, 34u8,
        97u8, 108u8, 103u8, 34u8, 58u8, 34u8, 72u8, 83u8, 50u8, 53u8, 54u8, 34u8, 125u8,
    ];
    proof {
        assert(v@ =~= header_json());
    }
    v
}

/// Issue a signed bearer token for the given identity: the claims carry the
/// login as subject, the user id, and an expiry of the present instant plus
/// the fixed validity window. With the configured signing provider issuing
/// always succeeds.
pub fn issue(user_id: i64, login: &str, secret_key: &str, now: u64) -> (r: Result<
    String,
    SigningError,
>)
    requires
        now + TOKEN_VALIDITY_SECS < MAX_EXPIRY,
    ensures
        r is Ok,
        r matches Ok(t) ==> encode_utf8(t@) == token_bytes(
            encode_utf8(login@),
            user_id as int,
            (now + TOKEN_VALIDITY_SECS) as nat,
            encode_utf8(secret_key@),
        ) && sig_is_b64u(
            signing_input(encode_utf8(login@), user_id as int, (now + TOKEN_VALIDITY_SECS) as nat),
            encode_utf8(secret_key@),
        ),
{
    let exp: u64 = now + TOKEN_VALIDITY_SECS;
    let header = header_json_vec();
    let mut input = b64u_encode_bytes(header.as_slice());
    input.push(46);
    let payload = crate::claims::render_payload(login.as_bytes(), user_id, exp);
    let mut payload_b64 = b64u_encode_bytes(payload.as_slice());
    input.append(&mut payload_b64);
    let ghost sin = signing_input(
        encode_utf8(login@),
        user_id as int,
        exp as nat,
    );
    proof {
        assert(input@ =~= sin);
    }
    let sig = match hs256_sign(input.as_slice(), secret_key.as_bytes()) {
        Ok(s) => s,
        Err(_) => {
            return Err(SigningError);
        },
    };
    input.push(46);
    proof {
        lemma_b64u_encode_alphabet(header_json());
        lemma_b64u_encode_alphabet(
            payload_bytes(encode_utf8(login@), user_id as int, exp as nat),
        );
        assert(forall|i: int| 0 <= i < input@.len() ==> #[trigger] input@[i] < 128) by {
            assert(forall|i: int| 0 <= i < sin.len() ==> #[trigger] sin[i] < 128);
            assert(forall|i: int| 0 <= i < sin.len() ==> input@[i] == sin[i]);
        }
        lemma_ascii_bytes_valid_utf8(input@);
    }
    let prefix = match bytes_to_string(input) {
        Some(s) => s,
        None => {
            return Err(SigningError);
        },
    };
    let token = prefix.concat(sig.as_str());
    proof {
        lemma_encode_utf8_append(prefix@, sig@);
        assert(encode_utf8(token@) =~= token_bytes(
            encode_utf8(login@),
            user_id as int,
            exp as nat,
            encode_utf8(secret_key@),
        ));
    }
    Ok(token)
}

/// Exec scan for the first dot at or after `i`.
fn find_dot(p: &[u8], i: usize) -> (j: usize)
    requires
        i <= p@.len(),
    ensures
        j as int == find_byte(p@, i as int, 46),
        i <= j <= p@.len(),
        j == p@.len() || p@[j as int] == 46,
        forall|k: int| i <= k < j ==> #[trigger] p@[k] != 46,
{
    let mut j: usize = i;
    while j < p.len() && p[j] != 46
        invariant
            i <= j <= p@.len(),
            forall|k: int| i <= k < j ==> #[trigger] p@[k] != 46,
        decreases p@.len() - j,
    {
        j += 1;
    }
    proof {
        lemma_find_byte(p@, i as int, j as int, 46);
    }
    j
}

/// Verify a presented token under the secret key at the present instant:
/// parse the three-part structure, compare a freshly computed signature,
/// compare the expiry against `now`, and only then hand out the embedded
/// claims.
pub fn verify(token: &str, secret_key: &str, now: u64) -> (r: Result<Claims, VerificationFailure>)
    ensures
        r matches Ok(c) ==> spec_verify(encode_utf8(token@), encode_utf8(secret_key@), now)
            == Ok::<(Seq<u8>, int, int), VerificationFailure>(
            (c.sub_bytes(), c.user_id as int, c.exp as int),
        ),
        r matches Err(f) ==> spec_verify(encode_utf8(token@), encode_utf8(secret_key@), now)
            == Err::<(Seq<u8>, int, int), VerificationFailure>(f),
{
    verify_bytes(token.as_bytes(), secret_key.as_bytes(), now)
}

/// The byte-level core of [`verify`], for callers that already hold the
/// token text as bytes (the auth gate hands over the stripped header value).
pub fn verify_bytes(tb: &[u8], key: &[u8], now: u64) -> (r: Result<Claims, VerificationFailure>)
    ensures
        r matches Ok(c) ==> spec_verify(tb@, key@, now) == Ok::<
            (Seq<u8>, int, int),
            VerificationFailure,
        >((c.sub_bytes(), c.user_id as int, c.exp as int)),
        r matches Err(f) ==> spec_verify(tb@, key@, now) == Err::<
            (Seq<u8>, int, int),
            VerificationFailure,
        >(f),
{
    let d1 = find_dot(tb, 0);
    if d1 == tb.len() {
        return Err(VerificationFailure::Malformed);
    }
    let d2 = find_dot(tb, d1 + 1);
    if d2 == tb.len() {
        return Err(VerificationFailure::Malformed);
    }
    let d3 = find_dot(tb, d2 + 1);
    if d3 != tb.len() {
        return Err(VerificationFailure::Malformed);
    }
    let ghost h = tb@.subrange(0, d1 as int);
    let ghost p = tb@.subrange(d1 as int + 1, d2 as int);
    let ghost s = tb@.subrange(d2 as int + 1, tb@.len() as int);
    assert(split3(tb@) == Some((h, p, s)));

    let header = header_json_vec();
    let header_b64 = b64u_encode_bytes(header.as_slice());
    if !bytes_eq(slice_subrange(tb, 0, d1), header_b64.as_slice()) {
        return Err(VerificationFailure::Malformed);
    }
    let pl = match b64u_decode_bytes(slice_subrange(tb, d1 + 1, d2)) {
        Some(v) => v,
        None => {
            return Err(VerificationFailure::Malformed);
        },
    };
    let (subv, uid, exp) = match parse_payload_bytes(pl.as_slice()) {
        Some(t) => t,
        None => {
            return Err(VerificationFailure::Malformed);
        },
    };
    let sub = match bytes_to_string(subv) {
        Some(st) => st,
        None => {
            return Err(VerificationFailure::Malformed);
        },
    };
    let sig = match hs256_sign(slice_subrange(tb, 0, d2), key) {
        Ok(st) => st,
        Err(_) => {
            return Err(VerificationFailure::BadSignature);
        },
    };
    proof {
        assert(tb@.subrange(0, d2 as int) =~= h + seq![46u8] + p);
    }
    if !bytes_eq(slice_subrange(tb, d2 + 1, tb.len()), sig.as_str().as_bytes()) {
        return Err(VerificationFailure::BadSignature);
    }
    if now >= exp {
        return Err(VerificationFailure::Expired);
    }
    Ok(Claims { sub, user_id: uid, exp })
}

/// Issued token bytes are plain text: base64url alphabet bytes and dots,
/// so the token passes through a JSON string body unchanged.
pub proof fn lemma_token_bytes_plain(sub: Seq<u8>, user_id: int, exp: nat, key: Seq<u8>)
    ensures
        sig_is_b64u(signing_input(sub, user_id, exp), key) ==> forall|i: int|
            0 <= i < token_bytes(sub, user_id, exp, key).len() ==> is_plain_byte(
                #[trigger] token_bytes(sub, user_id, exp, key)[i],
            ),
{
    if !sig_is_b64u(signing_input(sub, user_id, exp), key) {
        return;
    }
    let hb = b64u_encode(header_json());
    let pe = b64u_encode(payload_bytes(sub, user_id, exp));
    let sin = signing_input(sub, user_id, exp);
    let sg = hs256_sig_of(sin, key);
    lemma_b64u_encode_alphabet(header_json());
    lemma_b64u_encode_alphabet(payload_bytes(sub, user_id, exp));
    assert forall|i: int| 0 <= i < hb.len() implies is_plain_byte(#[trigger] hb[i]) by {
        assert(is_b64u_byte(hb[i]));
    }
    assert forall|i: int| 0 <= i < pe.len() implies is_plain_byte(#[trigger] pe[i]) by {
        assert(is_b64u_byte(pe[i]));
    }
    assert forall|i: int| 0 <= i < sg.len() implies is_plain_byte(#[trigger] sg[i]) by {
        assert(is_b64u_byte(sg[i]));
    }
    let dot = seq![46u8];
    assert(forall|i: int| 0 <= i < dot.len() ==> is_plain_byte(#[trigger] dot[i]));
    lemma_plain_concat(hb, dot);
    lemma_plain_concat(hb + dot, pe);
    assert(sin == (hb + dot) + pe);
    lemma_plain_concat(sin, dot);
    lemma_plain_concat(sin + dot, sg);
    assert(token_bytes(sub, user_id, exp, key) == (sin + dot) + sg);
}

/// What verification makes of an issued token, for any verifying key and
/// instant: a wrong signature is rejected as such, an elapsed expiry is
/// rejected as such, and otherwise exactly the issued claims come out.
/// The hypothesis is the signing wrapper's guarantee about signature text.
#[verifier::rlimit(100)]
pub proof fn lemma_verify_of_token(
    sub: Seq<u8>,
    user_id: i64,
    exp: u64,
    key: Seq<u8>,
    key2: Seq<u8>,
    now: u64,
)
    requires
        valid_utf8(sub),
        (exp as nat) < pow10(19),
    ensures
        sig_is_b64u(signing_input(sub, user_id as int, exp as nat), key) ==> spec_verify(
            token_bytes(sub, user_id as int, exp as nat, key),
            key2,
            now,
        ) == (if hs256_sig_of(signing_input(sub, user_id as int, exp as nat), key2)
            != hs256_sig_of(signing_input(sub, user_id as int, exp as nat), key) {
            Err::<(Seq<u8>, int, int), VerificationFailure>(VerificationFailure::BadSignature)
        } else if now as int >= exp {
            Err::<(Seq<u8>, int, int), VerificationFailure>(VerificationFailure::Expired)
        } else {
            Ok::<(Seq<u8>, int, int), VerificationFailure>((sub, user_id as int, exp as int))
        }),
{
    if !sig_is_b64u(signing_input(sub, user_id as int, exp as nat), key) {
        return;
    }
    let hb = b64u_encode(header_json());
    let pb = payload_bytes(sub, user_id as int, exp as nat);
    let pe = b64u_encode(pb);
    let sin = signing_input(sub, user_id as int, exp as nat);
    let sg = hs256_sig_of(sin, key);
    let t = token_bytes(sub, user_id as int, exp as nat, key);
    let hlen = hb.len() as int;
    let plen = pe.len() as int;
    let slen = sg.len() as int;
    let d1 = hlen;
    let d2 = hlen + 1 + plen;

    lemma_b64u_encode_alphabet(header_json());
    lemma_b64u_encode_alphabet(pb);

    assert(t =~= Seq::<u8>::empty() + hb + (seq![46u8] + pe + seq![46u8] + sg));
    lemma_concat_piece(t, Seq::<u8>::empty(), hb, seq![46u8] + pe + seq![46u8] + sg);
    assert(t =~= hb + seq![46u8] + (pe + seq![46u8] + sg));
    lemma_concat_piece(t, hb, seq![46u8], pe + seq![46u8] + sg);
    assert(t =~= (hb + seq![46u8]) + pe + (seq![46u8] + sg));
    lemma_concat_piece(t, hb + seq![46u8], pe, seq![46u8] + sg);
    assert(t =~= (hb + seq![46u8] + pe) + seq![46u8] + sg);
    lemma_concat_piece(t, hb + seq![46u8] + pe, seq![46u8], sg);
    assert(t =~= (hb + seq![46u8] + pe + seq![46u8]) + sg + Seq::<u8>::empty());
    lemma_concat_piece(t, hb + seq![46u8] + pe + seq![46u8], sg, Seq::<u8>::empty());

    assert(t.len() == hlen + 1 + plen + 1 + slen);
    assert(t[d1] == 46) by {
        assert(t[hb.len() as int + 0] == seq![46u8][0]);
    }
    assert(t[d2] == 46) by {
        assert(t[(hb + seq![46u8] + pe).len() as int + 0] == seq![46u8][0]);
    }

    assert(forall|k: int| 0 <= k < d1 ==> #[trigger] t[k] != 46) by {
        assert(forall|k: int| 0 <= k < hlen ==> t[0 + k] == #[trigger] hb[k]);
        assert(forall|k: int| 0 <= k < hlen ==> is_b64u_byte(#[trigger] hb[k]));
    }
    lemma_find_byte(t, 0, d1, 46);

    assert(forall|k: int| d1 + 1 <= k < d2 ==> #[trigger] t[k] != 46) by {
        assert(forall|k: int| 0 <= k < plen ==> t[(hb + seq![46u8]).len() + k] == #[trigger] pe[k]);
        assert(forall|k: int| 0 <= k < plen ==> is_b64u_byte(#[trigger] pe[k]));
    }
    lemma_find_byte(t, d1 + 1, d2, 46);

    assert(forall|k: int| d2 + 1 <= k < t.len() ==> #[trigger] t[k] != 46) by {
        assert(forall|k: int|
            0 <= k < slen ==> t[(hb + seq![46u8] + pe + seq![46u8]).len() + k] == #[trigger] sg[k]);
        assert(forall|k: int| 0 <= k < slen ==> is_b64u_byte(#[trigger] sg[k]));
    }
    lemma_find_byte(t, d2 + 1, t.len() as int, 46);

    assert(t.subrange(0, d1) == hb);
    assert(t.subrange(d1 + 1, d2) == pe) by {
        assert(t.subrange((hb + seq![46u8]).len() as int, (hb + seq![46u8]).len() + pe.len() as int)
            == pe);
    }
    assert(t.subrange(d2 + 1, t.len() as int) == sg) by {
        assert(t.subrange(
            (hb + seq![46u8] + pe + seq![46u8]).len() as int,
            (hb + seq![46u8] + pe + seq![46u8]).len() + sg.len() as int,
        ) == sg);
    }
    assert(split3(t) == Some((hb, pe, sg)));

    lemma_b64u_roundtrip(pb);
    lemma_parse_of_payload(sub, user_id, exp);
    assert(hb + seq![46u8] + pe =~= sin);
}

/// A token issued for an identity verifies under the issuing key at any
/// instant strictly before its expiry, and yields exactly the issued
/// subject, user id, and expiry.
pub proof fn lemma_verify_of_issue(sub: Seq<u8>, user_id: i64, exp: u64, key: Seq<u8>, now: u64)
    requires
        valid_utf8(sub),
        (exp as nat) < pow10(19),
        (now as int) < exp,
    ensures
        sig_is_b64u(signing_input(sub, user_id as int, exp as nat), key) ==> spec_verify(
            token_bytes(sub, user_id as int, exp as nat, key),
            key,
            now,
        ) == Ok::<(Seq<u8>, int, int), VerificationFailure>((sub, user_id as int, exp as int)),
{
    lemma_verify_of_token(sub, user_id, exp, key, key, now);
}

/// An otherwise valid token is rejected as expired exactly when the
/// verification instant has reached its expiry, and accepted at every
/// earlier instant.
pub proof fn lemma_expiry_boundary(sub: Seq<u8>, user_id: i64, exp: u64, key: Seq<u8>, now: u64)
    requires
        valid_utf8(sub),
        (exp as nat) < pow10(19),
    ensures
        sig_is_b64u(signing_input(sub, user_id as int, exp as nat), key) ==> spec_verify(
            token_bytes(sub, user_id as int, exp as nat, key),
            key,
            now,
        ) == (if now as int >= exp {
            Err::<(Seq<u8>, int, int), VerificationFailure>(VerificationFailure::Expired)
        } else {
            Ok::<(Seq<u8>, int, int), VerificationFailure>((sub, user_id as int, exp as int))
        }),
{
    lemma_verify_of_token(sub, user_id, exp, key, key, now);
}

/// A token verified under a key whose signature differs from the issuing
/// key's is rejected with a signature failure. (That two distinct keys give
/// distinct signatures is a property of the underlying MAC on which nothing
/// here is assumed; the hypothesis states the mismatch directly.)
pub proof fn lemma_verify_wrong_key(
    sub: Seq<u8>,
    user_id: i64,
    exp: u64,
    key: Seq<u8>,
    key2: Seq<u8>,
    now: u64,
)
    requires
        valid_utf8(sub),
        (exp as nat) < pow10(19),
    ensures
        sig_is_b64u(signing_input(sub, user_id as int, exp as nat), key) && hs256_sig_of(
            signing_input(sub, user_id as int, exp as nat),
            key2,
        ) != hs256_sig_of(signing_input(sub, user_id as int, exp as nat), key) ==> spec_verify(
            token_bytes(sub, user_id as int, exp as nat, key),
            key2,
            now,
        ) == Err::<(Seq<u8>, int, int), VerificationFailure>(VerificationFailure::BadSignature),
{
    lemma_verify_of_token(sub, user_id, exp, key, key2, now);
}

} // verus!
