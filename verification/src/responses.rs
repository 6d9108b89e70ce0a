//! The fixed response bodies of the authentication endpoints and the auth gate:
//! the uniform error shape `{"err":...}` and the authorized-identity shape
//! `{"id":...,"token":...}`, built as exact byte sequences.

use vstd::prelude::*;
use vstd::string::StrSliceExecFns;
use vstd::utf8::encode_utf8;

use crate::dto::AuthorizedUserDTO;
use crate::jstring::{esc_byte, esc_json, is_plain_byte};
use crate::numbers::{dec_i64, dec_u64, i64_to_dec, is_digit, lemma_dec_u64_shape};
use crate::token::bytes_to_string;
use crate::token::lemma_ascii_bytes_valid_utf8;

verus! {

/// `pass token`
pub open spec fn msg_pass_token() -> Seq<u8> {
    seq![112u8, 97u8, 115u8, 115u8, 32u8, 116u8, 111u8, 107u8, 101u8, 110u8]
}

/// `token is incorrect`
pub open spec fn msg_token_incorrect() -> Seq<u8> {
    seq![
        116u8, 111u8, 107u8, 101u8, 110u8, 32u8, 105u8, 115u8, 32u8, 105u8, 110u8, 99u8, 111u8,
        114u8, 114u8, 101u8, 99u8, 116u8,
    ]
}

/// `login or password is incorrect`
pub open spec fn msg_login_incorrect() -> Seq<u8> {
    seq![
        108u8, 111u8, 103u8, 105u8, 110u8, 32u8, 111u8, 114u8, 32u8, 112u8, 97u8, 115u8, 115u8,
        119u8, 111u8, 114u8, 100u8, 32u8, 105u8, 115u8, 32u8, 105u8, 110u8, 99u8, 111u8, 114u8,
        114u8, 101u8, 99u8, 116u8,
    ]
}

/// `user with this login already registered`
pub open spec fn msg_conflict() -> Seq<u8> {
    seq![
        117u8, 115u8, 101u8, 114u8, 32u8, 119u8, 105u8, 116u8, 104u8, 32u8, 116u8, 104u8, 105u8,
        115u8, 32u8, 108u8, 111u8, 103u8, 105u8, 110u8, 32u8, 97u8, 108u8, 114u8, 101u8, 97u8,
        100u8, 121u8, 32u8, 114u8, 101u8, 103u8, 105u8, 115u8, 116u8, 101u8, 114u8, 101u8, 100u8,
    ]
}

/// `sorry, try again later`
pub open spec fn msg_internal() -> Seq<u8> {
    seq![
        115u8, 111u8, 114u8, 114u8, 121u8, 44u8, 32u8, 116u8, 114u8, 121u8, 32u8, 97u8, 103u8,
        97u8, 105u8, 110u8, 32u8, 108u8, 97u8, 116u8, 101u8, 114u8,
    ]
}

/// The uniform error body `{"err":"<msg>"}` with the message escaped.
pub open spec fn err_body_bytes(msg: Seq<u8>) -> Seq<u8> {
    seq![123u8, 34u8, 101u8, 114u8, 114u8, 34u8, 58u8, 34u8] + esc_json(msg) + seq![34u8, 125u8]
}

/// The authorized-identity body `{"id":<id>,"token":"<token>"}`; the token
/// text is carried unchanged, which is sound because issued tokens hold
/// plain bytes only.
pub open spec fn authorized_body_bytes(id: int, token: Seq<u8>) -> Seq<u8> {
    seq![123u8, 34u8, 105u8, 100u8, 34u8, 58u8] + dec_i64(id) + seq![
        44u8, 34u8, 116u8, 111u8, 107u8, 101u8, 110u8, 34u8, 58u8, 34u8,
    ] + token + seq![34u8, 125u8]
}

/// Plain bytes pass through the JSON escape unchanged.
proof fn lemma_esc_json_plain(s: Seq<u8>)
    requires
        forall|i: int| 0 <= i < s.len() ==> is_plain_byte(#[trigger] s[i]),
    ensures
        esc_json(s) == s,
    decreases s.len(),
{
    if s.len() == 0 {
        assert(esc_json(s) =~= s);
    } else {
        assert(is_plain_byte(s[0]));
        assert(esc_byte(s[0]) =~= seq![s[0]]);
        lemma_esc_json_plain(s.skip(1));
        assert(esc_json(s) =~= seq![s[0]] + s.skip(1));
        assert(seq![s[0]] + s.skip(1) =~= s);
    }
}

/// Concatenation keeps bytes below a bound.
pub(crate) proof fn lemma_ascii_concat(a: Seq<u8>, b: Seq<u8>)
    requires
        forall|i: int| 0 <= i < a.len() ==> #[trigger] a[i] < 128,
        forall|i: int| 0 <= i < b.len() ==> #[trigger] b[i] < 128,
    ensures
        forall|i: int| 0 <= i < (a + b).len() ==> #[trigger] (a + b)[i] < 128,
{
    assert forall|i: int| 0 <= i < (a + b).len() implies #[trigger] (a + b)[i] < 128 by {
        if i < a.len() {
            assert((a + b)[i] == a[i]);
        } else {
            assert((a + b)[i] == b[i - a.len()]);
        }
    }
}

/// The rendered decimal digits of a signed value are ASCII.
proof fn lemma_dec_i64_ascii(n: int)
    ensures
        forall|i: int| 0 <= i < dec_i64(n).len() ==> #[trigger] dec_i64(n)[i] < 128,
{
    if n < 0 {
        lemma_dec_u64_shape((-n) as nat);
        assert forall|i: int| 0 <= i < dec_i64(n).len() implies #[trigger] dec_i64(n)[i]
            < 128 by {
            if i == 0 {
                assert(dec_i64(n)[0] == 45);
            } else {
                assert(dec_i64(n)[i] == dec_u64((-n) as nat)[i - 1]);
                assert(is_digit(dec_u64((-n) as nat)[i - 1]));
            }
        }
    } else {
        lemma_dec_u64_shape(n as nat);
        assert forall|i: int| 0 <= i < dec_i64(n).len() implies #[trigger] dec_i64(n)[i]
            < 128 by {
            assert(is_digit(dec_u64(n as nat)[i]));
        }
    }
}

/// Wrap a plain message in the uniform error body.
fn wrap_err(msg: Vec<u8>) -> (r: String)
    requires
        forall|i: int| 0 <= i < msg@.len() ==> is_plain_byte(#[trigger] msg@[i]),
    ensures
        encode_utf8(r@) == err_body_bytes(msg@),
{
    let ghost m = msg@;
    let mut b: Vec<u8> = vec![123u8, 34u8, 101u8, 114u8, 114u8, 34u8, 58u8, 34u8];
    let ghost lit = b@;
    let mut mm = msg;
    b.append(&mut mm);
    b.push(34);
    b.push(125);
    proof {
        lemma_esc_json_plain(m);
        assert(b@ =~= err_body_bytes(m));
        assert(forall|i: int| 0 <= i < lit.len() ==> #[trigger] lit[i] < 128);
        assert(forall|i: int| 0 <= i < m.len() ==> #[trigger] m[i] < 128);
        lemma_ascii_concat(lit, m);
        lemma_ascii_concat(lit + m, seq![34u8, 125u8]);
        assert(b@ =~= (lit + m) + seq![34u8, 125u8]);
        lemma_ascii_bytes_valid_utf8(b@);
    }
    match bytes_to_string(b) {
        Some(s) => s,
        None => String::new(),
    }
}

/// The auth gate's body for a request without a token.
pub fn body_pass_token() -> (r: String)
    ensures
        encode_utf8(r@) == err_body_bytes(msg_pass_token()),
{
    let m: Vec<u8> = vec![112u8, 97u8, 115u8, 115u8, 32u8, 116u8, 111u8, 107u8, 101u8, 110u8];
    proof {
        assert(m@ =~= msg_pass_token());
    }
    wrap_err(m)
}

/// The auth gate's body for a rejected token.
pub fn body_token_incorrect() -> (r: String)
    ensures
        encode_utf8(r@) == err_body_bytes(msg_token_incorrect()),
{
    let m: Vec<u8> = vec![
        116u8, 111u8, 107u8, 101u8, 110u8, 32u8, 105u8, 115u8, 32u8, 105u8, 110u8, 99u8, 111u8,
        114u8, 114u8, 101u8, 99u8, 116u8,
    ];
    proof {
        assert(m@ =~= msg_token_incorrect());
    }
    wrap_err(m)
}

/// The login endpoint's body for a failed login, identical for an unknown
/// login and for a wrong password.
pub fn body_login_incorrect() -> (r: String)
    ensures
        encode_utf8(r@) == err_body_bytes(msg_login_incorrect()),
{
    let m: Vec<u8> = vec![
        108u8, 111u8, 103u8, 105u8, 110u8, 32u8, 111u8, 114u8, 32u8, 112u8, 97u8, 115u8, 115u8,
        119u8, 111u8, 114u8, 100u8, 32u8, 105u8, 115u8, 32u8, 105u8, 110u8, 99u8, 111u8, 114u8,
        114u8, 101u8, 99u8, 116u8,
    ];
    proof {
        assert(m@ =~= msg_login_incorrect());
    }
    wrap_err(m)
}

/// The registration endpoint's body for a taken login.
pub fn body_conflict() -> (r: String)
    ensures
        encode_utf8(r@) == err_body_bytes(msg_conflict()),
{
    let m: Vec<u8> = vec![
        117u8, 115u8, 101u8, 114u8, 32u8, 119u8, 105u8, 116u8, 104u8, 32u8, 116u8, 104u8, 105u8,
        115u8, 32u8, 108u8, 111u8, 103u8, 105u8, 110u8, 32u8, 97u8, 108u8, 114u8, 101u8, 97u8,
        100u8, 121u8, 32u8, 114u8, 101u8, 103u8, 105u8, 115u8, 116u8, 101u8, 114u8, 101u8, 100u8,
    ];
    proof {
        assert(m@ =~= msg_conflict());
    }
    wrap_err(m)
}

/// The body of the generic internal-fault reply.
pub fn body_internal() -> (r: String)
    ensures
        encode_utf8(r@) == err_body_bytes(msg_internal()),
{
    let m: Vec<u8> = vec![
        115u8, 111u8, 114u8, 114u8, 121u8, 44u8, 32u8, 116u8, 114u8, 121u8, 32u8, 97u8, 103u8,
        97u8, 105u8, 110u8, 32u8, 108u8, 97u8, 116u8, 101u8, 114u8,
    ];
    proof {
        assert(m@ =~= msg_internal());
    }
    wrap_err(m)
}

/// Render the authorized-identity body for an id and its issued token.
pub fn authorized_body(dto: &AuthorizedUserDTO) -> (r: String)
    requires
        forall|i: int|
            0 <= i < encode_utf8(dto.token@).len() ==> is_plain_byte(
                #[trigger] encode_utf8(dto.token@)[i],
            ),
    ensures
        encode_utf8(r@) == authorized_body_bytes(dto.id as int, encode_utf8(dto.token@)),
{
    let ghost tk = encode_utf8(dto.token@);
    let mut b: Vec<u8> = vec![123u8, 34u8, 105u8, 100u8, 34u8, 58u8];
    let ghost l1 = b@;
    let mut d = i64_to_dec(dto.id);
    b.append(&mut d);
    let mut l2v: Vec<u8> = vec![
        44u8, 34u8, 116u8, 111u8, 107u8, 101u8, 110u8, 34u8, 58u8, 34u8,
    ];
    let ghost l2 = l2v@;
    b.append(&mut l2v);
    let mut tkv = dto.token.as_str().as_bytes_vec();
    b.append(&mut tkv);
    b.push(34);
    b.push(125);
    proof {
        assert(b@ =~= authorized_body_bytes(dto.id as int, tk));
        lemma_dec_i64_ascii(dto.id as int);
        assert(forall|i: int| 0 <= i < l1.len() ==> #[trigger] l1[i] < 128);
        assert(forall|i: int| 0 <= i < l2.len() ==> #[trigger] l2[i] < 128);
        assert(forall|i: int| 0 <= i < tk.len() ==> #[trigger] tk[i] < 128);
        lemma_ascii_concat(l1, dec_i64(dto.id as int));
        lemma_ascii_concat(l1 + dec_i64(dto.id as int), l2);
        lemma_ascii_concat(l1 + dec_i64(dto.id as int) + l2, tk);
        lemma_ascii_concat(l1 + dec_i64(dto.id as int) + l2 + tk, seq![34u8, 125u8]);
        assert(b@ =~= (l1 + dec_i64(dto.id as int) + l2 + tk) + seq![34u8, 125u8]);
        lemma_ascii_bytes_valid_utf8(b@);
    }
    match bytes_to_string(b) {
        Some(s) => s,
        None => String::new(),
    }
}

} // verus!
