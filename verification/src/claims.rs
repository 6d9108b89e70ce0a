//! The Claims model — the authenticated-identity payload embedded in a
//! bearer token — and its canonical JSON encoding, the byte form that is
//! signed and carried between the dots of the token.

use vstd::prelude::*;
use vstd::slice::slice_subrange;
use vstd::utf8::encode_utf8;

use crate::bytes_eq;
use crate::jstring::{esc_json, esc_json_bytes, lemma_parse_of_esc, parse_jstr_at, scan_jstr};
use crate::numbers::{
    dec_i64, dec_u64, i64_to_dec, is_digit, lemma_parse_of_dec_i64, lemma_parse_of_dec_u64,
    parse_i64_at, parse_u64_at, pow10, scan_i64, scan_u64, u64_to_dec,
};

verus! {

/// The authenticated-identity payload: subject login, numeric user id, and
/// the expiry instant in unix seconds. A value, immutable once built.
#[derive(Debug, Clone, PartialEq, Eq)]
pub struct Claims {
    pub sub: String,
    pub user_id: i64,
    pub exp: u64,
}

impl Claims {
    /// The UTF-8 bytes of the subject login.
    pub open spec fn sub_bytes(&self) -> Seq<u8> {
        encode_utf8(self.sub@)
    }
}

/// `{"exp":`
pub open spec fn lit_exp() -> Seq<u8> {
    seq![123u8, 34u8, 101u8, 120u8, 112u8, 34u8, 58u8]
}

/// `,"sub":"`
pub open spec fn lit_sub() -> Seq<u8> {
    seq![44u8, 34u8, 115u8, 117u8, 98u8, 34u8, 58u8, 34u8]
}

/// `,"user_id":` (the quote that closes the subject string precedes it)
pub open spec fn lit_user_id() -> Seq<u8> {
    seq![44u8, 34u8, 117u8, 115u8, 101u8, 114u8, 95u8, 105u8, 100u8, 34u8, 58u8]
}

/// The canonical payload bytes of a claims value:
/// `{"exp":E,"sub":"S","user_id":U}` with `E` and `U` in canonical decimal
/// and `S` escaped as a JSON string body.
pub open spec fn payload_bytes(sub: Seq<u8>, user_id: int, exp: nat) -> Seq<u8> {
    lit_exp() + dec_u64(exp) + lit_sub() + esc_json(sub) + seq![34u8] + lit_user_id() + dec_i64(
        user_id,
    ) + seq![125u8]
}

/// Parse the canonical payload; yields subject bytes, user id and expiry.
pub open spec fn parse_payload(p: Seq<u8>) -> Option<(Seq<u8>, int, int)> {
    if !(p.len() >= 7 && p.subrange(0, 7) == lit_exp()) {
        None
    } else {
        match parse_u64_at(p, 7) {
            None => None,
            Some((exp, a)) => if !(a + 8 <= p.len() && p.subrange(a, a + 8) == lit_sub()) {
                None
            } else {
                match parse_jstr_at(p, a + 8) {
                    None => None,
                    Some((sub, b)) => if !(b + 11 <= p.len() && p.subrange(b, b + 11)
                        == lit_user_id()) {
                        None
                    } else {
                        match parse_i64_at(p, b + 11) {
                            None => None,
                            Some((uid, c)) => if c + 1 == p.len() && p[c] == 125 {
                                Some((sub, uid, exp))
                            } else {
                                None
                            },
                        }
                    },
                }
            },
        }
    }
}

/// A piece of a concatenation is recovered by `subrange` at its offset.
pub(crate) proof fn lemma_concat_piece(p: Seq<u8>, pre: Seq<u8>, piece: Seq<u8>, post: Seq<u8>)
    requires
        p == pre + piece + post,
    ensures
        p.len() == pre.len() + piece.len() + post.len(),
        p.subrange(pre.len() as int, pre.len() + piece.len() as int) == piece,
        forall|k: int| 0 <= k < piece.len() ==> p[pre.len() + k] == #[trigger] piece[k],
{
    assert(forall|k: int| 0 <= k < piece.len() ==> p[pre.len() + k] == #[trigger] piece[k]) by {
        assert(forall|k: int|
            0 <= k < piece.len() ==> ((pre + piece) + post)[pre.len() + k] == #[trigger] piece[k]);
    }
    assert(p.subrange(pre.len() as int, pre.len() + piece.len() as int) =~= piece);
}

/// The canonical payload of any claims value parses back to its fields.
#[verifier::rlimit(100)]
pub proof fn lemma_parse_of_payload(sub: Seq<u8>, user_id: i64, exp: u64)
    requires
        (exp as nat) < pow10(19),
    ensures
        parse_payload(payload_bytes(sub, user_id as int, exp as nat)) == Some(
            (sub, user_id as int, exp as int),
        ),
{
    let p = payload_bytes(sub, user_id as int, exp as nat);
    let l1 = lit_exp();
    let d = dec_u64(exp as nat);
    let l2 = lit_sub();
    let e = esc_json(sub);
    let q = seq![34u8];
    let l3 = lit_user_id();
    let u = dec_i64(user_id as int);
    let l4 = seq![125u8];
    let dlen = d.len() as int;
    let elen = e.len() as int;
    let ulen = u.len() as int;
    let a1: int = 7;
    let a2: int = a1 + dlen;
    let a3: int = a2 + 8;
    let a4: int = a3 + elen;
    let a5: int = a4 + 1;
    let a6: int = a5 + 11;
    let a7: int = a6 + ulen;

    assert(p =~= Seq::<u8>::empty() + l1 + (d + l2 + e + q + l3 + u + l4));
    lemma_concat_piece(p, Seq::<u8>::empty(), l1, d + l2 + e + q + l3 + u + l4);
    assert(p =~= l1 + d + (l2 + e + q + l3 + u + l4));
    lemma_concat_piece(p, l1, d, l2 + e + q + l3 + u + l4);
    assert(p =~= (l1 + d) + l2 + (e + q + l3 + u + l4));
    lemma_concat_piece(p, l1 + d, l2, e + q + l3 + u + l4);
    assert(p =~= (l1 + d + l2) + e + (q + l3 + u + l4));
    lemma_concat_piece(p, l1 + d + l2, e, q + l3 + u + l4);
    assert(p =~= (l1 + d + l2 + e) + q + (l3 + u + l4));
    lemma_concat_piece(p, l1 + d + l2 + e, q, l3 + u + l4);
    assert(p =~= (l1 + d + l2 + e + q) + l3 + (u + l4));
    lemma_concat_piece(p, l1 + d + l2 + e + q, l3, u + l4);
    assert(p =~= (l1 + d + l2 + e + q + l3) + u + l4);
    lemma_concat_piece(p, l1 + d + l2 + e + q + l3, u, l4);
    assert(p =~= (l1 + d + l2 + e + q + l3 + u) + l4 + Seq::<u8>::empty());
    lemma_concat_piece(p, l1 + d + l2 + e + q + l3 + u, l4, Seq::<u8>::empty());

    assert(p.len() == a7 + 1);
    assert(p.subrange(0, 7) == l1);
    assert(p.subrange(a1, a2) == d);
    assert(p.subrange(a2, a3) == l2);
    assert(p.subrange(a3, a4) == e);
    assert(p.subrange(a5, a6) == l3);

    // the expiry digits end at the comma of `,"sub":"`
    assert(p[a2 + 0] == l2[0]);
    assert(!is_digit(p[a2]));
    lemma_parse_of_dec_u64(p, a1, exp as nat);
    assert(parse_u64_at(p, a1) == Some((exp as int, a2)));

    // the subject body ends at its closing quote
    assert(p[a3 + elen + 0] == q[0]);
    lemma_parse_of_esc(p, a3, sub);
    assert(parse_jstr_at(p, a3) == Some((sub, a5)));

    // the user id digits end at the closing brace
    assert(p[a6 + ulen + 0] == l4[0]);
    assert(!is_digit(p[a7]));
    lemma_parse_of_dec_i64(p, a6, user_id);
    assert(parse_i64_at(p, a6) == Some((user_id as int, a7)));

    assert(p[a7] == 125);
}

/// Exec form of `{"exp":`.
fn lit_exp_vec() -> (v: Vec<u8>)
    ensures
        v@ == lit_exp(),
{
    let v: Vec<u8> = vec![123u8, 34u8, 101u8, 120u8, 112u8, 34u8, 58u8];
    proof {
        assert(v@ =~= lit_exp());
    }
    v
}

/// Exec form of `,"sub":"`.
fn lit_sub_vec() -> (v: Vec<u8>)
    ensures
        v@ == lit_sub(),
{
    let v: Vec<u8> = vec![44u8, 34u8, 115u8, 117u8, 98u8, 34u8, 58u8, 34u8];
    proof {
        assert(v@ =~= lit_sub());
    }
    v
}

/// Exec form of `,"user_id":`.
fn lit_user_id_vec() -> (v: Vec<u8>)
    ensures
        v@ == lit_user_id(),
{
    let v: Vec<u8> = vec![44u8, 34u8, 117u8, 115u8, 101u8, 114u8, 95u8, 105u8, 100u8, 34u8, 58u8];
    proof {
        assert(v@ =~= lit_user_id());
    }
    v
}

/// Render the canonical payload of the given fields.
pub fn render_payload(sub: &[u8], user_id: i64, exp: u64) -> (r: Vec<u8>)
    ensures
        r@ == payload_bytes(sub@, user_id as int, exp as nat),
{
    let mut out: Vec<u8> = lit_exp_vec();
    let mut d = u64_to_dec(exp);
    out.append(&mut d);
    let mut l2 = lit_sub_vec();
    out.append(&mut l2);
    let mut e = esc_json_bytes(sub);
    out.append(&mut e);
    out.push(34);
    proof {
        assert(out@ =~= lit_exp() + dec_u64(exp as nat) + lit_sub() + esc_json(sub@) + seq![34u8]);
    }
    let mut l3 = lit_user_id_vec();
    out.append(&mut l3);
    let mut u = i64_to_dec(user_id);
    out.append(&mut u);
    out.push(125);
    proof {
        assert(out@ =~= payload_bytes(sub@, user_id as int, exp as nat));
    }
    out
}

/// Parse the canonical payload bytes; yields subject bytes, user id and
/// expiry exactly when the spec-level parse does.
pub fn parse_payload_bytes(p: &[u8]) -> (r: Option<(Vec<u8>, i64, u64)>)
    ensures
        match r {
            Some(t) => parse_payload(p@) == Some((t.0@, t.1 as int, t.2 as int)),
            None => parse_payload(p@) is None,
        },
{
    if p.len() < 7 {
        return None;
    }
    let l1 = lit_exp_vec();
    if !bytes_eq(slice_subrange(p, 0, 7), l1.as_slice()) {
        return None;
    }
    let (exp, a) = match scan_u64(p, 7) {
        Some(t) => t,
        None => {
            return None;
        },
    };
    if p.len() - a < 8 {
        return None;
    }
    let l2 = lit_sub_vec();
    if !bytes_eq(slice_subrange(p, a, a + 8), l2.as_slice()) {
        return None;
    }
    let (sub, b) = match scan_jstr(p, a + 8) {
        Some(t) => t,
        None => {
            return None;
        },
    };
    if p.len() - b < 11 {
        return None;
    }
    let l3 = lit_user_id_vec();
    if !bytes_eq(slice_subrange(p, b, b + 11), l3.as_slice()) {
        return None;
    }
    let (uid, c) = match scan_i64(p, b + 11) {
        Some(t) => t,
        None => {
            return None;
        },
    };
    if c == p.len() - 1 && p[c] == 125 {
        Some((sub, uid, exp))
    } else {
        None
    }
}

} // verus!
