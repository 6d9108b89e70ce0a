//! JSON string escaping for the token payload's text field.
//!
//! The canonical form escapes the quote and the backslash, writes every
//! control byte as a lowercase `\u00..` sequence, and leaves all other bytes
//! as they are. The scanner accepts exactly that form up to a closing quote.

use vstd::prelude::*;

verus! {

/// Lowercase hex digit of a nibble.
pub open spec fn hex_lc_of(v: u8) -> u8
    recommends
        v < 16,
{
    if v < 10 {
        (48 + v) as u8
    } else {
        (87 + v) as u8
    }
}

/// Whether a byte is a lowercase hex digit.
pub open spec fn is_hex_lc(b: u8) -> bool {
    (48 <= b && b <= 57) || (97 <= b && b <= 102)
}

/// Nibble value of a lowercase hex digit.
pub open spec fn hex_lc_val(b: u8) -> u8
    recommends
        is_hex_lc(b),
{
    if 48 <= b && b <= 57 {
        (b - 48) as u8
    } else {
        (b - 87) as u8
    }
}

/// A byte that JSON carries in a string body unchanged: printable ASCII
/// other than the quote and the backslash.
pub open spec fn is_plain_byte(b: u8) -> bool {
    32 <= b < 128 && b != 34 && b != 92
}

/// Concatenation keeps plainness.
pub(crate) proof fn lemma_plain_concat(a: Seq<u8>, b: Seq<u8>)
    requires
        forall|i: int| 0 <= i < a.len() ==> is_plain_byte(#[trigger] a[i]),
        forall|i: int| 0 <= i < b.len() ==> is_plain_byte(#[trigger] b[i]),
    ensures
        forall|i: int| 0 <= i < (a + b).len() ==> is_plain_byte(#[trigger] (a + b)[i]),
{
    assert forall|i: int| 0 <= i < (a + b).len() implies is_plain_byte(#[trigger] (a + b)[i]) by {
        if i < a.len() {
            assert((a + b)[i] == a[i]);
        } else {
            assert((a + b)[i] == b[i - a.len()]);
        }
    }
}

/// Canonical escape of one byte.
pub open spec fn esc_byte(b: u8) -> Seq<u8> {
    if b == 34 {
        seq![92u8, 34u8]
    } else if b == 92 {
        seq![92u8, 92u8]
    } else if b < 32 {
        seq![92u8, 117u8, 48u8, 48u8, hex_lc_of(b >> 4), hex_lc_of(b & 15)]
    } else {
        seq![b]
    }
}

/// Canonical escape of a byte sequence.
pub open spec fn esc_json(s: Seq<u8>) -> Seq<u8>
    decreases s.len(),
{
    if s.len() == 0 {
        Seq::<u8>::empty()
    } else {
        esc_byte(s[0]) + esc_json(s.skip(1))
    }
}

/// Parse an escaped string body at `i` up to and including a closing quote;
/// yields the decoded bytes and the index after the quote.
pub open spec fn parse_jstr_at(s: Seq<u8>, i: int) -> Option<(Seq<u8>, int)>
    decreases s.len() - i,
{
    if i < 0 || i >= s.len() {
        None
    } else if s[i] == 34 {
        Some((Seq::<u8>::empty(), i + 1))
    } else if s[i] == 92 {
        if i + 1 < s.len() && (s[i + 1] == 34 || s[i + 1] == 92) {
            match parse_jstr_at(s, i + 2) {
                Some((t, j)) => Some((seq![s[i + 1]] + t, j)),
                None => None,
            }
        } else if i + 5 < s.len() && s[i + 1] == 117 && s[i + 2] == 48 && s[i + 3] == 48
            && is_hex_lc(s[i + 4]) && is_hex_lc(s[i + 5]) && ((hex_lc_val(s[i + 4]) << 4)
            | hex_lc_val(s[i + 5])) < 32 {
            match parse_jstr_at(s, i + 6) {
                Some((t, j)) => Some(
                    (seq![(hex_lc_val(s[i + 4]) << 4) | hex_lc_val(s[i + 5])] + t, j),
                ),
                None => None,
            }
        } else {
            None
        }
    } else if s[i] < 32 {
        None
    } else {
        match parse_jstr_at(s, i + 1) {
            Some((t, j)) => Some((seq![s[i]] + t, j)),
            None => None,
        }
    }
}

/// Hex digits decode back to the nibble they encode.
proof fn lemma_hex_roundtrip(v: u8)
    requires
        v < 16,
    ensures
        is_hex_lc(hex_lc_of(v)),
        hex_lc_val(hex_lc_of(v)) == v,
{
}

/// The two nibbles of a byte reassemble to the byte.
proof fn lemma_byte_nibbles(b: u8)
    by (bit_vector)
    ensures
        b >> 4 < 16,
        b & 15 < 16,
        ((b >> 4) << 4) | (b & 15) == b,
{
}

/// Escaping distributes over concatenation.
proof fn lemma_esc_append(a: Seq<u8>, b: Seq<u8>)
    ensures
        esc_json(a + b) == esc_json(a) + esc_json(b),
    decreases a.len(),
{
    if a.len() == 0 {
        assert(a + b =~= b);
        assert(esc_json(a) + esc_json(b) =~= esc_json(b));
    } else {
        let s = a + b;
        assert(s[0] == a[0]);
        assert(s.skip(1) =~= a.skip(1) + b);
        lemma_esc_append(a.skip(1), b);
        assert(esc_json(a + b) =~= esc_json(a) + esc_json(b));
    }
}

/// An escaped body followed by a closing quote parses back to the body.
pub proof fn lemma_parse_of_esc(s: Seq<u8>, i: int, x: Seq<u8>)
    requires
        0 <= i,
        i + esc_json(x).len() + 1 <= s.len(),
        s.subrange(i, i + esc_json(x).len() as int) == esc_json(x),
        s[i + esc_json(x).len() as int] == 34,
    ensures
        parse_jstr_at(s, i) == Some((x, i + esc_json(x).len() + 1)),
    decreases x.len(),
{
    let elen = esc_json(x).len() as int;
    assert(forall|k: int| 0 <= k < elen ==> s[i + k] == #[trigger] esc_json(x)[k]) by {
        assert(forall|k: int|
            0 <= k < elen ==> s.subrange(i, i + elen)[k] == #[trigger] esc_json(x)[k]);
    }
    if x.len() == 0 {
        assert(s[i] == 34);
    } else {
        let b = x[0];
        let rest = x.skip(1);
        assert(esc_json(x) == esc_byte(b) + esc_json(rest));
        let blen = esc_byte(b).len() as int;
        assert(forall|k: int| 0 <= k < blen ==> esc_json(x)[k] == #[trigger] esc_byte(b)[k]);
        assert(forall|k: int| 0 <= k < blen ==> s[i + k] == #[trigger] esc_byte(b)[k]) by {
            assert(forall|k: int|
                0 <= k < blen ==> esc_json(x)[k] == #[trigger] esc_byte(b)[k]);
            assert(forall|k: int| 0 <= k < elen ==> s[i + k] == #[trigger] esc_json(x)[k]);
        }
        assert(s.subrange(i + blen, i + elen) =~= esc_json(rest)) by {
            assert(forall|k: int|
                0 <= k < elen - blen ==> #[trigger] esc_json(rest)[k] == esc_json(x)[blen + k]);
            assert(forall|k: int|
                0 <= k < elen - blen ==> #[trigger] s.subrange(i + blen, i + elen)[k] == s[i + blen
                    + k]);
            assert(forall|k: int|
                0 <= k < elen - blen ==> s[i + blen + k] == #[trigger] esc_json(x)[blen + k]);
        }
        lemma_parse_of_esc(s, i + blen, rest);
        if b == 34 {
            assert(esc_byte(b)[0] == 92 && esc_byte(b)[1] == 34);
            assert(s[i + 0] == 92 && s[i + 1] == 34);
            assert(seq![s[i + 1]] + rest =~= x);
        } else if b == 92 {
            assert(esc_byte(b)[0] == 92 && esc_byte(b)[1] == 92);
            assert(s[i + 0] == 92 && s[i + 1] == 92);
            assert(seq![s[i + 1]] + rest =~= x);
        } else if b < 32 {
            lemma_byte_nibbles(b);
            lemma_hex_roundtrip(b >> 4);
            lemma_hex_roundtrip(b & 15);
            assert(esc_byte(b)[0] == 92 && esc_byte(b)[1] == 117 && esc_byte(b)[2] == 48
                && esc_byte(b)[3] == 48 && esc_byte(b)[4] == hex_lc_of(b >> 4) && esc_byte(b)[5]
                == hex_lc_of(b & 15));
            assert(s[i + 0] == 92 && s[i + 1] == 117 && s[i + 2] == 48 && s[i + 3] == 48);
            assert(s[i + 4] == hex_lc_of(b >> 4) && s[i + 5] == hex_lc_of(b & 15));
            assert((hex_lc_val(s[i + 4]) << 4) | hex_lc_val(s[i + 5]) == b);
            assert(seq![(hex_lc_val(s[i + 4]) << 4) | hex_lc_val(s[i + 5])] + rest =~= x);
        } else {
            assert(esc_byte(b)[0] == b);
            assert(s[i + 0] == b);
            assert(seq![s[i]] + rest =~= x);
        }
    }
}

/// Exec lowercase hex digit of a nibble.
fn hex_lc(v: u8) -> (r: u8)
    requires
        v < 16,
    ensures
        r == hex_lc_of(v),
{
    if v < 10 {
        48 + v
    } else {
        87 + v
    }
}

/// Exec nibble value of a byte; `None` outside the lowercase hex digits.
fn hex_val(b: u8) -> (r: Option<u8>)
    ensures
        r == (if is_hex_lc(b) {
            Some(hex_lc_val(b))
        } else {
            None::<u8>
        }),
        is_hex_lc(b) ==> hex_lc_val(b) < 16,
{
    if 48 <= b && b <= 57 {
        Some(b - 48)
    } else if 97 <= b && b <= 102 {
        Some(b - 87)
    } else {
        None
    }
}

/// Escape a byte sequence into its canonical JSON string body.
pub fn esc_json_bytes(s: &[u8]) -> (r: Vec<u8>)
    ensures
        r@ == esc_json(s@),
{
    let mut out: Vec<u8> = Vec::new();
    let mut i: usize = 0;
    while i < s.len()
        invariant
            i <= s@.len(),
            out@ == esc_json(s@.take(i as int)),
        decreases s@.len() - i,
    {
        let b = s[i];
        if b == 34 {
            out.push(92);
            out.push(34);
        } else if b == 92 {
            out.push(92);
            out.push(92);
        } else if b < 32 {
            proof {
                lemma_byte_nibbles(b);
            }
            out.push(92);
            out.push(117);
            out.push(48);
            out.push(48);
            out.push(hex_lc(b >> 4));
            out.push(hex_lc(b & 15));
        } else {
            out.push(b);
        }
        proof {
            let prefix = s@.take(i as int);
            let one = s@.subrange(i as int, i as int + 1);
            lemma_esc_append(prefix, one);
            assert(prefix + one =~= s@.take(i as int + 1));
            assert(one[0] == b);
            assert(one.skip(1) =~= Seq::<u8>::empty());
            assert(esc_json(Seq::<u8>::empty()) == Seq::<u8>::empty());
            assert(esc_json(one) =~= esc_byte(b));
            assert(out@ =~= esc_json(prefix) + esc_json(one));
        }
        i += 1;
    }
    proof {
        assert(s@.take(s@.len() as int) =~= s@);
    }
    out
}

/// Scan an escaped string body at `i` up to a closing quote.
pub fn scan_jstr(p: &[u8], i: usize) -> (r: Option<(Vec<u8>, usize)>)
    requires
        i <= p@.len(),
    ensures
        match r {
            Some(t) => parse_jstr_at(p@, i as int) == Some((t.0@, t.1 as int)) && i < t.1
                <= p@.len(),
            None => parse_jstr_at(p@, i as int) is None,
        },
{
    let mut out: Vec<u8> = Vec::new();
    let mut j: usize = i;
    proof {
        let pr = parse_jstr_at(p@, i as int);
        if pr is Some {
            let t = (pr->0).0;
            assert(out@ + t =~= t);
        }
    }
    while j < p.len()
        invariant
            i <= j <= p@.len(),
            match parse_jstr_at(p@, j as int) {
                Some((t, e)) => parse_jstr_at(p@, i as int) == Some((out@ + t, e)),
                None => parse_jstr_at(p@, i as int) is None,
            },
        decreases p@.len() - j,
    {
        let b = p[j];
        let ghost old_j = j as int;
        let ghost old_out = out@;
        if b == 34 {
            proof {
                assert(parse_jstr_at(p@, old_j) == Some((Seq::<u8>::empty(), old_j + 1)));
                assert(out@ + Seq::<u8>::empty() =~= out@);
            }
            return Some((out, j + 1));
        }
        if b == 92 {
            if p.len() - j < 2 {
                return None;
            }
            let e = p[j + 1];
            if e == 34 || e == 92 {
                out.push(e);
                j += 2;
                proof {
                    assert(out@ == old_out.push(e));
                    let pr = parse_jstr_at(p@, j as int);
                    if pr is Some {
                        let t = (pr->0).0;
                        assert(old_out + (seq![e] + t) =~= out@ + t);
                    }
                }
            } else if e == 117 {
                if p.len() - j < 6 {
                    return None;
                }
                if p[j + 2] != 48 || p[j + 3] != 48 {
                    return None;
                }
                let h = hex_val(p[j + 4]);
                let l = hex_val(p[j + 5]);
                if h.is_none() || l.is_none() {
                    return None;
                }
                let c: u8 = (h.unwrap() << 4) | l.unwrap();
                if c >= 32 {
                    return None;
                }
                out.push(c);
                j += 6;
                proof {
                    assert(out@ == old_out.push(c));
                    let pr = parse_jstr_at(p@, j as int);
                    if pr is Some {
                        let t = (pr->0).0;
                        assert(old_out + (seq![c] + t) =~= out@ + t);
                    }
                }
            } else {
                return None;
            }
        } else if b < 32 {
            return None;
        } else {
            out.push(b);
            j += 1;
            proof {
                assert(out@ == old_out.push(b));
                let pr = parse_jstr_at(p@, j as int);
                if pr is Some {
                    let t = (pr->0).0;
                    assert(old_out + (seq![b] + t) =~= out@ + t);
                }
            }
        }
    }
    None
}

} // verus!
