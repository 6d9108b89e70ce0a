//! Unpadded base64url codec: the textual alphabet of the bearer-token format.
//!
//! Encoding is total; decoding is strict (it accepts exactly the encodings
//! this module produces, including the requirement that unused trailing bits
//! are zero) and rejects everything else.

use vstd::prelude::*;

verus! {

/// The base64url alphabet byte for a 6-bit group.
pub open spec fn b64u_char_of(v: u8) -> u8
    recommends
        v < 64,
{
    if v < 26 {
        (v + 65) as u8  // 'A'..='Z'
    } else if v < 52 {
        (v + 71) as u8  // 'a'..='z'
    } else if v < 62 {
        (v - 4) as u8  // '0'..='9'
    } else if v == 62 {
        45u8  // '-'
    } else {
        95u8  // '_'
    }
}

/// Whether a byte belongs to the base64url alphabet.
pub open spec fn is_b64u_byte(b: u8) -> bool {
    (65 <= b && b <= 90) || (97 <= b && b <= 122) || (48 <= b && b <= 57) || b == 45 || b == 95
}

/// The 6-bit group of an alphabet byte; inverse of [`b64u_char_of`].
pub open spec fn b64u_val_of(b: u8) -> u8
    recommends
        is_b64u_byte(b),
{
    if 65 <= b && b <= 90 {
        (b - 65) as u8
    } else if 97 <= b && b <= 122 {
        (b - 71) as u8
    } else if 48 <= b && b <= 57 {
        (b + 4) as u8
    } else if b == 45 {
        62u8
    } else {
        63u8
    }
}

/// Unpadded base64url encoding of a byte sequence.
pub open spec fn b64u_encode(s: Seq<u8>) -> Seq<u8>
    decreases s.len(),
{
    if s.len() == 0 {
        Seq::<u8>::empty()
    } else if s.len() == 1 {
        seq![b64u_char_of(s[0] >> 2), b64u_char_of((s[0] & 3) << 4)]
    } else if s.len() == 2 {
        seq![
            b64u_char_of(s[0] >> 2),
            b64u_char_of(((s[0] & 3) << 4) | (s[1] >> 4)),
            b64u_char_of((s[1] & 15) << 2),
        ]
    } else {
        seq![
            b64u_char_of(s[0] >> 2),
            b64u_char_of(((s[0] & 3) << 4) | (s[1] >> 4)),
            b64u_char_of(((s[1] & 15) << 2) | (s[2] >> 6)),
            b64u_char_of(s[2] & 63),
        ] + b64u_encode(s.skip(3))
    }
}

/// Strict decoding: `Some` exactly on the range of [`b64u_encode`].
pub open spec fn b64u_decode(s: Seq<u8>) -> Option<Seq<u8>>
    decreases s.len(),
{
    if s.len() == 0 {
        Some(Seq::<u8>::empty())
    } else if s.len() == 1 {
        None
    } else if s.len() == 2 {
        if is_b64u_byte(s[0]) && is_b64u_byte(s[1]) && b64u_val_of(s[1]) & 15 == 0 {
            Some(seq![(b64u_val_of(s[0]) << 2) | (b64u_val_of(s[1]) >> 4)])
        } else {
            None
        }
    } else if s.len() == 3 {
        if is_b64u_byte(s[0]) && is_b64u_byte(s[1]) && is_b64u_byte(s[2]) && b64u_val_of(s[2]) & 3
            == 0 {
            Some(
                seq![
                    (b64u_val_of(s[0]) << 2) | (b64u_val_of(s[1]) >> 4),
                    ((b64u_val_of(s[1]) & 15) << 4) | (b64u_val_of(s[2]) >> 2),
                ],
            )
        } else {
            None
        }
    } else {
        if is_b64u_byte(s[0]) && is_b64u_byte(s[1]) && is_b64u_byte(s[2]) && is_b64u_byte(s[3]) {
            match b64u_decode(s.skip(4)) {
                Some(rest) => Some(
                    seq![
                        (b64u_val_of(s[0]) << 2) | (b64u_val_of(s[1]) >> 4),
                        ((b64u_val_of(s[1]) & 15) << 4) | (b64u_val_of(s[2]) >> 2),
                        ((b64u_val_of(s[2]) & 3) << 6) | b64u_val_of(s[3]),
                    ] + rest,
                ),
                None => None,
            }
        } else {
            None
        }
    }
}

/// Every alphabet byte decodes back to the 6-bit group it encodes.
proof fn lemma_val_of_char_of(v: u8)
    requires
        v < 64,
    ensures
        is_b64u_byte(b64u_char_of(v)),
        b64u_val_of(b64u_char_of(v)) == v,
{
}

/// Encoding distributes over concatenation at 3-byte boundaries.
proof fn lemma_encode_append(a: Seq<u8>, b: Seq<u8>)
    requires
        a.len() % 3 == 0,
    ensures
        b64u_encode(a + b) == b64u_encode(a) + b64u_encode(b),
    decreases a.len(),
{
    if a.len() == 0 {
        assert(a + b =~= b);
        assert(b64u_encode(a) + b64u_encode(b) =~= b64u_encode(b));
    } else {
        let s = a + b;
        assert(s.len() >= 3);
        assert(s[0] == a[0] && s[1] == a[1] && s[2] == a[2]);
        assert(s.skip(3) =~= a.skip(3) + b);
        lemma_encode_append(a.skip(3), b);
        assert(b64u_encode(a) == seq![
            b64u_char_of(a[0] >> 2),
            b64u_char_of(((a[0] & 3) << 4) | (a[1] >> 4)),
            b64u_char_of(((a[1] & 15) << 2) | (a[2] >> 6)),
            b64u_char_of(a[2] & 63),
        ] + b64u_encode(a.skip(3)));
        assert(b64u_encode(a + b) =~= b64u_encode(a) + b64u_encode(b));
    }
}

/// The four 6-bit groups of a 3-byte block are in range.
proof fn lemma_group_bounds(b0: u8, b1: u8, b2: u8)
    by (bit_vector)
    ensures
        b0 >> 2 < 64,
        ((b0 & 3) << 4) | (b1 >> 4) < 64,
        ((b1 & 15) << 2) | (b2 >> 6) < 64,
        b2 & 63 < 64,
        (b0 & 3) << 4 < 64,
        (b1 & 15) << 2 < 64,
{
}

/// A full 3-byte block survives the encode/decode round trip.
proof fn lemma_block_roundtrip(b0: u8, b1: u8, b2: u8)
    by (bit_vector)
    ensures
        ((b0 >> 2) << 2) | ((((b0 & 3) << 4) | (b1 >> 4)) >> 4) == b0,
        (((((b0 & 3) << 4) | (b1 >> 4)) & 15) << 4) | ((((b1 & 15) << 2) | (b2 >> 6)) >> 2) == b1,
        (((((b1 & 15) << 2) | (b2 >> 6)) & 3) << 6) | (b2 & 63) == b2,
{
}

/// A trailing 1-byte block is canonical and survives the round trip.
proof fn lemma_tail1_roundtrip(b0: u8)
    by (bit_vector)
    ensures
        ((b0 & 3) << 4) & 15 == 0,
        ((b0 >> 2) << 2) | (((b0 & 3) << 4) >> 4) == b0,
{
}

/// A trailing 2-byte block is canonical and survives the round trip.
proof fn lemma_tail2_roundtrip(b0: u8, b1: u8)
    by (bit_vector)
    ensures
        ((b1 & 15) << 2) & 3 == 0,
        ((b0 >> 2) << 2) | ((((b0 & 3) << 4) | (b1 >> 4)) >> 4) == b0,
        (((((b0 & 3) << 4) | (b1 >> 4)) & 15) << 4) | (((b1 & 15) << 2) >> 2) == b1,
{
}

/// Exec form of the alphabet map.
fn b64u_char(v: u8) -> (r: u8)
    requires
        v < 64,
    ensures
        r == b64u_char_of(v),
{
    if v < 26 {
        v + 65
    } else if v < 52 {
        v + 71
    } else if v < 62 {
        v - 4
    } else if v == 62 {
        45
    } else {
        95
    }
}

/// Exec form of the inverse map; `None` outside the alphabet.
fn b64u_val(b: u8) -> (r: Option<u8>)
    ensures
        r == (if is_b64u_byte(b) {
            Some(b64u_val_of(b))
        } else {
            None::<u8>
        }),
        is_b64u_byte(b) ==> b64u_val_of(b) < 64,
{
    if 65 <= b && b <= 90 {
        Some(b - 65)
    } else if 97 <= b && b <= 122 {
        Some(b - 71)
    } else if 48 <= b && b <= 57 {
        Some(b + 4)
    } else if b == 45 {
        Some(62)
    } else if b == 95 {
        Some(63)
    } else {
        None
    }
}

/// Encode a byte slice as unpadded base64url text.
pub fn b64u_encode_bytes(s: &[u8]) -> (r: Vec<u8>)
    ensures
        r@ == b64u_encode(s@),
{
    let mut out: Vec<u8> = Vec::new();
    let mut i: usize = 0;
    while s.len() - i >= 3
        invariant
            i % 3 == 0,
            i <= s@.len(),
            out@ == b64u_encode(s@.take(i as int)),
        decreases s@.len() - i,
    {
        let b0 = s[i];
        let b1 = s[i + 1];
        let b2 = s[i + 2];
        proof {
            lemma_group_bounds(b0, b1, b2);
        }
        out.push(b64u_char(b0 >> 2));
        out.push(b64u_char(((b0 & 3) << 4) | (b1 >> 4)));
        out.push(b64u_char(((b1 & 15) << 2) | (b2 >> 6)));
        out.push(b64u_char(b2 & 63));
        proof {
            let prefix = s@.take(i as int);
            let block = s@.subrange(i as int, i as int + 3);
            lemma_encode_append(prefix, block);
            reveal_with_fuel(b64u_encode, 2);
            assert(prefix + block =~= s@.take(i as int + 3));
            assert(block[0] == b0 && block[1] == b1 && block[2] == b2);
            assert(block.skip(3) =~= Seq::<u8>::empty());
            assert(b64u_encode(block) =~= seq![
                b64u_char_of(b0 >> 2),
                b64u_char_of(((b0 & 3) << 4) | (b1 >> 4)),
                b64u_char_of(((b1 & 15) << 2) | (b2 >> 6)),
                b64u_char_of(b2 & 63),
            ]);
            assert(out@ =~= b64u_encode(prefix) + b64u_encode(block));
        }
        i += 3;
    }
    let rem = s.len() - i;
    if rem == 1 {
        let b0 = s[i];
        proof {
            lemma_group_bounds(b0, 0, 0);
        }
        out.push(b64u_char(b0 >> 2));
        out.push(b64u_char((b0 & 3) << 4));
        proof {
            let prefix = s@.take(i as int);
            let block = s@.subrange(i as int, i as int + 1);
            lemma_encode_append(prefix, block);
            assert(prefix + block =~= s@);
            assert(block[0] == b0);
            assert(out@ =~= b64u_encode(prefix) + b64u_encode(block));
        }
    } else if rem == 2 {
        let b0 = s[i];
        let b1 = s[i + 1];
        proof {
            lemma_group_bounds(b0, b1, 0);
        }
        out.push(b64u_char(b0 >> 2));
        out.push(b64u_char(((b0 & 3) << 4) | (b1 >> 4)));
        out.push(b64u_char((b1 & 15) << 2));
        proof {
            let prefix = s@.take(i as int);
            let block = s@.subrange(i as int, i as int + 2);
            lemma_encode_append(prefix, block);
            assert(prefix + block =~= s@);
            assert(block[0] == b0 && block[1] == b1);
            assert(out@ =~= b64u_encode(prefix) + b64u_encode(block));
        }
    } else {
        proof {
            assert(s@.take(i as int) =~= s@);
        }
    }
    out
}

/// Decoding distributes over concatenation at 4-byte boundaries.
proof fn lemma_decode_append(a: Seq<u8>, b: Seq<u8>)
    requires
        a.len() % 4 == 0,
        b64u_decode(a) is Some,
    ensures
        b64u_decode(b) is Some ==> b64u_decode(a + b) == Some(b64u_decode(a)->0 + b64u_decode(b)->0),
        b64u_decode(b) is None ==> b64u_decode(a + b) is None,
    decreases a.len(),
{
    if a.len() == 0 {
        assert(a + b =~= b);
        if b64u_decode(b) is Some {
            assert(b64u_decode(a)->0 + b64u_decode(b)->0 =~= b64u_decode(b)->0);
        }
    } else {
        let s = a + b;
        assert(a.len() >= 4);
        assert(s.len() >= 4);
        assert(s[0] == a[0] && s[1] == a[1] && s[2] == a[2] && s[3] == a[3]);
        assert(s.skip(4) =~= a.skip(4) + b);
        // a itself decodes, so its leading block is in the alphabet and the rest decodes
        assert(is_b64u_byte(a[0]) && is_b64u_byte(a[1]) && is_b64u_byte(a[2]) && is_b64u_byte(a[3]));
        assert(b64u_decode(a.skip(4)) is Some);
        lemma_decode_append(a.skip(4), b);
        if b64u_decode(b) is Some {
            assert(b64u_decode(a)->0 + b64u_decode(b)->0 =~= b64u_decode(s)->0);
        }
    }
}

/// Decode unpadded base64url text; `None` on any byte outside the alphabet,
/// a length that no encoding produces, or nonzero unused trailing bits.
pub fn b64u_decode_bytes(s: &[u8]) -> (r: Option<Vec<u8>>)
    ensures
        r is Some ==> b64u_decode(s@) == Some(r->0@),
        r is None ==> b64u_decode(s@) is None,
{
    let mut out: Vec<u8> = Vec::new();
    let mut i: usize = 0;
    while s.len() - i >= 4
        invariant
            i % 4 == 0,
            i <= s@.len(),
            s@.len() - i >= 4 || s@.len() - i <= 3,
            b64u_decode(s@.take(i as int)) == Some(out@),
        decreases s@.len() - i,
    {
        let v0 = b64u_val(s[i]);
        let v1 = b64u_val(s[i + 1]);
        let v2 = b64u_val(s[i + 2]);
        let v3 = b64u_val(s[i + 3]);
        if v0.is_none() || v1.is_none() || v2.is_none() || v3.is_none() {
            proof {
                let rest = s@.skip(i as int);
                assert(rest.len() >= 4);
                assert(rest[0] == s@[i as int] && rest[1] == s@[i as int + 1] && rest[2] == s@[
                    i as int + 2] && rest[3] == s@[i as int + 3]);
                assert(b64u_decode(rest) is None);
                lemma_decode_append(s@.take(i as int), rest);
                assert(s@.take(i as int) + rest =~= s@);
            }
            return None;
        }
        let v0 = v0.unwrap();
        let v1 = v1.unwrap();
        let v2 = v2.unwrap();
        let v3 = v3.unwrap();
        out.push((v0 << 2) | (v1 >> 4));
        out.push(((v1 & 15) << 4) | (v2 >> 2));
        out.push(((v2 & 3) << 6) | v3);
        proof {
            let prefix = s@.take(i as int);
            let block = s@.subrange(i as int, i as int + 4);
            assert(block.len() == 4);
            assert(block[0] == s@[i as int] && block[1] == s@[i as int + 1] && block[2] == s@[
                i as int + 2] && block[3] == s@[i as int + 3]);
            assert(block.skip(4) =~= Seq::<u8>::empty());
            reveal_with_fuel(b64u_decode, 2);
            assert(b64u_decode(block) == Some(
                seq![(v0 << 2) | (v1 >> 4), ((v1 & 15) << 4) | (v2 >> 2), ((v2 & 3) << 6) | v3]
                    + Seq::<u8>::empty(),
            ));
            lemma_decode_append(prefix, block);
            assert(prefix + block =~= s@.take(i as int + 4));
            assert(out@ =~= b64u_decode(prefix)->0 + b64u_decode(block)->0);
        }
        i += 4;
    }
    let rem = s.len() - i;
    if rem == 0 {
        proof {
            assert(s@.take(i as int) =~= s@);
        }
        return Some(out);
    }
    if rem == 1 {
        proof {
            let rest = s@.skip(i as int);
            assert(rest.len() == 1);
            lemma_decode_append(s@.take(i as int), rest);
            assert(s@.take(i as int) + rest =~= s@);
        }
        return None;
    }
    proof {
        lemma_decode_append(s@.take(i as int), s@.skip(i as int));
        assert(s@.take(i as int) + s@.skip(i as int) =~= s@);
    }
    if rem == 2 {
        let v0 = b64u_val(s[i]);
        let v1 = b64u_val(s[i + 1]);
        proof {
            let rest = s@.skip(i as int);
            assert(rest.len() == 2);
            assert(rest[0] == s@[i as int] && rest[1] == s@[i as int + 1]);
        }
        if v0.is_none() || v1.is_none() {
            return None;
        }
        let v0 = v0.unwrap();
        let v1 = v1.unwrap();
        if v1 & 15 != 0 {
            return None;
        }
        out.push((v0 << 2) | (v1 >> 4));
        proof {
            let rest = s@.skip(i as int);
            assert(b64u_decode(rest) == Some(seq![(v0 << 2) | (v1 >> 4)]));
            assert(out@ =~= b64u_decode(s@.take(i as int))->0 + b64u_decode(rest)->0);
        }
        return Some(out);
    }
    // rem == 3
    let v0 = b64u_val(s[i]);
    let v1 = b64u_val(s[i + 1]);
    let v2 = b64u_val(s[i + 2]);
    proof {
        let rest = s@.skip(i as int);
        assert(rest.len() == 3);
        assert(rest[0] == s@[i as int] && rest[1] == s@[i as int + 1] && rest[2] == s@[i as int
            + 2]);
    }
    if v0.is_none() || v1.is_none() || v2.is_none() {
        return None;
    }
    let v0 = v0.unwrap();
    let v1 = v1.unwrap();
    let v2 = v2.unwrap();
    if v2 & 3 != 0 {
        return None;
    }
    out.push((v0 << 2) | (v1 >> 4));
    out.push(((v1 & 15) << 4) | (v2 >> 2));
    proof {
        let rest = s@.skip(i as int);
        assert(b64u_decode(rest) == Some(
            seq![(v0 << 2) | (v1 >> 4), ((v1 & 15) << 4) | (v2 >> 2)],
        ));
        assert(out@ =~= b64u_decode(s@.take(i as int))->0 + b64u_decode(rest)->0);
    }
    Some(out)
}

/// Every encoding decodes back to the bytes it came from.
pub proof fn lemma_b64u_roundtrip(s: Seq<u8>)
    ensures
        b64u_decode(b64u_encode(s)) == Some(s),
    decreases s.len(),
{
    let e = b64u_encode(s);
    if s.len() == 0 {
        assert(s =~= Seq::<u8>::empty());
    } else if s.len() == 1 {
        lemma_group_bounds(s[0], 0, 0);
        lemma_val_of_char_of(s[0] >> 2);
        lemma_val_of_char_of((s[0] & 3) << 4);
        lemma_tail1_roundtrip(s[0]);
        assert(e.len() == 2);
        assert(b64u_decode(e)->0 =~= s);
    } else if s.len() == 2 {
        lemma_group_bounds(s[0], s[1], 0);
        lemma_val_of_char_of(s[0] >> 2);
        lemma_val_of_char_of(((s[0] & 3) << 4) | (s[1] >> 4));
        lemma_val_of_char_of((s[1] & 15) << 2);
        lemma_tail2_roundtrip(s[0], s[1]);
        assert(e.len() == 3);
        assert(b64u_decode(e)->0 =~= s);
    } else {
        lemma_group_bounds(s[0], s[1], s[2]);
        lemma_val_of_char_of(s[0] >> 2);
        lemma_val_of_char_of(((s[0] & 3) << 4) | (s[1] >> 4));
        lemma_val_of_char_of(((s[1] & 15) << 2) | (s[2] >> 6));
        lemma_val_of_char_of(s[2] & 63);
        lemma_block_roundtrip(s[0], s[1], s[2]);
        lemma_b64u_roundtrip(s.skip(3));
        let rest = b64u_encode(s.skip(3));
        assert(e.len() == 4 + rest.len());
        assert(e.skip(4) =~= rest);
        assert(b64u_decode(e) is Some);
        assert(b64u_decode(e)->0 =~= s);
    }
}

/// Encodings hold alphabet bytes only; in particular no separator byte.
pub proof fn lemma_b64u_encode_alphabet(s: Seq<u8>)
    ensures
        forall|i: int|
            0 <= i < b64u_encode(s).len() ==> is_b64u_byte(#[trigger] b64u_encode(s)[i]),
    decreases s.len(),
{
    if s.len() == 0 {
    } else if s.len() == 1 {
        lemma_group_bounds(s[0], 0, 0);
        lemma_val_of_char_of(s[0] >> 2);
        lemma_val_of_char_of((s[0] & 3) << 4);
    } else if s.len() == 2 {
        lemma_group_bounds(s[0], s[1], 0);
        lemma_val_of_char_of(s[0] >> 2);
        lemma_val_of_char_of(((s[0] & 3) << 4) | (s[1] >> 4));
        lemma_val_of_char_of((s[1] & 15) << 2);
    } else {
        lemma_group_bounds(s[0], s[1], s[2]);
        lemma_val_of_char_of(s[0] >> 2);
        lemma_val_of_char_of(((s[0] & 3) << 4) | (s[1] >> 4));
        lemma_val_of_char_of(((s[1] & 15) << 2) | (s[2] >> 6));
        lemma_val_of_char_of(s[2] & 63);
        lemma_b64u_encode_alphabet(s.skip(3));
        let rest = b64u_encode(s.skip(3));
        assert(forall|i: int|
            0 <= i < b64u_encode(s).len() ==> is_b64u_byte(#[trigger] b64u_encode(s)[i])) by {
            assert(forall|i: int|
                4 <= i < b64u_encode(s).len() ==> b64u_encode(s)[i] == rest[i - 4]);
        }
    }
}

} // verus!
