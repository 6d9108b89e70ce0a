//! Canonical decimal rendering and parsing of the numeric token fields.
//!
//! A rendered number has no sign (for the unsigned form), no leading zero
//! (except the single digit `0`), and the parser accepts exactly that shape,
//! with a field width of at most nineteen digits so that every accepted run
//! fits the machine word.

use vstd::prelude::*;

verus! {

/// Whether a byte is a decimal digit.
pub open spec fn is_digit(b: u8) -> bool {
    48 <= b && b <= 57
}

/// Powers of ten.
pub open spec fn pow10(k: nat) -> nat
    decreases k,
{
    if k == 0 {
        1
    } else {
        10 * pow10((k - 1) as nat)
    }
}

/// The canonical decimal digits of an unsigned number.
pub open spec fn dec_u64(n: nat) -> Seq<u8>
    decreases n,
{
    if n < 10 {
        seq![(48 + n) as u8]
    } else {
        dec_u64(n / 10) + seq![(48 + n % 10) as u8]
    }
}

/// The canonical decimal digits of a signed number.
pub open spec fn dec_i64(n: int) -> Seq<u8> {
    if n < 0 {
        seq![45u8] + dec_u64((-n) as nat)
    } else {
        dec_u64(n as nat)
    }
}

/// First index at or after `i` that does not hold a digit.
pub open spec fn digit_run_end(s: Seq<u8>, i: int) -> int
    decreases s.len() - i,
{
    if i < 0 || i >= s.len() {
        i
    } else if is_digit(s[i]) {
        digit_run_end(s, i + 1)
    } else {
        i
    }
}

/// Value of the digit run `s[i..j)`.
pub open spec fn digits_val(s: Seq<u8>, i: int, j: int) -> int
    decreases j - i,
{
    if i >= j {
        0
    } else {
        digits_val(s, i, j - 1) * 10 + (s[j - 1] - 48)
    }
}

/// Parse a canonical unsigned field at `i`: the maximal digit run, refused
/// when empty, zero-padded, or wider than nineteen digits. Yields the value
/// and the index after the run.
pub open spec fn parse_u64_at(s: Seq<u8>, i: int) -> Option<(int, int)> {
    let j = digit_run_end(s, i);
    if j == i {
        None
    } else if s[i] == 48 && j != i + 1 {
        None
    } else if j - i > 19 {
        None
    } else {
        Some((digits_val(s, i, j), j))
    }
}

/// Parse a canonical signed field at `i`: an optional `-` (never before `0`)
/// followed by an unsigned field, within the signed machine range.
pub open spec fn parse_i64_at(s: Seq<u8>, i: int) -> Option<(int, int)> {
    if 0 <= i < s.len() && s[i] == 45 {
        match parse_u64_at(s, i + 1) {
            Some((m, j)) => if 0 < m <= 0x8000000000000000 {
                Some((-m, j))
            } else {
                None
            },
            None => None,
        }
    } else {
        match parse_u64_at(s, i) {
            Some((m, j)) => if m <= 0x7fffffffffffffff {
                Some((m, j))
            } else {
                None
            },
            None => None,
        }
    }
}

/// The rendered digits are digits, start with `0` only for the value `0`,
/// and there is at least one of them.
pub proof fn lemma_dec_u64_shape(n: nat)
    ensures
        dec_u64(n).len() >= 1,
        forall|k: int| 0 <= k < dec_u64(n).len() ==> is_digit(#[trigger] dec_u64(n)[k]),
        dec_u64(n)[0] == 48 ==> n == 0,
    decreases n,
{
    if n >= 10 {
        lemma_dec_u64_shape(n / 10);
        assert(dec_u64(n) == dec_u64(n / 10) + seq![(48 + n % 10) as u8]);
        assert(dec_u64(n)[0] == dec_u64(n / 10)[0]);
    }
}

/// A value below `pow10(k)` renders to at most `k` digits.
pub proof fn lemma_dec_u64_len(n: nat, k: nat)
    requires
        k >= 1,
        n < pow10(k),
    ensures
        dec_u64(n).len() <= k,
    decreases n,
{
    if n < 10 {
    } else {
        assert(pow10(k) == 10 * pow10((k - 1) as nat));
        assert(n / 10 < pow10((k - 1) as nat)) by (nonlinear_arith)
            requires
                n < 10 * pow10((k - 1) as nat),
                n >= 10,
        ;
        assert(pow10((k - 1) as nat) >= 1) by {
            lemma_pow10_pos((k - 1) as nat);
        }
        assert(k - 1 >= 1) by {
            if k == 1 {
                assert(pow10(1nat) == 10);
            }
        }
        lemma_dec_u64_len(n / 10, (k - 1) as nat);
    }
}

/// Powers of ten are positive.
pub proof fn lemma_pow10_pos(k: nat)
    ensures
        pow10(k) >= 1,
    decreases k,
{
    if k > 0 {
        lemma_pow10_pos((k - 1) as nat);
    }
}

/// The named powers of ten that the parser's width limit rests on.
pub proof fn lemma_pow10_19()
    ensures
        pow10(19) == 10000000000000000000,
        pow10(18) == 1000000000000000000,
{
    reveal_with_fuel(pow10, 20);
}

/// A digit run's value is bounded by the power of ten of its width.
pub proof fn lemma_digits_val_bound(s: Seq<u8>, i: int, j: int)
    requires
        i <= j,
        forall|k: int| i <= k < j ==> is_digit(#[trigger] s[k]),
        0 <= i,
        j <= s.len(),
    ensures
        0 <= digits_val(s, i, j) < pow10((j - i) as nat),
    decreases j - i,
{
    if i >= j {
    } else {
        lemma_digits_val_bound(s, i, j - 1);
        assert(pow10((j - i) as nat) == 10 * pow10((j - i - 1) as nat));
    }
}

/// Reading back the rendered digits yields the value.
pub proof fn lemma_digits_val_of_dec(s: Seq<u8>, i: int, n: nat)
    requires
        0 <= i,
        i + dec_u64(n).len() <= s.len(),
        s.subrange(i, i + dec_u64(n).len() as int) == dec_u64(n),
    ensures
        digits_val(s, i, i + dec_u64(n).len() as int) == n,
    decreases n,
{
    let len = dec_u64(n).len() as int;
    assert(forall|k: int| 0 <= k < len ==> s[i + k] == #[trigger] dec_u64(n)[k]) by {
        assert(forall|k: int| 0 <= k < len ==> s.subrange(i, i + len)[k] == #[trigger] dec_u64(
            n,
        )[k]);
    }
    if n < 10 {
        assert(len == 1);
        assert(digits_val(s, i, i + 1) == digits_val(s, i, i) * 10 + (s[i] - 48));
        assert(digits_val(s, i, i) == 0);
        assert(dec_u64(n)[0] == (48 + n) as u8);
        assert(s[i + 0] == dec_u64(n)[0]);
        assert(s[i] == (48 + n) as u8);
    } else {
        assert(dec_u64(n) == dec_u64(n / 10) + seq![(48 + n % 10) as u8]);
        let plen = dec_u64(n / 10).len() as int;
        assert(plen == len - 1);
        assert(s.subrange(i, i + plen) =~= dec_u64(n / 10)) by {
            assert(forall|k: int| 0 <= k < plen ==> #[trigger] dec_u64(n)[k] == dec_u64(n / 10)[k]);
        }
        lemma_digits_val_of_dec(s, i, n / 10);
        assert(digits_val(s, i, i + plen) == n / 10);
        assert(s[i + len - 1] == dec_u64(n)[len - 1]);
        assert(dec_u64(n)[len - 1] == (48 + n % 10) as u8);
        assert(digits_val(s, i, i + len) == digits_val(s, i, i + len - 1) * 10 + (s[i + len - 1]
            - 48));
        assert(n / 10 * 10 + n % 10 == n) by {
            vstd::arithmetic::div_mod::lemma_fundamental_div_mod(n as int, 10);
        }
    }
}

/// A maximal digit run ends exactly where the digits stop.
pub proof fn lemma_digit_run_end(s: Seq<u8>, i: int, j: int)
    requires
        0 <= i <= j <= s.len(),
        forall|k: int| i <= k < j ==> is_digit(#[trigger] s[k]),
        j == s.len() || !is_digit(s[j]),
    ensures
        digit_run_end(s, i) == j,
    decreases j - i,
{
    if i == j {
    } else {
        lemma_digit_run_end(s, i + 1, j);
    }
}

/// The rendered digits of an unsigned value, when followed by a non-digit,
/// parse back to that value.
pub proof fn lemma_parse_of_dec_u64(s: Seq<u8>, i: int, n: nat)
    requires
        0 <= i,
        n < pow10(19),
        i + dec_u64(n).len() <= s.len(),
        s.subrange(i, i + dec_u64(n).len() as int) == dec_u64(n),
        i + dec_u64(n).len() == s.len() || !is_digit(s[i + dec_u64(n).len() as int]),
    ensures
        parse_u64_at(s, i) == Some((n as int, i + dec_u64(n).len() as int)),
{
    let len = dec_u64(n).len() as int;
    lemma_dec_u64_shape(n);
    assert(forall|k: int| i <= k < i + len ==> is_digit(#[trigger] s[k])) by {
        assert(forall|k: int|
            i <= k < i + len ==> s[k] == s.subrange(i, i + len)[k - i]);
    }
    lemma_digit_run_end(s, i, i + len);
    lemma_dec_u64_len(n, 19);
    lemma_digits_val_of_dec(s, i, n);
    assert(s[i] == dec_u64(n)[0]);
    if s[i] == 48 {
        assert(n == 0);
    }
}

/// The rendered digits of a signed value, when followed by a non-digit,
/// parse back to that value.
pub proof fn lemma_parse_of_dec_i64(s: Seq<u8>, i: int, n: i64)
    requires
        0 <= i,
        i + dec_i64(n as int).len() <= s.len(),
        s.subrange(i, i + dec_i64(n as int).len() as int) == dec_i64(n as int),
        i + dec_i64(n as int).len() == s.len() || !is_digit(
            s[i + dec_i64(n as int).len() as int],
        ),
    ensures
        parse_i64_at(s, i) == Some((n as int, i + dec_i64(n as int).len() as int)),
{
    let len = dec_i64(n as int).len() as int;
    lemma_pow10_19();
    if n < 0 {
        let m = (-(n as int)) as nat;
        assert(dec_i64(n as int) == seq![45u8] + dec_u64(m));
        let ulen = dec_u64(m).len() as int;
        assert(s[i] == dec_i64(n as int)[0]);
        assert(s[i] == 45);
        assert(s.subrange(i + 1, i + 1 + ulen) =~= dec_u64(m)) by {
            assert(forall|k: int|
                0 <= k < ulen ==> s.subrange(i, i + len)[k + 1] == dec_u64(m)[k]);
        }
        lemma_parse_of_dec_u64(s, i + 1, m);
        lemma_dec_u64_shape(m);
    } else {
        assert(dec_i64(n as int) == dec_u64(n as nat));
        lemma_parse_of_dec_u64(s, i, n as nat);
        lemma_dec_u64_shape(n as nat);
        if 0 <= i < s.len() && s[i] == 45 {
            assert(s[i] == dec_u64(n as nat)[0]);
            assert(is_digit(dec_u64(n as nat)[0]));
        }
    }
}

/// Render an unsigned value as canonical decimal digits.
pub fn u64_to_dec(n: u64) -> (r: Vec<u8>)
    ensures
        r@ == dec_u64(n as nat),
{
    let mut digits: Vec<u8> = Vec::new();
    if n < 10 {
        digits.push(48 + (n as u8));
        assert(digits@ =~= dec_u64(n as nat));
        return digits;
    }
    let mut m: u64 = n;
    while m != 0
        invariant
            if m == 0 {
                digits@ == dec_u64(n as nat)
            } else {
                dec_u64(n as nat) == dec_u64(m as nat) + digits@
            },
        decreases m,
    {
        let d: u8 = 48 + ((m % 10) as u8);
        let ghost prev_digits = digits@;
        digits.insert(0, d);
        proof {
            assert(digits@ == prev_digits.insert(0, d));
            assert(seq![d] + prev_digits =~= digits@);
        }
        let ghost prev = m;
        m = m / 10;
        proof {
            if m == 0 {
                assert(prev < 10);
                assert(dec_u64(prev as nat) =~= seq![d]);
                assert(dec_u64(n as nat) =~= digits@);
            } else {
                assert(prev >= 10);
                assert(dec_u64(prev as nat) == dec_u64((prev / 10) as nat) + seq![
                    (48 + (prev as nat) % 10) as u8,
                ]);
                assert(dec_u64(n as nat) =~= dec_u64(m as nat) + digits@);
            }
        }
    }
    digits
}

/// Render a signed value as canonical decimal digits.
pub fn i64_to_dec(n: i64) -> (r: Vec<u8>)
    ensures
        r@ == dec_i64(n as int),
{
    if n >= 0 {
        u64_to_dec(n as u64)
    } else {
        let m: u64 = ((-(n + 1)) as u64) + 1;
        assert(m as nat == (-(n as int)) as nat);
        let body = u64_to_dec(m);
        let mut out: Vec<u8> = Vec::new();
        out.push(45);
        let mut k: usize = 0;
        while k < body.len()
            invariant
                k <= body@.len(),
                body@ == dec_u64((-(n as int)) as nat),
                out@ == seq![45u8] + body@.take(k as int),
            decreases body@.len() - k,
        {
            out.push(body[k]);
            proof {
                assert(seq![45u8] + body@.take(k as int + 1) =~= (seq![45u8] + body@.take(
                    k as int,
                )).push(body@[k as int]));
            }
            k += 1;
        }
        proof {
            assert(body@.take(body@.len() as int) =~= body@);
        }
        out
    }
}

/// Scan a canonical unsigned field at `i`.
pub fn scan_u64(p: &[u8], i: usize) -> (r: Option<(u64, usize)>)
    requires
        i <= p@.len(),
    ensures
        match r {
            Some(t) => parse_u64_at(p@, i as int) == Some((t.0 as int, t.1 as int)) && i < t.1
                <= p@.len(),
            None => parse_u64_at(p@, i as int) is None,
        },
{
    let mut j: usize = i;
    while j < p.len() && 48 <= p[j] && p[j] <= 57
        invariant
            i <= j <= p@.len(),
            forall|k: int| i <= k < j ==> is_digit(#[trigger] p@[k]),
        decreases p@.len() - j,
    {
        j += 1;
    }
    proof {
        lemma_digit_run_end(p@, i as int, j as int);
    }
    if j == i {
        return None;
    }
    if p[i] == 48 && j != i + 1 {
        return None;
    }
    if j - i > 19 {
        return None;
    }
    let mut acc: u64 = 0;
    let mut k: usize = i;
    proof {
        lemma_pow10_19();
    }
    while k < j
        invariant
            i <= k <= j <= p@.len(),
            j - i <= 19,
            forall|m: int| i <= m < j ==> is_digit(#[trigger] p@[m]),
            acc as int == digits_val(p@, i as int, k as int),
            (acc as int) < pow10((k - i) as nat),
            pow10(19) == 10000000000000000000,
            pow10(18) == 1000000000000000000,
        decreases j - k,
    {
        let d: u8 = p[k] - 48;
        proof {
            lemma_digits_val_bound(p@, i as int, k as int);
            assert(pow10((k - i) as nat) <= pow10(18)) by {
                lemma_pow10_mono((k - i) as nat, 18);
            }
        }
        acc = acc * 10 + (d as u64);
        k += 1;
        proof {
            assert(pow10((k - i) as nat) == 10 * pow10((k - i - 1) as nat));
        }
    }
    Some((acc, j))
}

/// Powers of ten are monotone in the exponent.
pub proof fn lemma_pow10_mono(a: nat, b: nat)
    requires
        a <= b,
    ensures
        pow10(a) <= pow10(b),
    decreases b,
{
    if a < b {
        lemma_pow10_mono(a, (b - 1) as nat);
        lemma_pow10_pos((b - 1) as nat);
        assert(pow10(b) == 10 * pow10((b - 1) as nat));
    }
}

/// Scan a canonical signed field at `i`.
pub fn scan_i64(p: &[u8], i: usize) -> (r: Option<(i64, usize)>)
    requires
        i <= p@.len(),
    ensures
        match r {
            Some(t) => parse_i64_at(p@, i as int) == Some((t.0 as int, t.1 as int)) && i < t.1
                <= p@.len(),
            None => parse_i64_at(p@, i as int) is None,
        },
{
    if i < p.len() && p[i] == 45 {
        match scan_u64(p, i + 1) {
            Some((m, j)) => {
                if m == 0 {
                    None
                } else if m <= 0x8000000000000000 {
                    let v: i64 = if m == 0x8000000000000000 {
                        i64::MIN
                    } else {
                        -(m as i64)
                    };
                    Some((v, j))
                } else {
                    None
                }
            },
            None => None,
        }
    } else {
        match scan_u64(p, i) {
            Some((m, j)) => {
                if m <= 0x7fffffffffffffff {
                    Some((m as i64, j))
                } else {
                    None
                }
            },
            None => None,
        }
    }
}

} // verus!
