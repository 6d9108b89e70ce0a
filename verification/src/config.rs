//! Application configuration and its file format: a fixed-order key file
//! with quoted values, one connection string and the logging and token-key
//! sections. Reading the file from disk is the caller's business; this
//! module turns its text into the configuration value.

use vstd::prelude::*;
use vstd::slice::slice_subrange;
use vstd::utf8::{encode_utf8, valid_utf8};

use crate::bytes_eq;
use crate::token::bytes_to_string;

verus! {

/// The whole configuration.
#[derive(Clone)]
pub struct AppConfig {
    pub db_connstring: String,
    pub logging: LoggingConfig,
    pub jwt: JwtConfig,
}

/// Log level and filter directives.
#[derive(Clone)]
pub struct LoggingConfig {
    pub level: String,
    pub filters: String,
}

/// The token-signing secret. Loaded once at process start; never logged and
/// never echoed in a response.
#[derive(Clone)]
pub struct JwtConfig {
    pub secret_key: String,
}

/// The configuration text was not in the expected shape.
#[derive(Clone, Copy, Debug, PartialEq, Eq, Structural)]
pub struct ConfigError;

/// `db_connstring = "`
pub open spec fn lit_db() -> Seq<u8> {
    seq![
        100u8, 98u8, 95u8, 99u8, 111u8, 110u8, 110u8, 115u8, 116u8, 114u8, 105u8, 110u8, 103u8,
        32u8, 61u8, 32u8, 34u8,
    ]
}

/// newline, `[logging]`, newline, `level = "`
pub open spec fn lit_logging() -> Seq<u8> {
    seq![
        10u8, 91u8, 108u8, 111u8, 103u8, 103u8, 105u8, 110u8, 103u8, 93u8, 10u8, 108u8, 101u8,
        118u8, 101u8, 108u8, 32u8, 61u8, 32u8, 34u8,
    ]
}

/// newline, `filters = "`
pub open spec fn lit_filters() -> Seq<u8> {
    seq![10u8, 102u8, 105u8, 108u8, 116u8, 101u8, 114u8, 115u8, 32u8, 61u8, 32u8, 34u8]
}

/// newline, `[jwt]`, newline, `secret_key = "`
pub open spec fn lit_jwt() -> Seq<u8> {
    seq![
        10u8, 91u8, 106u8, 119u8, 116u8, 93u8, 10u8, 115u8, 101u8, 99u8, 114u8, 101u8, 116u8,
        95u8, 107u8, 101u8, 121u8, 32u8, 61u8, 32u8, 34u8,
    ]
}

/// Parse a quoted value's body at `i` up to and including the closing
/// quote; a raw newline or a missing quote refuses the text.
pub open spec fn parse_qstr_at(s: Seq<u8>, i: int) -> Option<(Seq<u8>, int)>
    decreases s.len() - i,
{
    if i < 0 || i >= s.len() {
        None
    } else if s[i] == 34 {
        Some((Seq::<u8>::empty(), i + 1))
    } else if s[i] == 10 {
        None
    } else {
        match parse_qstr_at(s, i + 1) {
            Some((t, j)) => Some((seq![s[i]] + t, j)),
            None => None,
        }
    }
}

/// Parse the configuration text: the four quoted values in their fixed
/// order, each valid UTF-8, with at most one trailing newline.
pub open spec fn parse_config(t: Seq<u8>) -> Option<(Seq<u8>, Seq<u8>, Seq<u8>, Seq<u8>)> {
    if !(t.len() >= 17 && t.subrange(0, 17) == lit_db()) {
        None
    } else {
        match parse_qstr_at(t, 17) {
            None => None,
            Some((v1, a)) => if !(a + 20 <= t.len() && t.subrange(a, a + 20) == lit_logging()) {
                None
            } else {
                match parse_qstr_at(t, a + 20) {
                    None => None,
                    Some((v2, b)) => if !(b + 12 <= t.len() && t.subrange(b, b + 12)
                        == lit_filters()) {
                        None
                    } else {
                        match parse_qstr_at(t, b + 12) {
                            None => None,
                            Some((v3, c)) => if !(c + 21 <= t.len() && t.subrange(c, c + 21)
                                == lit_jwt()) {
                                None
                            } else {
                                match parse_qstr_at(t, c + 21) {
                                    None => None,
                                    Some((v4, d)) => if (d == t.len() || (d + 1 == t.len() && t[d]
                                        == 10)) && valid_utf8(v1) && valid_utf8(v2) && valid_utf8(
                                        v3,
                                    ) && valid_utf8(v4) {
                                        Some((v1, v2, v3, v4))
                                    } else {
                                        None
                                    },
                                }
                            },
                        }
                    },
                }
            },
        }
    }
}

/// Exec scan of a quoted value at `i`.
fn scan_qstr(p: &[u8], i: usize) -> (r: Option<(Vec<u8>, usize)>)
    requires
        i <= p@.len(),
    ensures
        match r {
            Some(t) => parse_qstr_at(p@, i as int) == Some((t.0@, t.1 as int)) && i < t.1
                <= p@.len(),
            None => parse_qstr_at(p@, i as int) is None,
        },
{
    let mut out: Vec<u8> = Vec::new();
    let mut j: usize = i;
    proof {
        let pr = parse_qstr_at(p@, i as int);
        if pr is Some {
            let t = (pr->0).0;
            assert(out@ + t =~= t);
        }
    }
    while j < p.len()
        invariant
            i <= j <= p@.len(),
            match parse_qstr_at(p@, j as int) {
                Some((t, e)) => parse_qstr_at(p@, i as int) == Some((out@ + t, e)),
                None => parse_qstr_at(p@, i as int) is None,
            },
        decreases p@.len() - j,
    {
        let b = p[j];
        if b == 34 {
            proof {
                assert(out@ + Seq::<u8>::empty() =~= out@);
            }
            return Some((out, j + 1));
        }
        if b == 10 {
            return None;
        }
        let ghost old_out = out@;
        out.push(b);
        j += 1;
        proof {
            assert(out@ == old_out.push(b));
            let pr = parse_qstr_at(p@, j as int);
            if pr is Some {
                let t = (pr->0).0;
                assert(old_out + (seq![b] + t) =~= out@ + t);
            }
        }
    }
    None
}

/// Exec form of `db_connstring = "`.
fn lit_db_vec() -> (v: Vec<u8>)
    ensures
        v@ == lit_db(),
{
    let v: Vec<u8> = vec![
        100u8, 98u8, 95u8, 99u8, 111u8, 110u8, 110u8, 115u8, 116u8, 114u8, 105u8, 110u8, 103u8,
        32u8, 61u8, 32u8, 34u8,
    ];
    proof {
        assert(v@ =~= lit_db());
    }
    v
}

/// Exec form of the logging-section literal.
fn lit_logging_vec() -> (v: Vec<u8>)
    ensures
        v@ == lit_logging(),
{
    let v: Vec<u8> = vec![
        10u8, 91u8, 108u8, 111u8, 103u8, 103u8, 105u8, 110u8, 103u8, 93u8, 10u8, 108u8, 101u8,
        118u8, 101u8, 108u8, 32u8, 61u8, 32u8, 34u8,
    ];
    proof {
        assert(v@ =~= lit_logging());
    }
    v
}

/// Exec form of the filters literal.
fn lit_filters_vec() -> (v: Vec<u8>)
    ensures
        v@ == lit_filters(),
{
    let v: Vec<u8> = vec![
        10u8, 102u8, 105u8, 108u8, 116u8, 101u8, 114u8, 115u8, 32u8, 61u8, 32u8, 34u8,
    ];
    proof {
        assert(v@ =~= lit_filters());
    }
    v
}

/// Exec form of the jwt-section literal.
fn lit_jwt_vec() -> (v: Vec<u8>)
    ensures
        v@ == lit_jwt(),
{
    let v: Vec<u8> = vec![
        10u8, 91u8, 106u8, 119u8, 116u8, 93u8, 10u8, 115u8, 101u8, 99u8, 114u8, 101u8, 116u8,
        95u8, 107u8, 101u8, 121u8, 32u8, 61u8, 32u8, 34u8,
    ];
    proof {
        assert(v@ =~= lit_jwt());
    }
    v
}

/// Turn configuration text into the configuration value; refused exactly
/// when the text does not parse.
pub fn load_config(text: &str) -> (r: Result<AppConfig, ConfigError>)
    ensures
        r matches Ok(c) ==> parse_config(encode_utf8(text@)) == Some(
            (
                encode_utf8(c.db_connstring@),
                encode_utf8(c.logging.level@),
                encode_utf8(c.logging.filters@),
                encode_utf8(c.jwt.secret_key@),
            ),
        ),
        r is Err ==> parse_config(encode_utf8(text@)) is None,
{
    let t = text.as_bytes();
    if t.len() < 17 {
        return Err(ConfigError);
    }
    let l1 = lit_db_vec();
    if !bytes_eq(slice_subrange(t, 0, 17), l1.as_slice()) {
        return Err(ConfigError);
    }
    let (v1, a) = match scan_qstr(t, 17) {
        Some(x) => x,
        None => {
            return Err(ConfigError);
        },
    };
    if t.len() - a < 20 {
        return Err(ConfigError);
    }
    let l2 = lit_logging_vec();
    if !bytes_eq(slice_subrange(t, a, a + 20), l2.as_slice()) {
        return Err(ConfigError);
    }
    let (v2, b) = match scan_qstr(t, a + 20) {
        Some(x) => x,
        None => {
            return Err(ConfigError);
        },
    };
    if t.len() - b < 12 {
        return Err(ConfigError);
    }
    let l3 = lit_filters_vec();
    if !bytes_eq(slice_subrange(t, b, b + 12), l3.as_slice()) {
        return Err(ConfigError);
    }
    let (v3, c) = match scan_qstr(t, b + 12) {
        Some(x) => x,
        None => {
            return Err(ConfigError);
        },
    };
    if t.len() - c < 21 {
        return Err(ConfigError);
    }
    let l4 = lit_jwt_vec();
    if !bytes_eq(slice_subrange(t, c, c + 21), l4.as_slice()) {
        return Err(ConfigError);
    }
    let (v4, d) = match scan_qstr(t, c + 21) {
        Some(x) => x,
        None => {
            return Err(ConfigError);
        },
    };
    if !(d == t.len() || (d == t.len() - 1 && t[d] == 10)) {
        return Err(ConfigError);
    }
    let db = match bytes_to_string(v1) {
        Some(s) => s,
        None => {
            return Err(ConfigError);
        },
    };
    let level = match bytes_to_string(v2) {
        Some(s) => s,
        None => {
            return Err(ConfigError);
        },
    };
    let filters = match bytes_to_string(v3) {
        Some(s) => s,
        None => {
            return Err(ConfigError);
        },
    };
    let secret_key = match bytes_to_string(v4) {
        Some(s) => s,
        None => {
            return Err(ConfigError);
        },
    };
    Ok(
        AppConfig {
            db_connstring: db,
            logging: LoggingConfig { level, filters },
            jwt: JwtConfig { secret_key },
        },
    )
}

} // verus!
