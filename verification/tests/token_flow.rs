use sha3::Digest;

use vsu_forum_backend::hashing::hash_text;
use vsu_forum_backend::token::{issue, verify, VerificationFailure, TOKEN_VALIDITY_SECS};

const SECRET: &str = "unit-test-secret-key";
const NOW: u64 = 4000000000;

#[test]
fn hash_is_deterministic() {
    let a = hash_text("secret password".to_string());
    let b = hash_text("secret password".to_string());
    assert_eq!(a, b);
    assert_eq!(a.len(), 32);
}

#[test]
fn hash_differs_on_different_inputs() {
    let a = hash_text("password-one".to_string());
    let b = hash_text("password-two".to_string());
    assert_ne!(a, b);
}

#[test]
fn hash_matches_the_primitive() {
    let ours = hash_text("abc".to_string());
    let theirs = sha3::Sha3_256::digest(b"abc").to_vec();
    assert_eq!(ours, theirs);
    assert_ne!(ours, b"abc".to_vec());
}

#[test]
fn issue_then_verify_yields_the_claims() {
    let token = issue(7, "alice_login", SECRET, NOW).unwrap();
    let claims = verify(&token, SECRET, NOW).unwrap();
    assert_eq!(claims.sub, "alice_login");
    assert_eq!(claims.user_id, 7);
    assert_eq!(claims.exp, NOW + TOKEN_VALIDITY_SECS);
}

#[test]
fn token_has_three_parts() {
    let token = issue(7, "alice_login", SECRET, NOW).unwrap();
    assert_eq!(token.split('.').count(), 3);
}

#[test]
fn verify_rejects_expired_token_at_the_boundary() {
    let token = issue(7, "alice_login", SECRET, NOW).unwrap();
    let exp = NOW + TOKEN_VALIDITY_SECS;
    assert_eq!(verify(&token, SECRET, exp), Err(VerificationFailure::Expired));
    assert_eq!(verify(&token, SECRET, exp + 1), Err(VerificationFailure::Expired));
    assert!(verify(&token, SECRET, exp - 1).is_ok());
    assert!(verify(&token, SECRET, NOW).is_ok());
}

#[test]
fn verify_rejects_wrong_secret() {
    let token = issue(7, "alice_login", SECRET, NOW).unwrap();
    assert_eq!(
        verify(&token, "some-other-secret", NOW),
        Err(VerificationFailure::BadSignature)
    );
}

#[test]
fn verify_rejects_garbage() {
    assert_eq!(
        verify("garbage", SECRET, NOW),
        Err(VerificationFailure::Malformed)
    );
    assert_eq!(verify("", SECRET, NOW), Err(VerificationFailure::Malformed));
    assert_eq!(
        verify("a.b", SECRET, NOW),
        Err(VerificationFailure::Malformed)
    );
    assert_eq!(
        verify("a.b.c.d", SECRET, NOW),
        Err(VerificationFailure::Malformed)
    );
}

#[test]
fn verify_rejects_spliced_payload() {
    let token_a = issue(1, "alice_login", SECRET, NOW).unwrap();
    let token_b = issue(2, "alice_login", SECRET, NOW).unwrap();
    let a: Vec<&str> = token_a.split('.').collect();
    let b: Vec<&str> = token_b.split('.').collect();
    let spliced = format!("{}.{}.{}", a[0], b[1], a[2]);
    assert_eq!(
        verify(&spliced, SECRET, NOW),
        Err(VerificationFailure::BadSignature)
    );
}

#[test]
fn issued_token_decodes_with_the_jwt_crate() {
    let token = issue(42, "bob_the_user", "k1", NOW).unwrap();
    let data = jsonwebtoken::decode::<serde_json::Value>(
        &token,
        &jsonwebtoken::DecodingKey::from_secret(b"k1"),
        &jsonwebtoken::Validation::default(),
    )
    .unwrap();
    assert_eq!(data.claims.get("sub").unwrap().as_str().unwrap(), "bob_the_user");
    assert_eq!(data.claims.get("user_id").unwrap().as_i64().unwrap(), 42);
    assert_eq!(
        data.claims.get("exp").unwrap().as_u64().unwrap(),
        NOW + TOKEN_VALIDITY_SECS
    );
}

#[test]
fn jwt_crate_token_verifies_here() {
    let mut m = serde_json::Map::new();
    m.insert(
        "exp".to_string(),
        serde_json::Value::from(NOW + TOKEN_VALIDITY_SECS),
    );
    m.insert("sub".to_string(), serde_json::Value::from("bob_the_user"));
    m.insert("user_id".to_string(), serde_json::Value::from(42i64));
    let token = jsonwebtoken::encode(
        &jsonwebtoken::Header::default(),
        &serde_json::Value::Object(m),
        &jsonwebtoken::EncodingKey::from_secret(b"k1"),
    )
    .unwrap();
    let claims = verify(&token, "k1", NOW).unwrap();
    assert_eq!(claims.sub, "bob_the_user");
    assert_eq!(claims.user_id, 42);
    assert_eq!(claims.exp, NOW + TOKEN_VALIDITY_SECS);
}
