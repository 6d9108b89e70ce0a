use vsu_forum_backend::dto::{LoginDTO, RegisterDTO};
use vsu_forum_backend::gate::{authorize_current_user, authorize_request, GateOutcome};
use vsu_forum_backend::store::{login_user, register_user, CredentialStore};
use vsu_forum_backend::token::verify;

const SECRET: &str = "account-flow-secret";
const NOW: u64 = 4000000000;

fn register_dto(login: &str, password: &str) -> RegisterDTO {
    RegisterDTO {
        login: login.to_string(),
        password: password.to_string(),
    }
}

fn login_dto(login: &str, password: &str) -> LoginDTO {
    LoginDTO {
        login: login.to_string(),
        password: password.to_string(),
    }
}

#[test]
fn registering_twice_conflicts() {
    let mut store = CredentialStore::new();
    let (status1, body1) = register_user(&mut store, register_dto("alice", "password1"), SECRET, NOW);
    assert_eq!(status1, 201);
    assert!(body1.starts_with("{\"id\":1,\"token\":\""));
    assert_eq!(store.users.len(), 1);

    let (status2, body2) = register_user(&mut store, register_dto("alice", "password2"), SECRET, NOW);
    assert_eq!(status2, 400);
    assert_eq!(body2, "{\"err\":\"user with this login already registered\"}");
    assert_eq!(store.users.len(), 1);
}

#[test]
fn registration_token_verifies() {
    let mut store = CredentialStore::new();
    let result = store
        .register("carol_login".to_string(), "carol-password".to_string(), SECRET, NOW)
        .unwrap();
    assert_eq!(result.id, 1);
    let claims = verify(&result.token, SECRET, NOW).unwrap();
    assert_eq!(claims.sub, "carol_login");
    assert_eq!(claims.user_id, 1);
}

#[test]
fn login_failures_are_indistinguishable() {
    let mut store = CredentialStore::new();
    let (status, _) = register_user(&mut store, register_dto("alice", "password1"), SECRET, NOW);
    assert_eq!(status, 201);

    let (wrong_pw_status, wrong_pw_body) =
        login_user(&store, login_dto("alice", "wrong-password"), SECRET, NOW);
    let (unknown_status, unknown_body) =
        login_user(&store, login_dto("nobody", "password1"), SECRET, NOW);
    assert_eq!(wrong_pw_status, 401);
    assert_eq!(unknown_status, 401);
    assert_eq!(wrong_pw_body, "{\"err\":\"login or password is incorrect\"}");
    assert_eq!(wrong_pw_body, unknown_body);
}

#[test]
fn login_with_correct_credentials_succeeds() {
    let mut store = CredentialStore::new();
    let (status, _) = register_user(&mut store, register_dto("alice", "password1"), SECRET, NOW);
    assert_eq!(status, 201);

    let (login_status, body) = login_user(&store, login_dto("alice", "password1"), SECRET, NOW);
    assert_eq!(login_status, 200);
    assert!(body.starts_with("{\"id\":1,\"token\":\""));

    let dto = store
        .login("alice", "password1".to_string(), SECRET, NOW)
        .unwrap();
    assert_eq!(dto.id, 1);
    let claims = verify(&dto.token, SECRET, NOW).unwrap();
    assert_eq!(claims.user_id, 1);
    assert_eq!(claims.sub, "alice");
}

#[test]
fn gate_rejects_missing_header() {
    match authorize_request(None, SECRET, NOW) {
        GateOutcome::Reject(status, body) => {
            assert_eq!(status, 401);
            assert_eq!(body, "{\"err\":\"pass token\"}");
        }
        GateOutcome::Proceed(_) => panic!("the auth gate let a headerless request through"),
    }
}

#[test]
fn gate_rejects_garbage_token() {
    match authorize_request(Some("Bearer garbage"), SECRET, NOW) {
        GateOutcome::Reject(status, body) => {
            assert_eq!(status, 401);
            assert_eq!(body, "{\"err\":\"token is incorrect\"}");
        }
        GateOutcome::Proceed(_) => panic!("the auth gate accepted a garbage token"),
    }
}

#[test]
fn gate_passes_fresh_token_and_attaches_identity() {
    let mut store = CredentialStore::new();
    let result = store
        .register("dave_login".to_string(), "dave-password".to_string(), SECRET, NOW)
        .unwrap();
    let header = format!("Bearer {}", result.token);
    match authorize_request(Some(&header), SECRET, NOW) {
        GateOutcome::Proceed(claims) => {
            assert_eq!(claims.user_id, result.id);
            assert_eq!(claims.sub, "dave_login");
        }
        GateOutcome::Reject(_, _) => panic!("the auth gate rejected a fresh token"),
    }
}

#[test]
fn gate_without_bearer_prefix_treats_value_as_token() {
    let mut store = CredentialStore::new();
    let result = store
        .register("erin_login".to_string(), "erin-password".to_string(), SECRET, NOW)
        .unwrap();
    // a header value without the scheme prefix is taken as the token itself
    match authorize_request(Some(&result.token), SECRET, NOW) {
        GateOutcome::Proceed(claims) => assert_eq!(claims.user_id, result.id),
        GateOutcome::Reject(_, _) => panic!("the auth gate rejected a bare token"),
    }
}

#[test]
fn authorize_current_user_mirrors_verify() {
    let mut store = CredentialStore::new();
    let result = store
        .register("fred_login".to_string(), "fred-password".to_string(), SECRET, NOW)
        .unwrap();
    let claims = authorize_current_user(&result.token, SECRET, NOW).unwrap();
    assert_eq!(claims.user_id, result.id);
    assert!(authorize_current_user(&result.token, "other-secret", NOW).is_none());
    assert!(authorize_current_user("garbage", SECRET, NOW).is_none());
}

#[test]
fn validation_rule_checks_lengths() {
    assert!(register_dto("abcdef", "abcdef").validate());
    assert!(!register_dto("abcde", "abcdef").validate());
    assert!(!register_dto("abcdef", "abcde").validate());
    assert!(!register_dto(&"a".repeat(25), "abcdef").validate());
    assert!(register_dto(&"a".repeat(24), &"b".repeat(24)).validate());
}

#[test]
fn gate_rejects_expired_token() {
    let mut store = CredentialStore::new();
    let result = store
        .register("gina_login".to_string(), "gina-password".to_string(), SECRET, NOW)
        .unwrap();
    let header = format!("Bearer {}", result.token);
    let expiry = NOW + vsu_forum_backend::token::TOKEN_VALIDITY_SECS;
    match authorize_request(Some(&header), SECRET, expiry) {
        GateOutcome::Reject(status, body) => {
            assert_eq!(status, 401);
            assert_eq!(body, "{\"err\":\"token is incorrect\"}");
        }
        GateOutcome::Proceed(_) => panic!("the auth gate accepted an expired token"),
    }
}
