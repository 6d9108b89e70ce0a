//! The credential store and the register/login orchestration over it: the
//! in-memory model of the user table, with unique logins as its invariant,
//! and the two account endpoints as functions from store and input to
//! status and body.

use vstd::prelude::*;
use vstd::utf8::{encode_utf8, encode_utf8_decode_utf8};

use crate::bytes_eq;
use crate::dto::{AuthorizedUserDTO, LoginDTO, RegisterDTO};
use crate::hashing::{hash_text, sha3_256_of};
use crate::models::User;
use crate::responses::{
    authorized_body, authorized_body_bytes, body_conflict, body_internal, body_login_incorrect,
    err_body_bytes, msg_conflict, msg_login_incorrect,
};
use crate::token::{
    issue, lemma_token_bytes_plain, sig_is_b64u, signing_input, token_bytes, MAX_EXPIRY,
    TOKEN_VALIDITY_SECS,
};

verus! {

/// Registration fails when the login is taken; an internal fault is kept
/// for the interface although the in-memory store cannot raise one.
#[derive(Clone, Copy, Debug, PartialEq, Eq, Structural)]
pub enum RegisterError {
    Conflict,
    Internal,
}

/// A failed login: deliberately one case for an unknown login and for a
/// wrong password; an internal fault is kept for the interface.
#[derive(Clone, Copy, Debug, PartialEq, Eq, Structural)]
pub enum LoginError {
    Unauthorized,
    Internal,
}

/// Whether some record carries the login.
pub open spec fn has_login(users: Seq<User>, login: Seq<char>) -> bool {
    exists|i: int| 0 <= i < users.len() && (#[trigger] users[i]).login@ == login
}

/// Whether some record carries the login together with the digest.
pub open spec fn has_credentials(users: Seq<User>, login: Seq<char>, digest: Seq<u8>) -> bool {
    exists|i: int|
        0 <= i < users.len() && (#[trigger] users[i]).login@ == login && users[i].password_hash@
            == digest
}

/// The credential store: the records and the identifier the next record
/// will receive.
pub struct CredentialStore {
    pub users: Vec<User>,
    pub next_id: i64,
}

impl CredentialStore {
    /// The store's invariant: identifiers are non-negative, below the next
    /// one, and pairwise distinct, and logins are pairwise distinct.
    pub open spec fn wf(&self) -> bool {
        &&& 0 <= self.next_id
        &&& forall|i: int|
            0 <= i < self.users@.len() ==> 0 <= (#[trigger] self.users@[i]).id < self.next_id
        &&& forall|i: int, j: int|
            0 <= i < self.users@.len() && 0 <= j < self.users@.len() && i != j ==> (
            #[trigger] self.users@[i]).login@ != (#[trigger] self.users@[j]).login@
                && self.users@[i].id != self.users@[j].id
    }

    /// An empty store.
    pub fn new() -> (r: CredentialStore)
        ensures
            r.wf(),
            r.users@.len() == 0,
            r.next_id == 1,
    {
        CredentialStore { users: Vec::new(), next_id: 1 }
    }

    /// The index of the record carrying the login, if any.
    fn find_by_login(&self, login: &str) -> (r: Option<usize>)
        ensures
            r matches Some(i) ==> i < self.users@.len() && self.users@[i as int].login@ == login@,
            r is None ==> !has_login(self.users@, login@),
    {
        let mut i: usize = 0;
        while i < self.users.len()
            invariant
                i <= self.users@.len(),
                forall|k: int| 0 <= k < i ==> (#[trigger] self.users@[k]).login@ != login@,
            decreases self.users@.len() - i,
        {
            if bytes_eq(self.users[i].login.as_str().as_bytes(), login.as_bytes()) {
                proof {
                    encode_utf8_decode_utf8(self.users@[i as int].login@);
                    encode_utf8_decode_utf8(login@);
                }
                return Some(i);
            }
            proof {
                if self.users@[i as int].login@ == login@ {
                    assert(encode_utf8(self.users@[i as int].login@) == encode_utf8(login@));
                }
            }
            i += 1;
        }
        None
    }

    /// Register a new credential: refused with `Conflict` exactly when the
    /// login is taken (and then nothing changes); otherwise the record is
    /// stored under the next identifier and a token for it is issued.
    pub fn register(
        &mut self,
        login: String,
        password: String,
        secret_key: &str,
        now: u64,
    ) -> (r: Result<AuthorizedUserDTO, RegisterError>)
        requires
            old(self).wf(),
            old(self).next_id < i64::MAX,
            now + TOKEN_VALIDITY_SECS < MAX_EXPIRY,
        ensures
            final(self).wf(),
            has_login(old(self).users@, login@) ==> r == Err::<AuthorizedUserDTO, RegisterError>(
                RegisterError::Conflict,
            ) && final(self).users@ == old(self).users@ && final(self).next_id == old(self).next_id,
            !has_login(old(self).users@, login@) ==> (r matches Ok(dto) && dto.id == old(self).next_id && encode_utf8(dto.token@) == token_bytes(
                encode_utf8(login@),
                old(self).next_id as int,
                (now + TOKEN_VALIDITY_SECS) as nat,
                encode_utf8(secret_key@),
            ) && sig_is_b64u(
                signing_input(
                    encode_utf8(login@),
                    old(self).next_id as int,
                    (now + TOKEN_VALIDITY_SECS) as nat,
                ),
                encode_utf8(secret_key@),
            ) && final(self).next_id == old(self).next_id + 1 && final(self).users@.len() == old(self).users@.len() + 1 && final(self).users@.drop_last() == old(self).users@ && final(self).users@.last().id == old(self).next_id && final(self).users@.last().login@ == login@
                && final(self).users@.last().password_hash@ == sha3_256_of(
                encode_utf8(password@),
            )),
    {
        match self.find_by_login(login.as_str()) {
            Some(_) => Err(RegisterError::Conflict),
            None => {
                let digest = hash_text(password);
                let id = self.next_id;
                let token = match issue(id, login.as_str(), secret_key, now) {
                    Ok(t) => t,
                    Err(_) => {
                        return Err(RegisterError::Internal);
                    },
                };
                let ghost prev = self.users@;
                self.users.push(User { id, login, password_hash: digest });
                self.next_id = id + 1;
                proof {
                    assert(self.users@.drop_last() =~= prev);
                    let n = prev.len() as int;
                    assert(forall|k: int| 0 <= k < n ==> self.users@[k] == prev[k]);
                    assert(self.users@[n].id == id);
                    assert forall|i: int, j: int|
                        0 <= i < self.users@.len() && 0 <= j < self.users@.len() && i != j implies (
                    #[trigger] self.users@[i]).login@ != (#[trigger] self.users@[j]).login@
                        && self.users@[i].id != self.users@[j].id by {
                        if i == n {
                            assert(prev[j].id < id);
                        } else if j == n {
                            assert(prev[i].id < id);
                        }
                    }
                }
                Ok(AuthorizedUserDTO { id, token })
            },
        }
    }

    /// Log an existing credential in: succeeds exactly when some record
    /// carries the login together with the digest of the password, and then
    /// issues a token for that record's identity. Unknown logins and wrong
    /// passwords are indistinguishable in the result.
    pub fn login(&self, login: &str, password: String, secret_key: &str, now: u64) -> (r: Result<
        AuthorizedUserDTO,
        LoginError,
    >)
        requires
            self.wf(),
            now + TOKEN_VALIDITY_SECS < MAX_EXPIRY,
        ensures
            has_credentials(self.users@, login@, sha3_256_of(encode_utf8(password@))) ==> (
            r matches Ok(dto) && has_login(self.users@, login@) && (exists|i: int|
                0 <= i < self.users@.len() && (#[trigger] self.users@[i]).login@ == login@
                    && self.users@[i].password_hash@ == sha3_256_of(encode_utf8(password@))
                    && dto.id == self.users@[i].id && encode_utf8(dto.token@) == token_bytes(
                    encode_utf8(login@),
                    self.users@[i].id as int,
                    (now + TOKEN_VALIDITY_SECS) as nat,
                    encode_utf8(secret_key@),
                ) && sig_is_b64u(
                    signing_input(
                        encode_utf8(login@),
                        self.users@[i].id as int,
                        (now + TOKEN_VALIDITY_SECS) as nat,
                    ),
                    encode_utf8(secret_key@),
                ))),
            !has_credentials(self.users@, login@, sha3_256_of(encode_utf8(password@))) ==> r
                == Err::<AuthorizedUserDTO, LoginError>(LoginError::Unauthorized),
    {
        let idx = match self.find_by_login(login) {
            Some(i) => i,
            None => {
                return Err(LoginError::Unauthorized);
            },
        };
        let digest = hash_text(password);
        if !bytes_eq(self.users[idx].password_hash.as_slice(), digest.as_slice()) {
            proof {
                let i = idx as int;
                assert forall|j: int|
                    0 <= j < self.users@.len() && (#[trigger] self.users@[j]).login@ == login@
                        implies self.users@[j].password_hash@ != sha3_256_of(
                    encode_utf8(password@),
                ) by {
                    assert(j == i);
                }
            }
            return Err(LoginError::Unauthorized);
        }
        match issue(self.users[idx].id, login, secret_key, now) {
            Ok(t) => Ok(AuthorizedUserDTO { id: self.users[idx].id, token: t }),
            Err(_) => Err(LoginError::Internal),
        }
    }
}

/// The registration endpoint's decision: status and body for a request,
/// updating the store exactly as [`CredentialStore::register`] does.
pub fn register_user(
    store: &mut CredentialStore,
    dto: RegisterDTO,
    secret_key: &str,
    now: u64,
) -> (r: (u16, String))
    requires
        old(store).wf(),
        old(store).next_id < i64::MAX,
        now + TOKEN_VALIDITY_SECS < MAX_EXPIRY,
    ensures
        final(store).wf(),
        has_login(old(store).users@, dto.login@) ==> r.0 == 400 && encode_utf8(r.1@)
            == err_body_bytes(msg_conflict()) && final(store).users@ == old(store).users@ && final(store).next_id == old(store).next_id,
        !has_login(old(store).users@, dto.login@) ==> r.0 == 201 && encode_utf8(r.1@)
            == authorized_body_bytes(
            old(store).next_id as int,
            token_bytes(
                encode_utf8(dto.login@),
                old(store).next_id as int,
                (now + TOKEN_VALIDITY_SECS) as nat,
                encode_utf8(secret_key@),
            ),
        ) && final(store).users@.len() == old(store).users@.len() + 1 && final(store).users@.drop_last() == old(store).users@ && final(store).users@.last().login@ == dto.login@
            && final(store).users@.last().password_hash@ == sha3_256_of(
            encode_utf8(dto.password@),
        ),
{
    let RegisterDTO { login, password } = dto;
    let ghost login_view = login@;
    match store.register(login, password, secret_key, now) {
        Ok(authorized) => {
            proof {
                lemma_token_bytes_plain(
                    encode_utf8(login_view),
                    old(store).next_id as int,
                    (now + TOKEN_VALIDITY_SECS) as nat,
                    encode_utf8(secret_key@),
                );
            }
            let body = authorized_body(&authorized);
            (201, body)
        },
        Err(RegisterError::Conflict) => (400, body_conflict()),
        Err(RegisterError::Internal) => (500, body_internal()),
    }
}

/// The login endpoint's decision: status and body for a request. The
/// failure reply is one fixed unauthorized shape whether the login was
/// unknown or the password wrong.
pub fn login_user(store: &CredentialStore, dto: LoginDTO, secret_key: &str, now: u64) -> (r: (
    u16,
    String,
))
    requires
        store.wf(),
        now + TOKEN_VALIDITY_SECS < MAX_EXPIRY,
    ensures
        has_credentials(store.users@, dto.login@, sha3_256_of(encode_utf8(dto.password@))) ==> (r.0
            == 200 && exists|i: int|
            0 <= i < store.users@.len() && (#[trigger] store.users@[i]).login@ == dto.login@
                && encode_utf8(r.1@) == authorized_body_bytes(
                store.users@[i].id as int,
                token_bytes(
                    encode_utf8(dto.login@),
                    store.users@[i].id as int,
                    (now + TOKEN_VALIDITY_SECS) as nat,
                    encode_utf8(secret_key@),
                ),
            )),
        !has_credentials(store.users@, dto.login@, sha3_256_of(encode_utf8(dto.password@))) ==> r.0
            == 401 && encode_utf8(r.1@) == err_body_bytes(msg_login_incorrect()),
{
    let LoginDTO { login, password } = dto;
    let ghost login_view = login@;
    match store.login(login.as_str(), password, secret_key, now) {
        Ok(authorized) => {
            proof {
                let i = choose|i: int|
                    0 <= i < store.users@.len() && (#[trigger] store.users@[i]).login@
                        == login_view && store.users@[i].password_hash@ == sha3_256_of(
                        encode_utf8(dto.password@),
                    ) && authorized.id == store.users@[i].id && encode_utf8(authorized.token@)
                        == token_bytes(
                        encode_utf8(login_view),
                        store.users@[i].id as int,
                        (now + TOKEN_VALIDITY_SECS) as nat,
                        encode_utf8(secret_key@),
                    ) && sig_is_b64u(
                        signing_input(
                            encode_utf8(login_view),
                            store.users@[i].id as int,
                            (now + TOKEN_VALIDITY_SECS) as nat,
                        ),
                        encode_utf8(secret_key@),
                    );
                lemma_token_bytes_plain(
                    encode_utf8(login_view),
                    store.users@[i].id as int,
                    (now + TOKEN_VALIDITY_SECS) as nat,
                    encode_utf8(secret_key@),
                );
            }
            let body = authorized_body(&authorized);
            (200, body)
        },
        Err(LoginError::Unauthorized) => (401, body_login_incorrect()),
        Err(LoginError::Internal) => (500, body_internal()),
    }
}

} // verus!
