//! The session service: orchestrates login, rotation and logout by composing
//! store lookups with aggregate state transitions.
//!
//! Every operation is a read-modify-write sequence: load the aggregate, run
//! one aggregate operation, persist the whole aggregate back.  The service
//! owns the store, so the sequence runs serialized; together with the store's
//! refusal to clear a persisted revoked flag, two rotations of one secret can
//! never both commit.

use vstd::prelude::*;

use crate::errors::{AuthenticationError, BusinessError};
use crate::repository::{
    account_index, lemma_account_index, owned_sessions, store_ok, update_conflict, username_index,
    StoreModel, UserRepository,
};
use crate::token::{
    issued_token, key_index, lemma_key_index, revoked_model, token_active, TokenModel,
    TOKEN_TTL_MS,
};
use crate::user::{bcrypt_matches, persisted_account, user_owns_tokens, UserDto, UserModel};

verus! {

/// Mathematical model of a login request.
pub struct LoginRequestModel {
    pub username: Seq<char>,
    pub password: Seq<char>,
}

/// A credential-bearing login request.
#[derive(Debug)]
pub struct LoginUserRequest {
    username: String,
    password: String,
}

impl View for LoginUserRequest {
    type V = LoginRequestModel;

    closed spec fn view(&self) -> LoginRequestModel {
        LoginRequestModel { username: self.username@, password: self.password@ }
    }
}

impl LoginUserRequest {
    pub fn new(username: String, password: String) -> (r: LoginUserRequest)
        ensures
            r@ == (LoginRequestModel { username: username@, password: password@ }),
    {
        LoginUserRequest { username, password }
    }

    pub fn username(&self) -> (r: &str)
        ensures
            r@ == self@.username,
    {
        self.username.as_str()
    }

    pub fn password(&self) -> (r: &str)
        ensures
            r@ == self@.password,
    {
        self.password.as_str()
    }
}

/// Every stored session of `owner` survives when the aggregate's tokens are
/// changed position by position with identities kept and revoked flags never
/// cleared — the shape every aggregate operation has.
proof fn lemma_sessions_carried(
    s0: StoreModel,
    owner: u128,
    stored: Seq<TokenModel>,
    newtokens: Seq<TokenModel>,
)
    requires
        stored == owned_sessions(s0.sessions, owner),
        stored.len() <= newtokens.len(),
        forall|k: int|
            0 <= k < stored.len() ==> (#[trigger] newtokens[k]).id == stored[k].id && (
            stored[k].is_revoked ==> newtokens[k].is_revoked),
    ensures
        forall|i: int|
            0 <= i < s0.sessions.len() ==> ((#[trigger] s0.sessions[i]).user_id == owner
                ==> crate::repository::session_carried(newtokens, s0.sessions[i])),
{
    assert forall|i: int|
        0 <= i < s0.sessions.len() && (#[trigger] s0.sessions[i]).user_id
            == owner implies crate::repository::session_carried(newtokens, s0.sessions[i]) by {
        crate::repository::lemma_filter_keeps(
            s0.sessions,
            |t: TokenModel| t.user_id == owner,
            i,
        );
        let k = choose|k: int| 0 <= k < stored.len() && stored[k] == s0.sessions[i];
        assert(newtokens[k].id == s0.sessions[i].id);
    }
}

/// Replacing a sequence element by its own value changes nothing.
proof fn lemma_update_same(accounts: Seq<UserModel>, ai: int, rec: UserModel)
    requires
        0 <= ai < accounts.len(),
        accounts[ai] == rec,
    ensures
        accounts.update(ai, rec) == accounts,
{
    assert(accounts.update(ai, rec) =~= accounts);
}

/// Orchestrates login, session rotation and logout against the account store.
#[derive(Debug)]
pub struct AuthService {
    user_repository: UserRepository,
}

impl View for AuthService {
    type V = StoreModel;

    closed spec fn view(&self) -> StoreModel {
        self.user_repository@
    }
}

impl AuthService {
    /// Takes ownership of the store; every operation of the service is a
    /// serialized read-modify-write against it.
    pub fn new(user_repository: UserRepository) -> (s: AuthService)
        ensures
            s@ == user_repository@,
    {
        AuthService { user_repository }
    }

    /// Hands the store back, so that another service can take it over.
    pub fn into_repository(self) -> (r: UserRepository)
        ensures
            r@ == self@,
    {
        self.user_repository
    }

    /// Login: looks the account up by username, verifies the password, and on
    /// success issues one fresh session token and persists the aggregate.  A
    /// missing username and a wrong password are deliberately the same error.
    pub fn login(&mut self, request: LoginUserRequest, now_ms: u64) -> (r: Result<
        UserDto,
        BusinessError,
    >)
        requires
            store_ok(old(self)@),
            now_ms + TOKEN_TTL_MS <= u64::MAX,
        ensures
            store_ok(final (self)@),
            ({
                let s0 = old(self)@;
                let ui = username_index(s0.accounts, request@.username);
                let account = s0.accounts[ui];
                let stored = owned_sessions(s0.sessions, account.id);
                &&& (r is Ok <==> ui >= 0 && bcrypt_matches(request@.password, account.password))
                &&& (r matches Ok(dto) ==> {
                    &&& dto@.id == account.id
                    &&& dto@.username == account.username
                    &&& dto@.password == account.password
                    &&& dto@.tokens.len() == stored.len() + 1
                    &&& dto@.tokens.drop_last() == stored
                    &&& issued_token(dto@.tokens.last(), account.id, now_ms)
                    &&& final (self)@.accounts == s0.accounts
                    &&& owned_sessions(final (self)@.sessions, account.id) == dto@.tokens
                    &&& (forall|id2: u128|
                        id2 != account.id ==> owned_sessions(final (self)@.sessions, id2)
                            == owned_sessions(s0.sessions, id2))
                })
                &&& (r matches Err(e) ==> final (self)@ == s0 && e@ == "invalid credentials"@)
            }),
    {
        let ghost s0 = self@;
        let mut user = match self.user_repository.find_by_username(request.username()) {
            None => {
                return Err(BusinessError::from(AuthenticationError::new("invalid credentials")));
            },
            Some(u) => u,
        };
        let ghost ui = username_index(s0.accounts, request@.username);
        let ghost account = s0.accounts[ui];
        let ghost stored = owned_sessions(s0.sessions, account.id);
        match user.login(request.password(), now_ms) {
            Err(e) => {
                return Err(BusinessError::from(e));
            },
            Ok(()) => {},
        }
        proof {
            assert(user@.tokens.drop_last() == stored);
            assert(user@.tokens.len() == stored.len() + 1);
            assert forall|k: int| 0 <= k < user@.tokens.len() implies (
            #[trigger] user@.tokens[k]).user_id == user@.id by {
                if k < stored.len() {
                    assert(user@.tokens[k] == user@.tokens.drop_last()[k]);
                    Seq::lemma_filter_pred(
                        s0.sessions,
                        |t: TokenModel| t.user_id == account.id,
                        k,
                    );
                } else {
                    assert(user@.tokens[k] == user@.tokens.last());
                }
            }
            assert(user_owns_tokens(user@));
            // The write cannot conflict: the account exists, the username is
            // unchanged and unique, and every stored session survives.
            crate::repository::lemma_username_index(s0.accounts, request@.username);
            assert(0 <= ui < s0.accounts.len() && s0.accounts[ui].id == account.id);
            assert(crate::repository::has_account_id(s0.accounts, account.id));
            lemma_account_index(s0.accounts, account.id);
            let ai = account_index(s0.accounts, account.id);
            assert(ai >= 0);
            if ai != ui {
                assert(s0.accounts[ai].id == s0.accounts[ui].id);
            }
            assert(ai == ui);
            assert forall|k: int| 0 <= k < stored.len() implies (#[trigger] user@.tokens[k]).id
                == stored[k].id && (stored[k].is_revoked ==> user@.tokens[k].is_revoked) by {
                assert(user@.tokens[k] == user@.tokens.drop_last()[k]);
            }
            lemma_sessions_carried(s0, account.id, stored, user@.tokens);
            assert(!update_conflict(s0, user@));
        }
        match self.user_repository.update(&user) {
            Err(e) => Err(BusinessError::from(e)),
            Ok(()) => {
                proof {
                    let ai = account_index(s0.accounts, account.id);
                    assert(persisted_account(user@) == account);
                    lemma_update_same(s0.accounts, ai, account);
                }
                Ok(user.to_dto())
            },
        }
    }

    /// Rotation: looks the account up by the presented refresh secret,
    /// validates and revokes the matching token, issues a fresh one, and
    /// persists the aggregate.  An unknown, revoked or expired secret is one
    /// and the same error, and mutates nothing.
    pub fn refresh(&mut self, refresh_token: &str, now_ms: u64) -> (r: Result<
        UserDto,
        BusinessError,
    >)
        requires
            store_ok(old(self)@),
            now_ms + TOKEN_TTL_MS <= u64::MAX,
        ensures
            store_ok(final (self)@),
            ({
                let s0 = old(self)@;
                let ki = key_index(s0.sessions, refresh_token@);
                let owner = s0.sessions[ki].user_id;
                let account = s0.accounts[account_index(s0.accounts, owner)];
                let stored = owned_sessions(s0.sessions, owner);
                let ti = key_index(stored, refresh_token@);
                &&& (r is Ok <==> ki >= 0 && ti >= 0 && token_active(stored[ti], now_ms))
                &&& (r matches Ok(dto) ==> {
                    &&& dto@.id == owner
                    &&& dto@.username == account.username
                    &&& dto@.password == account.password
                    &&& dto@.tokens.len() == stored.len() + 1
                    &&& dto@.tokens.drop_last() == stored.update(ti, revoked_model(stored[ti]))
                    &&& issued_token(dto@.tokens.last(), owner, now_ms)
                    &&& final (self)@.accounts == s0.accounts
                    &&& owned_sessions(final (self)@.sessions, owner) == dto@.tokens
                    &&& (forall|id2: u128|
                        id2 != owner ==> owned_sessions(final (self)@.sessions, id2)
                            == owned_sessions(s0.sessions, id2))
                })
                &&& (r matches Err(e) ==> final (self)@ == s0 && e@ == "invalid token"@)
            }),
    {
        let ghost s0 = self@;
        let mut user = match self.user_repository.find_by_token(refresh_token) {
            None => {
                return Err(BusinessError::from(AuthenticationError::new("invalid token")));
            },
            Some(u) => u,
        };
        let ghost ki = key_index(s0.sessions, refresh_token@);
        let ghost owner = s0.sessions[ki].user_id;
        let ghost ai = account_index(s0.accounts, owner);
        let ghost account = s0.accounts[ai];
        let ghost stored = owned_sessions(s0.sessions, owner);
        proof {
            lemma_key_index(s0.sessions, refresh_token@);
            lemma_account_index(s0.accounts, owner);
            crate::repository::lemma_filter_keeps(
                s0.sessions,
                |t: TokenModel| t.user_id == owner,
                ki,
            );
            lemma_key_index(stored, refresh_token@);
            if key_index(stored, refresh_token@) == -1 {
                let k = choose|k: int| 0 <= k < stored.len() && stored[k] == s0.sessions[ki];
                assert(stored[k].key != refresh_token@);
            }
        }
        match user.refresh(refresh_token, now_ms) {
            Err(e) => {
                return Err(BusinessError::from(e));
            },
            Ok(()) => {},
        }
        let ghost ti = key_index(stored, refresh_token@);
        proof {
            lemma_key_index(stored, refresh_token@);
            assert(user@.tokens.drop_last() == stored.update(ti, revoked_model(stored[ti])));
            assert forall|k: int| 0 <= k < user@.tokens.len() implies (
            #[trigger] user@.tokens[k]).user_id == user@.id by {
                if k < stored.len() {
                    assert(user@.tokens[k] == user@.tokens.drop_last()[k]);
                    Seq::lemma_filter_pred(
                        s0.sessions,
                        |t: TokenModel| t.user_id == owner,
                        k,
                    );
                } else {
                    assert(user@.tokens[k] == user@.tokens.last());
                }
            }
            assert(user_owns_tokens(user@));
            assert forall|k: int| 0 <= k < stored.len() implies (#[trigger] user@.tokens[k]).id
                == stored[k].id && (stored[k].is_revoked ==> user@.tokens[k].is_revoked) by {
                assert(user@.tokens[k] == user@.tokens.drop_last()[k]);
            }
            lemma_sessions_carried(s0, owner, stored, user@.tokens);
            lemma_account_index(s0.accounts, owner);
            assert(!update_conflict(s0, user@));
        }
        match self.user_repository.update(&user) {
            Err(e) => Err(BusinessError::from(e)),
            Ok(()) => {
                proof {
                    assert(persisted_account(user@) == account);
                    lemma_update_same(s0.accounts, ai, account);
                }
                Ok(user.to_dto())
            },
        }
    }

    /// Logout: looks the account up by the presented refresh secret and
    /// revokes the matching token unconditionally — revoking an already
    /// revoked or expired session still succeeds.  Only an unknown secret is
    /// an error, and then nothing is mutated.
    pub fn logout(&mut self, refresh_token: &str) -> (r: Result<(), BusinessError>)
        requires
            store_ok(old(self)@),
        ensures
            store_ok(final (self)@),
            ({
                let s0 = old(self)@;
                let ki = key_index(s0.sessions, refresh_token@);
                let owner = s0.sessions[ki].user_id;
                let stored = owned_sessions(s0.sessions, owner);
                let ti = key_index(stored, refresh_token@);
                &&& (r is Ok <==> ki >= 0)
                &&& (r is Ok ==> {
                    &&& ti >= 0
                    &&& final (self)@.accounts == s0.accounts
                    &&& owned_sessions(final (self)@.sessions, owner) == stored.update(
                        ti,
                        revoked_model(stored[ti]),
                    )
                    &&& (forall|id2: u128|
                        id2 != owner ==> owned_sessions(final (self)@.sessions, id2)
                            == owned_sessions(s0.sessions, id2))
                })
                &&& (r matches Err(e) ==> final (self)@ == s0 && e@ == "invalid token"@)
            }),
    {
        let ghost s0 = self@;
        let mut user = match self.user_repository.find_by_token(refresh_token) {
            None => {
                return Err(BusinessError::from(AuthenticationError::new("invalid token")));
            },
            Some(u) => u,
        };
        let ghost ki = key_index(s0.sessions, refresh_token@);
        let ghost owner = s0.sessions[ki].user_id;
        let ghost ai = account_index(s0.accounts, owner);
        let ghost account = s0.accounts[ai];
        let ghost stored = owned_sessions(s0.sessions, owner);
        proof {
            lemma_key_index(s0.sessions, refresh_token@);
            lemma_account_index(s0.accounts, owner);
            crate::repository::lemma_filter_keeps(
                s0.sessions,
                |t: TokenModel| t.user_id == owner,
                ki,
            );
            lemma_key_index(stored, refresh_token@);
            if key_index(stored, refresh_token@) == -1 {
                let k = choose|k: int| 0 <= k < stored.len() && stored[k] == s0.sessions[ki];
                assert(stored[k].key != refresh_token@);
            }
        }
        let ghost ti = key_index(stored, refresh_token@);
        match user.logout(refresh_token) {
            Err(e) => {
                return Err(BusinessError::from(e));
            },
            Ok(()) => {},
        }
        proof {
            lemma_key_index(stored, refresh_token@);
            assert(user@.tokens == stored.update(ti, revoked_model(stored[ti])));
            assert forall|k: int| 0 <= k < user@.tokens.len() implies (
            #[trigger] user@.tokens[k]).user_id == user@.id by {
                Seq::lemma_filter_pred(
                    s0.sessions,
                    |t: TokenModel| t.user_id == owner,
                    k,
                );
                assert(stored[k].user_id == owner);
            }
            assert(user_owns_tokens(user@));
            assert forall|k: int| 0 <= k < stored.len() implies (#[trigger] user@.tokens[k]).id
                == stored[k].id && (stored[k].is_revoked ==> user@.tokens[k].is_revoked) by {}
            lemma_sessions_carried(s0, owner, stored, user@.tokens);
            lemma_account_index(s0.accounts, owner);
            assert(!update_conflict(s0, user@));
        }
        match self.user_repository.update(&user) {
            Err(e) => Err(BusinessError::from(e)),
            Ok(()) => {
                proof {
                    assert(persisted_account(user@) == account);
                    lemma_update_same(s0.accounts, ai, account);
                }
                Ok(())
            },
        }
    }
}

} // verus!
