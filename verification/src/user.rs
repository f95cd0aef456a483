//! The account aggregate: an account entity owning its session tokens.
//!
//! The aggregate exposes the only operations that create, rotate or revoke
//! sessions.  All of them are synchronous and side-effect-free except on the
//! aggregate's own fields; persistence happens outside, in the repository.
//! Password hashing and verification are done by the bcrypt crate behind
//! trusted wrappers; what they compute is named by `bcrypt_matches`.

use vstd::prelude::*;

use crate::errors::AuthenticationError;
use crate::token::{
    issued_token, key_index, lemma_key_index, revoked_model, token_active, Token, TokenDto,
    TokenModel, TOKEN_TTL_MS,
};

verus! {

/// Mathematical model of one account aggregate.
pub struct UserModel {
    pub id: u128,
    pub username: Seq<char>,
    pub password: Seq<char>,
    pub tokens: Seq<TokenModel>,
}

/// The views of a sequence of tokens.
pub open spec fn token_views(ts: Seq<Token>) -> Seq<TokenModel> {
    ts.map_values(|t: Token| t@)
}

/// The views of a sequence of token records.
pub open spec fn token_dto_views(ts: Seq<TokenDto>) -> Seq<TokenModel> {
    ts.map_values(|t: TokenDto| t@)
}

/// Every token of the aggregate refers back to its owning account.
pub open spec fn user_owns_tokens(u: UserModel) -> bool {
    forall|i: int| 0 <= i < u.tokens.len() ==> (#[trigger] u.tokens[i]).user_id == u.id
}

/// The account record that persisting an aggregate writes: identity, unique
/// username and credential hash, without the session records.
pub open spec fn persisted_account(u: UserModel) -> UserModel {
    UserModel { tokens: Seq::empty(), ..u }
}

/// The aggregate that loading composes out of an account record and the
/// session records fetched for it.  Only the repository may compose one.
pub open spec fn loaded_aggregate(account: UserModel, sessions: Seq<TokenModel>) -> UserModel {
    UserModel { tokens: sessions, ..account }
}

/// Round trip: persisting an aggregate as its account record plus its session
/// records and loading it back yields an aggregate with the same identity,
/// username, credential hash and tokens.
pub proof fn lemma_persist_round_trip(u: UserModel)
    ensures
        loaded_aggregate(persisted_account(u), u.tokens) == u,
{
}

/// Rotation is single-use.  A successful rotation revokes the token that
/// first matched the presented secret, updates it in place and appends one
/// fresh token — and in the resulting token collection the consumed token is
/// still the first match for that secret, and it is revoked.  Since `refresh`
/// succeeds only when the first match is active, presenting the same secret a
/// second time always fails and mutates nothing, whatever the fresh token's
/// secret turned out to be and whatever the clock says.
pub proof fn lemma_rotation_single_use(ts: Seq<TokenModel>, key: Seq<char>, fresh: TokenModel)
    requires
        0 <= key_index(ts, key),
    ensures
        ({
            let i = key_index(ts, key);
            let after = ts.update(i, revoked_model(ts[i])).push(fresh);
            &&& key_index(after, key) == i
            &&& after[i].is_revoked
            &&& forall|now_ms: u64| !token_active(after[key_index(after, key)], now_ms)
        }),
{
    let i = key_index(ts, key);
    lemma_key_index(ts, key);
    let after = ts.update(i, revoked_model(ts[i])).push(fresh);
    assert(after[i].key == key);
    assert(forall|j: int| 0 <= j < i ==> (#[trigger] after[j]).key == ts[j].key);
    crate::token::lemma_key_index_unique(after, key, i);
}

/// Ending a session is idempotent.  Revoking the first token that matches the
/// presented secret leaves it the first match, revoked; revoking it again
/// changes the collection not at all — so by `logout`'s contract a second
/// call with the same secret still succeeds and does not resurrect anything.
pub proof fn lemma_end_session_idempotent(ts: Seq<TokenModel>, key: Seq<char>)
    requires
        0 <= key_index(ts, key),
    ensures
        ({
            let i = key_index(ts, key);
            let after = ts.update(i, revoked_model(ts[i]));
            &&& key_index(after, key) == i
            &&& after[i].is_revoked
            &&& after.update(i, revoked_model(after[i])) == after
        }),
{
    let i = key_index(ts, key);
    lemma_key_index(ts, key);
    let after = ts.update(i, revoked_model(ts[i]));
    assert(after[i].key == key);
    assert(forall|j: int| 0 <= j < i ==> (#[trigger] after[j]).key == ts[j].key);
    crate::token::lemma_key_index_unique(after, key, i);
    assert(revoked_model(after[i]) == after[i]);
    assert(after.update(i, revoked_model(after[i])) =~= after);
}

/// Names what `bcrypt::verify` computes of a password and a stored hash: an
/// exact-match check that fails closed on a malformed hash.  It depends on
/// its two arguments alone.
pub uninterp spec fn bcrypt_matches(password: Seq<char>, hashed: Seq<char>) -> bool;

/// Relies on `bcrypt::hash` with the fixed work factor of the library: the
/// salted hash it returns verifies against exactly the password given, in the
/// sense of `bcrypt_matches`.  It aborts only if the operating system's
/// randomness is unavailable for the salt.
#[verifier::external_body]
fn hash_password(password: &str) -> (h: String)
    ensures
        bcrypt_matches(password@, h@),
{
    bcrypt::hash(password, 12).unwrap()
}

/// Relies on `bcrypt::verify`, a function of the password and the stored hash
/// alone; a malformed stored hash fails closed as a non-match rather than
/// panicking outward.
#[verifier::external_body]
fn verify_password(password: &str, hashed: &str) -> (r: bool)
    ensures
        r == bcrypt_matches(password@, hashed@),
{
    bcrypt::verify(password, hashed).unwrap_or(false)
}

/// An account owning a collection of session tokens.
#[derive(Debug)]
pub struct User {
    id: u128,
    username: String,
    password: String,
    tokens: Vec<Token>,
}

impl View for User {
    type V = UserModel;

    closed spec fn view(&self) -> UserModel {
        UserModel {
            id: self.id,
            username: self.username@,
            password: self.password@,
            tokens: token_views(self.tokens@),
        }
    }
}

impl User {
    /// Creates a fresh account: a new time-ordered identity, the bcrypt hash
    /// of the password, and no sessions yet.  The plaintext password is never
    /// stored.
    pub fn new(username: String, password: String) -> (u: User)
        ensures
            u@.username == username@,
            bcrypt_matches(password@, u@.password),
            u@.tokens.len() == 0,
    {
        User {
            id: crate::token::new_time_ordered_id(),
            username,
            password: hash_password(password.as_str()),
            tokens: Vec::new(),
        }
    }

    /// Recomposes an aggregate from its persisted account record and the
    /// session records fetched for it; the record's own token list plays no
    /// part.
    pub fn from_dto(user_dto: &UserDto, list_of_token_dto: &Vec<TokenDto>) -> (u: User)
        ensures
            u@ == loaded_aggregate(persisted_account(user_dto@), token_dto_views(
                list_of_token_dto@,
            )),
    {
        let mut tokens: Vec<Token> = Vec::new();
        let mut i: usize = 0;
        while i < list_of_token_dto.len()
            invariant
                i <= list_of_token_dto@.len(),
                tokens@.len() == i,
                forall|j: int| 0 <= j < i ==> (#[trigger] tokens@[j])@ == list_of_token_dto@[j]@,
            decreases list_of_token_dto@.len() - i,
        {
            tokens.push(Token::from_dto(&list_of_token_dto[i]));
            i = i + 1;
        }
        let u = User {
            id: user_dto.id,
            username: user_dto.username.clone(),
            password: user_dto.password.clone(),
            tokens,
        };
        proof {
            assert(u@.tokens =~= token_dto_views(list_of_token_dto@));
        }
        u
    }

    /// The persisted form of this aggregate: its account record together with
    /// the records of every one of its tokens.
    pub fn to_dto(&self) -> (d: UserDto)
        ensures
            d@ == self@,
    {
        let mut tokens: Vec<TokenDto> = Vec::new();
        let mut i: usize = 0;
        while i < self.tokens.len()
            invariant
                i <= self.tokens@.len(),
                tokens@.len() == i,
                forall|j: int| 0 <= j < i ==> (#[trigger] tokens@[j])@ == self.tokens@[j]@,
            decreases self.tokens@.len() - i,
        {
            tokens.push(self.tokens[i].to_dto());
            i = i + 1;
        }
        let d = UserDto {
            id: self.id,
            username: self.username.clone(),
            password: self.password.clone(),
            tokens,
        };
        proof {
            assert(d@.tokens =~= self@.tokens);
        }
        d
    }

    /// Verifies the password against the stored hash.  On a match, appends
    /// exactly one newly minted active session token and touches nothing
    /// else; on a mismatch, mutates nothing and reports invalid credentials.
    pub fn login(&mut self, password: &str, now_ms: u64) -> (r: Result<(), AuthenticationError>)
        requires
            now_ms + TOKEN_TTL_MS <= u64::MAX,
        ensures
            r is Ok <==> bcrypt_matches(password@, old(self)@.password),
            r is Ok ==> final (self)@.tokens.len() == old(self)@.tokens.len() + 1 && final (
            self)@.tokens.drop_last() == old(self)@.tokens && issued_token(
                final (self)@.tokens.last(),
                old(self)@.id,
                now_ms,
            ),
            final (self)@.id == old(self)@.id,
            final (self)@.username == old(self)@.username,
            final (self)@.password == old(self)@.password,
            r matches Err(e) ==> *final (self) == *old(self) && e@ == "invalid credentials"@,
    {
        if verify_password(password, self.password.as_str()) {
            let refresh_token = Token::new(self.id, now_ms);
            self.tokens.push(refresh_token);
            proof {
                assert(self@.tokens.drop_last() =~= old(self)@.tokens);
            }
            return Ok(());
        }
        Err(AuthenticationError::new("invalid credentials"))
    }

    /// Exchanges the session token whose secret first matches `token_key` for
    /// a new one.  The old token must be active; it is then revoked and a
    /// fresh active token is appended, so presenting the same secret twice
    /// always fails the second time.  On any failure nothing is mutated.
    pub fn refresh(&mut self, token_key: &str, now_ms: u64) -> (r: Result<
        (),
        AuthenticationError,
    >)
        requires
            now_ms + TOKEN_TTL_MS <= u64::MAX,
        ensures
            ({
                let ts = old(self)@.tokens;
                let i = key_index(ts, token_key@);
                &&& (r is Ok <==> i >= 0 && token_active(ts[i], now_ms))
                &&& (r is Ok ==> final (self)@.tokens.len() == ts.len() + 1 && final (
                self)@.tokens.drop_last() == ts.update(i, revoked_model(ts[i])) && issued_token(
                    final (self)@.tokens.last(),
                    old(self)@.id,
                    now_ms,
                ))
            }),
            final (self)@.id == old(self)@.id,
            final (self)@.username == old(self)@.username,
            final (self)@.password == old(self)@.password,
            r matches Err(e) ==> *final (self) == *old(self) && e@ == "invalid token"@,
    {
        proof {
            lemma_key_index(old(self)@.tokens, token_key@);
        }
        match Self::token_position(&self.tokens, token_key) {
            Some(i) => {
                match self.tokens[i].validate(now_ms) {
                    Ok(()) => {
                        self.tokens[i].revoke();
                        let new_token = Token::new(self.id, now_ms);
                        self.tokens.push(new_token);
                        proof {
                            assert(self@.tokens.drop_last() =~= old(self)@.tokens.update(
                                i as int,
                                revoked_model(old(self)@.tokens[i as int]),
                            ));
                        }
                        Ok(())
                    },
                    Err(e) => Err(e),
                }
            },
            None => Err(AuthenticationError::new("invalid token")),
        }
    }

    /// Revokes the session token whose secret first matches `token_key`,
    /// unconditionally: revoking an already revoked or expired token still
    /// succeeds, since the intent — this session must not be usable — is
    /// already satisfied.  Only an unknown secret is an error.
    pub fn logout(&mut self, token_key: &str) -> (r: Result<(), AuthenticationError>)
        ensures
            ({
                let ts = old(self)@.tokens;
                let i = key_index(ts, token_key@);
                &&& (r is Ok <==> i >= 0)
                &&& (r is Ok ==> final (self)@.tokens == ts.update(i, revoked_model(ts[i])))
            }),
            final (self)@.id == old(self)@.id,
            final (self)@.username == old(self)@.username,
            final (self)@.password == old(self)@.password,
            r matches Err(e) ==> *final (self) == *old(self) && e@ == "invalid token"@,
    {
        proof {
            lemma_key_index(old(self)@.tokens, token_key@);
        }
        match Self::token_position(&self.tokens, token_key) {
            Some(i) => {
                self.tokens[i].revoke();
                proof {
                    assert(self@.tokens =~= old(self)@.tokens.update(
                        i as int,
                        revoked_model(old(self)@.tokens[i as int]),
                    ));
                }
                Ok(())
            },
            None => Err(AuthenticationError::new("invalid token")),
        }
    }

    /// Position of the first token whose secret equals `key`, scanning in
    /// insertion order.
    fn token_position(tokens: &Vec<Token>, key: &str) -> (r: Option<usize>)
        ensures
            match r {
                Some(i) => key_index(token_views(tokens@), key@) == i && i < tokens@.len(),
                None => key_index(token_views(tokens@), key@) == -1,
            },
    {
        proof {
            lemma_key_index(token_views(tokens@), key@);
        }
        let mut i: usize = 0;
        while i < tokens.len()
            invariant
                i <= tokens@.len(),
                forall|j: int| 0 <= j < i ==> token_views(tokens@)[j].key != key@,
                -1 <= key_index(token_views(tokens@), key@) < tokens@.len(),
                key_index(token_views(tokens@), key@) >= 0 ==> token_views(tokens@)[key_index(
                    token_views(tokens@),
                    key@,
                )].key == key@,
            decreases tokens@.len() - i,
        {
            if tokens[i].matches(key) {
                proof {
                    let ts = token_views(tokens@);
                    assert(ts[i as int] == tokens@[i as int]@);
                    assert(ts[i as int].key == key@);
                    lemma_key_index(ts, key@);
                    let ki = key_index(ts, key@);
                    assert(ki != -1);
                    if ki < i {
                        assert(ts[ki].key != key@);
                    }
                    if ki > i {
                        assert(ts[i as int].key != key@);
                    }
                }
                return Some(i);
            }
            i = i + 1;
        }
        None
    }
}

/// The persisted record of one account, carrying the records of its tokens
/// when it travels as a whole aggregate.
#[derive(Debug)]
pub struct UserDto {
    id: u128,
    username: String,
    password: String,
    tokens: Vec<TokenDto>,
}

impl View for UserDto {
    type V = UserModel;

    closed spec fn view(&self) -> UserModel {
        UserModel {
            id: self.id,
            username: self.username@,
            password: self.password@,
            tokens: token_dto_views(self.tokens@),
        }
    }
}

impl UserDto {
    /// Assembles a record from its stored fields.
    pub fn new(id: u128, username: String, password: String, tokens: Vec<TokenDto>) -> (d: UserDto)
        ensures
            d@ == (UserModel {
                id,
                username: username@,
                password: password@,
                tokens: token_dto_views(tokens@),
            }),
    {
        UserDto { id, username, password, tokens }
    }

    pub fn id(&self) -> (r: u128)
        ensures
            r == self@.id,
    {
        self.id
    }

    pub fn username(&self) -> (r: &str)
        ensures
            r@ == self@.username,
    {
        self.username.as_str()
    }

    pub fn password(&self) -> (r: &str)
        ensures
            r@ == self@.password,
    {
        self.password.as_str()
    }

    pub fn tokens(&self) -> (r: &Vec<TokenDto>)
        ensures
            token_dto_views(r@) == self@.tokens,
    {
        &self.tokens
    }

    /// Whether this record's username equals `name`, compared by exact value.
    pub fn has_username(&self, name: &str) -> (r: bool)
        ensures
            r == (self@.username == name@),
    {
        let other: String = name.to_owned();
        self.username == other
    }

    /// The most recently issued token, if any; tokens are kept in insertion
    /// order, so the last one is the newest.
    pub fn latest_token(&self) -> (r: Option<&TokenDto>)
        ensures
            match r {
                Some(t) => self@.tokens.len() > 0 && t@ == self@.tokens.last(),
                None => self@.tokens.len() == 0,
            },
    {
        if self.tokens.len() == 0 {
            None
        } else {
            Some(&self.tokens[self.tokens.len() - 1])
        }
    }
}

} // verus!
