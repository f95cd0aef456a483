//! Session tokens: long-lived, revocable, server-checked secrets, each owned
//! by one account.
//!
//! A token is valid exactly when it is not revoked and the clock has not
//! passed its expiry instant; the two axes are independent and both are
//! checked on every use.  Instants are milliseconds since the Unix epoch and
//! are always passed in by the caller, so the state machine itself is
//! deterministic and fully verified.

use rand::Rng;
use vstd::prelude::*;

use crate::errors::AuthenticationError;

verus! {

/// Fixed lifetime of a session token, in milliseconds.
pub const TOKEN_TTL_MS: u64 = 60 * 60 * 1000;

/// Length of a token's opaque secret, in characters.
pub const TOKEN_KEY_LEN: usize = 32;

/// Mathematical model of one session token record.
pub struct TokenModel {
    pub id: u128,
    pub key: Seq<char>,
    pub user_id: u128,
    pub expire_at: u64,
    pub is_revoked: bool,
}

/// A token may be used exactly when it is not revoked and not expired.
pub open spec fn token_active(t: TokenModel, now_ms: u64) -> bool {
    !t.is_revoked && now_ms <= t.expire_at
}

/// The same token with its (monotonic) revoked flag set.
pub open spec fn revoked_model(t: TokenModel) -> TokenModel {
    TokenModel { is_revoked: true, ..t }
}

/// A freshly issued secret: a fixed-length string of printable ASCII.
pub open spec fn valid_token_key(s: Seq<char>) -> bool {
    &&& s.len() == TOKEN_KEY_LEN
    &&& forall|i: int| 0 <= i < s.len() ==> 0x20 <= (#[trigger] s[i]) as u32 <= 0x7d
}

/// A token as minted at issuance time: owned by `user_id`, expiring one TTL
/// after `now_ms`, not revoked, with a well-formed secret.
pub open spec fn issued_token(t: TokenModel, user_id: u128, now_ms: u64) -> bool {
    &&& t.user_id == user_id
    &&& t.expire_at == now_ms + TOKEN_TTL_MS
    &&& !t.is_revoked
    &&& valid_token_key(t.key)
}

/// Index of the first token whose secret equals `key`, or -1 if none matches.
/// Lookups scan in insertion order, so the oldest matching token wins.
pub open spec fn key_index(ts: Seq<TokenModel>, key: Seq<char>) -> int
    decreases ts.len(),
{
    if ts.len() == 0 {
        -1
    } else if ts[0].key == key {
        0
    } else if key_index(ts.drop_first(), key) < 0 {
        -1
    } else {
        1 + key_index(ts.drop_first(), key)
    }
}

/// What `key_index` means: -1 when no token matches, otherwise the position
/// of the first match.
pub proof fn lemma_key_index(ts: Seq<TokenModel>, key: Seq<char>)
    ensures
        -1 <= key_index(ts, key) < ts.len(),
        key_index(ts, key) == -1 ==> forall|j: int| 0 <= j < ts.len() ==> (#[trigger] ts[j]).key
            != key,
        key_index(ts, key) >= 0 ==> ts[key_index(ts, key)].key == key,
        key_index(ts, key) >= 0 ==> forall|j: int| 0 <= j < key_index(ts, key) ==> (
        #[trigger] ts[j]).key != key,
    decreases ts.len(),
{
    if ts.len() > 0 && ts[0].key != key {
        lemma_key_index(ts.drop_first(), key);
        assert(forall|j: int| 1 <= j < ts.len() ==> (#[trigger] ts[j]) == ts.drop_first()[j - 1]);
    }
}

/// A position that matches with no earlier match is the first match.
pub proof fn lemma_key_index_unique(ts: Seq<TokenModel>, key: Seq<char>, i: int)
    requires
        0 <= i < ts.len(),
        ts[i].key == key,
        forall|j: int| 0 <= j < i ==> (#[trigger] ts[j]).key != key,
    ensures
        key_index(ts, key) == i,
{
    lemma_key_index(ts, key);
    let ki = key_index(ts, key);
    if ki == -1 {
        assert(ts[i].key != key);
    } else if ki < i {
        assert(ts[ki].key != key);
    } else if ki > i {
        assert(ts[i].key != key);
    }
}

/// Relies on `uuid::Uuid::now_v7` (and `as_u128`) for a fresh, time-ordered
/// identifier.  The value depends on the clock and on process-local state, so
/// nothing is promised of it.
#[verifier::external_body]
pub(crate) fn new_time_ordered_id() -> u128 {
    uuid::Uuid::now_v7().as_u128()
}

/// Relies on `rand::Rng::gen_range` over a thread-local generator for one
/// byte drawn from the printable ASCII range; only the range is promised.
#[verifier::external_body]
fn random_key_byte() -> (b: u8)
    ensures
        0x20 <= b <= 0x7d,
{
    rand::thread_rng().gen_range(0x20u8..0x7e)
}

/// Relies on `String::from_utf8`: decoding bytes below 0x80 is the identity
/// on them, and never fails.
#[verifier::external_body]
fn ascii_bytes_to_string(bytes: Vec<u8>) -> (s: String)
    requires
        forall|i: int| 0 <= i < bytes@.len() ==> bytes@[i] < 0x80,
    ensures
        s@.len() == bytes@.len(),
        forall|i: int| 0 <= i < bytes@.len() ==> (#[trigger] s@[i]) as u32 == bytes@[i] as u32,
{
    String::from_utf8(bytes).unwrap()
}

/// Draws a fresh opaque secret of `TOKEN_KEY_LEN` printable ASCII characters.
fn fresh_token_key() -> (k: String)
    ensures
        valid_token_key(k@),
{
    let mut bytes: Vec<u8> = Vec::new();
    let mut i: usize = 0;
    while i < TOKEN_KEY_LEN
        invariant
            i <= TOKEN_KEY_LEN,
            bytes@.len() == i,
            forall|j: int| 0 <= j < i ==> 0x20 <= #[trigger] bytes@[j] <= 0x7d,
        decreases TOKEN_KEY_LEN - i,
    {
        bytes.push(random_key_byte());
        i = i + 1;
    }
    ascii_bytes_to_string(bytes)
}

/// One session token owned by an account.
#[derive(Debug)]
pub struct Token {
    id: u128,
    key: String,
    user_id: u128,
    expire_at: u64,
    is_revoked: bool,
}

impl View for Token {
    type V = TokenModel;

    closed spec fn view(&self) -> TokenModel {
        TokenModel {
            id: self.id,
            key: self.key@,
            user_id: self.user_id,
            expire_at: self.expire_at,
            is_revoked: self.is_revoked,
        }
    }
}

impl Token {
    /// Mints a new active token for `user_id`, with a fresh secret and an
    /// expiry one TTL past `now_ms`.
    pub fn new(user_id: u128, now_ms: u64) -> (t: Token)
        requires
            now_ms + TOKEN_TTL_MS <= u64::MAX,
        ensures
            issued_token(t@, user_id, now_ms),
    {
        Token {
            id: new_time_ordered_id(),
            key: fresh_token_key(),
            user_id,
            expire_at: now_ms + TOKEN_TTL_MS,
            is_revoked: false,
        }
    }

    /// Rebuilds a token from its persisted record.
    pub fn from_dto(token_dto: &TokenDto) -> (t: Token)
        ensures
            t@ == token_dto@,
    {
        Token {
            id: token_dto.id,
            key: token_dto.key.clone(),
            user_id: token_dto.user_id,
            expire_at: token_dto.expire_at,
            is_revoked: token_dto.is_revoked,
        }
    }

    /// The persisted record of this token.
    pub fn to_dto(&self) -> (d: TokenDto)
        ensures
            d@ == self@,
    {
        TokenDto {
            id: self.id,
            key: self.key.clone(),
            user_id: self.user_id,
            expire_at: self.expire_at,
            is_revoked: self.is_revoked,
        }
    }

    /// Accepts the token exactly when it is neither revoked nor expired; both
    /// checks run on every use.
    pub fn validate(&self, now_ms: u64) -> (r: Result<(), AuthenticationError>)
        ensures
            r is Ok <==> token_active(self@, now_ms),
            r matches Err(e) ==> e@ == "invalid token"@,
    {
        if self.is_revoked || now_ms > self.expire_at {
            return Err(AuthenticationError::new("invalid token"));
        }
        Ok(())
    }

    /// Sets the revoked flag; the flag is monotonic and nothing ever clears
    /// it.
    pub fn revoke(&mut self)
        ensures
            final (self)@ == revoked_model(old(self)@),
    {
        self.is_revoked = true;
    }

    /// Whether this token's secret equals `key`, compared by exact value.
    pub fn matches(&self, key: &str) -> (r: bool)
        ensures
            r == (self@.key == key@),
    {
        let other: String = key.to_owned();
        self.key == other
    }
}

/// The persisted record of one session token.
#[derive(Debug)]
pub struct TokenDto {
    id: u128,
    key: String,
    user_id: u128,
    expire_at: u64,
    is_revoked: bool,
}

impl View for TokenDto {
    type V = TokenModel;

    closed spec fn view(&self) -> TokenModel {
        TokenModel {
            id: self.id,
            key: self.key@,
            user_id: self.user_id,
            expire_at: self.expire_at,
            is_revoked: self.is_revoked,
        }
    }
}

impl TokenDto {
    /// Assembles a record from its stored fields.
    pub fn new(id: u128, key: String, user_id: u128, expire_at: u64, is_revoked: bool) -> (d:
        TokenDto)
        ensures
            d@ == (TokenModel { id, key: key@, user_id, expire_at, is_revoked }),
    {
        TokenDto { id, key, user_id, expire_at, is_revoked }
    }

    pub fn id(&self) -> (r: u128)
        ensures
            r == self@.id,
    {
        self.id
    }

    pub fn key(&self) -> (r: &str)
        ensures
            r@ == self@.key,
    {
        self.key.as_str()
    }

    pub fn user_id(&self) -> (r: u128)
        ensures
            r == self@.user_id,
    {
        self.user_id
    }

    pub fn expire_at(&self) -> (r: u64)
        ensures
            r == self@.expire_at,
    {
        self.expire_at
    }

    pub fn is_revoked(&self) -> (r: bool)
        ensures
            r == self@.is_revoked,
    {
        self.is_revoked
    }

    /// Whether this record's secret equals `key`, compared by exact value.
    pub fn matches(&self, key: &str) -> (r: bool)
        ensures
            r == (self@.key == key@),
    {
        let other: String = key.to_owned();
        self.key == other
    }

    /// A copy of this record.
    pub fn duplicate(&self) -> (d: TokenDto)
        ensures
            d@ == self@,
    {
        TokenDto {
            id: self.id,
            key: self.key.clone(),
            user_id: self.user_id,
            expire_at: self.expire_at,
            is_revoked: self.is_revoked,
        }
    }
}

} // verus!
