//! Access credentials: short-lived, self-contained, signed claim sets derived
//! from an authenticated account ("access tokens").
//!
//! A credential is never persisted; its validity is decided by signature
//! verification and an expiry comparison alone — no store lookup, no
//! revocation check.  Signing and signature checking are done by the
//! jsonwebtoken crate behind trusted wrappers; what they compute is named by
//! `jwt_of` and `jwt_claims`.  Issuer, lifetime and signing secret are
//! explicit configuration, so the component is testable with arbitrary clocks
//! and keys.

use vstd::prelude::*;

use crate::errors::AuthenticationError;

verus! {

/// Mathematical model of the credential configuration.
pub struct JwtConfigModel {
    pub issuer: Seq<char>,
    pub ttl_ms: u64,
    pub secret: Seq<u8>,
}

/// Configuration of the access-credential component.
pub struct JwtConfig {
    issuer: String,
    ttl_ms: u64,
    secret: Vec<u8>,
}

impl View for JwtConfig {
    type V = JwtConfigModel;

    closed spec fn view(&self) -> JwtConfigModel {
        JwtConfigModel { issuer: self.issuer@, ttl_ms: self.ttl_ms, secret: self.secret@ }
    }
}

impl JwtConfig {
    pub fn new(issuer: String, ttl_ms: u64, secret: Vec<u8>) -> (c: JwtConfig)
        ensures
            c@ == (JwtConfigModel { issuer: issuer@, ttl_ms, secret: secret@ }),
    {
        JwtConfig { issuer, ttl_ms, secret }
    }

    pub fn issuer(&self) -> (r: &str)
        ensures
            r@ == self@.issuer,
    {
        self.issuer.as_str()
    }

    pub fn ttl_ms(&self) -> (r: u64)
        ensures
            r == self@.ttl_ms,
    {
        self.ttl_ms
    }

    pub fn secret(&self) -> (r: &[u8])
        ensures
            r@ == self@.secret,
    {
        self.secret.as_slice()
    }
}

/// Names the token string that `jsonwebtoken::encode` signs over these
/// claims with this secret; HMAC signing is a function of its inputs alone.
pub uninterp spec fn jwt_of(
    iss: Seq<char>,
    iat: u64,
    exp: u64,
    sub: Seq<char>,
    secret: Seq<u8>,
) -> Seq<char>;

/// Names the claim quadruple (issuer, issued-at, expiry, subject) that
/// `jsonwebtoken::decode` extracts from a token under this secret when the
/// signature and the claim shape check out; None when either is bad.  With
/// the validator's own expiry check turned off nothing it does reads the
/// clock, so the outcome depends on the token and the secret alone.
pub uninterp spec fn jwt_claims(token: Seq<char>, secret: Seq<u8>) -> Option<
    (Seq<char>, u64, u64, Seq<char>),
>;

/// Relies on `jsonwebtoken::encode` with an HMAC-SHA256 key: it signs exactly
/// the claims given, and `jsonwebtoken::decode` under the same secret yields
/// them back.  With an HMAC key and plain string claims the call cannot fail.
#[verifier::external_body]
fn jwt_encode(iss: &str, iat: u64, exp: u64, sub: &str, secret: &[u8]) -> (t: String)
    ensures
        t@ == jwt_of(iss@, iat, exp, sub@, secret@),
        jwt_claims(t@, secret@) == Some((iss@, iat, exp, sub@)),
{
    let mut claims = serde_json::Map::new();
    claims.insert("iss".to_string(), serde_json::Value::from(iss));
    claims.insert("iat".to_string(), serde_json::Value::from(iat));
    claims.insert("exp".to_string(), serde_json::Value::from(exp));
    claims.insert("sub".to_string(), serde_json::Value::from(sub));
    jsonwebtoken::encode(
        &jsonwebtoken::Header::default(),
        &serde_json::Value::Object(claims),
        &jsonwebtoken::EncodingKey::from_secret(secret),
    ).unwrap()
}

/// Relies on `jsonwebtoken::decode` with HMAC-SHA256 signature validation
/// and the validator's own expiry check turned off, so that it accepts
/// exactly the tokens whose signature and claim shape check out and yields
/// the claims named by `jwt_claims`.  Expiry is the caller's comparison,
/// against the caller's own clock.
#[verifier::external_body]
fn jwt_decode(token: &str, secret: &[u8]) -> (r: Option<(String, u64, u64, String)>)
    ensures
        r is Some <==> jwt_claims(token@, secret@) is Some,
        r matches Some(c) ==> jwt_claims(token@, secret@) == Some((c.0@, c.1, c.2, c.3@)),
{
    let mut validation = jsonwebtoken::Validation::new(jsonwebtoken::Algorithm::HS256);
    validation.validate_exp = false;
    validation.required_spec_claims = std::collections::HashSet::new();
    let key = jsonwebtoken::DecodingKey::from_secret(secret);
    let c = jsonwebtoken::decode::<serde_json::Value>(token, &key, &validation).ok()?.claims;
    Some((
        c.get("iss")?.as_str()?.to_string(),
        c.get("iat")?.as_u64()?,
        c.get("exp")?.as_u64()?,
        c.get("sub")?.as_str()?.to_string(),
    ))
}

/// Mathematical model of a claim set.
pub struct ClaimsModel {
    pub iss: Seq<char>,
    pub iat: u64,
    pub exp: u64,
    pub sub: Seq<char>,
}

/// The claim set of an access credential: issuer, issued-at, expiry and
/// subject username, in milliseconds since the Unix epoch.
#[derive(Debug)]
pub struct Claims {
    iss: String,
    iat: u64,
    exp: u64,
    sub: String,
}

impl View for Claims {
    type V = ClaimsModel;

    closed spec fn view(&self) -> ClaimsModel {
        ClaimsModel { iss: self.iss@, iat: self.iat, exp: self.exp, sub: self.sub@ }
    }
}

impl Claims {
    /// A claim set freshly issued at `now_ms`: issued-at is now, expiry one
    /// lifetime later, subject the (already authenticated) username.
    pub fn new(sub: &str, issuer: &str, now_ms: u64, ttl_ms: u64) -> (c: Claims)
        requires
            now_ms + ttl_ms <= u64::MAX,
        ensures
            c@ == (ClaimsModel {
                iss: issuer@,
                iat: now_ms,
                exp: (now_ms + ttl_ms) as u64,
                sub: sub@,
            }),
    {
        Claims { iss: issuer.to_owned(), iat: now_ms, exp: now_ms + ttl_ms, sub: sub.to_owned() }
    }

    /// Whether the claim set is still fresh at `now_ms`: the one time check
    /// an access credential gets.
    pub fn is_fresh(&self, now_ms: u64) -> (r: bool)
        ensures
            r == (now_ms <= self@.exp),
    {
        now_ms <= self.exp
    }

    pub fn subject(&self) -> (r: &str)
        ensures
            r@ == self@.sub,
    {
        self.sub.as_str()
    }

    pub fn expires_at(&self) -> (r: u64)
        ensures
            r == self@.exp,
    {
        self.exp
    }
}

/// A signed access credential: the bearer string together with the claims it
/// carries.
pub struct JsonWebTokenModel {
    pub key: Seq<char>,
    pub claims: ClaimsModel,
}

/// A signed access credential and its claim set.
#[derive(Debug)]
pub struct JsonWebToken {
    key: String,
    claims: Claims,
}

impl View for JsonWebToken {
    type V = JsonWebTokenModel;

    closed spec fn view(&self) -> JsonWebTokenModel {
        JsonWebTokenModel { key: self.key@, claims: self.claims@ }
    }
}

impl JsonWebToken {
    /// Mints a credential for an already authenticated username: a claim set
    /// issued at `now_ms` under the configured issuer and lifetime, signed
    /// with the configured secret.
    pub fn new(username: &str, config: &JwtConfig, now_ms: u64) -> (t: JsonWebToken)
        requires
            now_ms + config@.ttl_ms <= u64::MAX,
        ensures
            t@.claims == (ClaimsModel {
                iss: config@.issuer,
                iat: now_ms,
                exp: (now_ms + config@.ttl_ms) as u64,
                sub: username@,
            }),
            t@.key == jwt_of(
                config@.issuer,
                now_ms,
                (now_ms + config@.ttl_ms) as u64,
                username@,
                config@.secret,
            ),
            jwt_claims(t@.key, config@.secret) == Some(
                (config@.issuer, now_ms, (now_ms + config@.ttl_ms) as u64, username@),
            ),
    {
        let claims = Claims::new(username, config.issuer(), now_ms, config.ttl_ms());
        JsonWebToken::encode(claims, config)
    }

    /// The bearer string of this credential.
    pub fn key(&self) -> (r: &str)
        ensures
            r@ == self@.key,
    {
        self.key.as_str()
    }

    /// The subject the credential was issued for.
    pub fn username(&self) -> (r: &str)
        ensures
            r@ == self@.claims.sub,
    {
        self.claims.sub.as_str()
    }

    /// Signs a claim set into a bearer string.
    fn encode(claims: Claims, config: &JwtConfig) -> (t: JsonWebToken)
        ensures
            t@.claims == claims@,
            t@.key == jwt_of(
                claims@.iss,
                claims@.iat,
                claims@.exp,
                claims@.sub,
                config@.secret,
            ),
            jwt_claims(t@.key, config@.secret) == Some(
                (claims@.iss, claims@.iat, claims@.exp, claims@.sub),
            ),
    {
        let key = jwt_encode(
            claims.iss.as_str(),
            claims.iat,
            claims.exp,
            claims.sub.as_str(),
            config.secret(),
        );
        JsonWebToken { key, claims }
    }

    /// Verifies a presented bearer string: signature integrity and freshness
    /// at `now_ms`, nothing else — deliberately no store lookup and no
    /// revocation check.  It accepts exactly the well-signed, well-formed,
    /// unexpired credentials; a bad signature and an expired credential are
    /// the same outward error.
    pub fn decode(key: &str, config: &JwtConfig, now_ms: u64) -> (r: Result<
        JsonWebToken,
        AuthenticationError,
    >)
        ensures
            ({
                let jc = jwt_claims(key@, config@.secret);
                &&& (r is Ok <==> (jc matches Some(c) && now_ms <= c.2))
                &&& (r matches Ok(t) ==> jc == Some(
                    (t@.claims.iss, t@.claims.iat, t@.claims.exp, t@.claims.sub),
                ) && t@.key == key@)
                &&& (r matches Err(e) ==> e@ == "invalid access credential"@)
            }),
    {
        match jwt_decode(key, config.secret()) {
            None => Err(AuthenticationError::new("invalid access credential")),
            Some((iss, iat, exp, sub)) => {
                let claims = Claims { iss, iat, exp, sub };
                if claims.is_fresh(now_ms) {
                    Ok(JsonWebToken { key: key.to_owned(), claims })
                } else {
                    Err(AuthenticationError::new("invalid access credential"))
                }
            },
        }
    }
}

} // verus!
