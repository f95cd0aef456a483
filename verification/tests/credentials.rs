//! Access credentials and the refresh-token cookie value.

use std::time::{SystemTime, UNIX_EPOCH};

use auth_sessions::access_token::{Claims, JsonWebToken, JwtConfig};
use auth_sessions::refresh_cookie::{cookie_refresh_key, refresh_cookie_parts};
use auth_sessions::token::TokenDto;

fn wall_clock_ms() -> u64 {
    SystemTime::now().duration_since(UNIX_EPOCH).unwrap().as_millis() as u64
}

fn config() -> JwtConfig {
    JwtConfig::new(String::from("asdf"), 1000 * 60 * 15, b"secret".to_vec())
}

#[test]
fn minted_credential_carries_its_claims() {
    let now = wall_clock_ms();
    let jwt = JsonWebToken::new("alice", &config(), now);
    assert_eq!(jwt.username(), "alice");
    // The bearer string is a signed encoding, not the username itself.
    assert_ne!(jwt.key(), "alice");
    assert!(jwt.key().split('.').count() == 3);
}

#[test]
fn credential_round_trip_by_signature_and_expiry_alone() {
    let cfg = config();
    let now = wall_clock_ms();
    let minted = JsonWebToken::new("alice", &cfg, now);
    let checked = JsonWebToken::decode(minted.key(), &cfg, now + 5)
        .expect("a fresh credential under the right secret is accepted");
    assert_eq!(checked.username(), "alice");
    assert_eq!(checked.key(), minted.key());
}

#[test]
fn credential_with_wrong_secret_is_rejected() {
    let now = wall_clock_ms();
    let minted = JsonWebToken::new("alice", &config(), now);
    let other = JwtConfig::new(String::from("asdf"), 1000 * 60 * 15, b"other-secret".to_vec());
    let r = JsonWebToken::decode(minted.key(), &other, now);
    assert!(r.is_err());
    assert_eq!(r.unwrap_err().message(), "invalid access credential");
}

#[test]
fn expired_credential_is_rejected() {
    let cfg = JwtConfig::new(String::from("asdf"), 10, b"secret".to_vec());
    let now = wall_clock_ms();
    let minted = JsonWebToken::new("alice", &cfg, now);
    assert!(JsonWebToken::decode(minted.key(), &cfg, now + 11).is_err());
    assert!(JsonWebToken::decode(minted.key(), &cfg, now + 10).is_ok());
}

#[test]
fn tampered_credential_is_rejected() {
    let cfg = config();
    let now = wall_clock_ms();
    let minted = JsonWebToken::new("alice", &cfg, now);
    let mut tampered = minted.key().to_string();
    tampered.pop();
    assert!(JsonWebToken::decode(&tampered, &cfg, now).is_err());
    assert!(JsonWebToken::decode("not-a-credential", &cfg, now).is_err());
}

#[test]
fn claims_freshness_is_an_expiry_comparison() {
    let c = Claims::new("alice", "asdf", 1_000, 500);
    assert!(c.is_fresh(1_500));
    assert!(!c.is_fresh(1_501));
    assert_eq!(c.expires_at(), 1_500);
    assert_eq!(c.subject(), "alice");
}

#[test]
fn cookie_value_round_trips_the_secret() {
    let token = TokenDto::new(1, String::from("k +/%~x"), 2, 10_000, false);
    let (value, max_age) = refresh_cookie_parts(&token, 4_000).expect("token is not expired");
    assert_eq!(max_age, 6_000);
    // The encoded value is not the raw secret...
    assert_ne!(value.as_str(), "k +/%~x");
    // ...but decodes back to exactly it.
    assert_eq!(cookie_refresh_key(&value).unwrap(), "k +/%~x");
}

#[test]
fn expired_token_yields_no_cookie() {
    let token = TokenDto::new(1, String::from("k"), 2, 10_000, false);
    assert!(refresh_cookie_parts(&token, 10_001).is_none());
    assert!(refresh_cookie_parts(&token, 10_000).is_some());
}
