//! The account aggregate's state machine: authentication, rotation, logout,
//! and the persisted-form round trip.

use auth_sessions::token::{Token, TokenDto, TOKEN_KEY_LEN, TOKEN_TTL_MS};
use auth_sessions::user::{User, UserDto};

const NOW: u64 = 1_700_000_000_000;

fn fresh_alice() -> User {
    User::new(String::from("alice"), String::from("correct-pw"))
}

fn key_of_latest(u: &User) -> String {
    let dto = u.to_dto();
    let t = dto.latest_token().expect("a token should have been issued");
    t.key().to_string()
}

#[test]
fn authenticate_with_correct_password_appends_one_active_token() {
    let mut u = fresh_alice();
    assert!(u.login("correct-pw", NOW).is_ok());
    let dto = u.to_dto();
    assert_eq!(dto.tokens().len(), 1);
    let t = dto.latest_token().unwrap();
    assert!(!t.is_revoked());
    assert_eq!(t.expire_at(), NOW + TOKEN_TTL_MS);
    assert_eq!(t.user_id(), dto.id());
    assert_eq!(t.key().len(), TOKEN_KEY_LEN);
    assert!(t.key().chars().all(|c| (0x20..=0x7d).contains(&(c as u32))));
}

#[test]
fn authenticate_does_not_mutate_existing_tokens() {
    let mut u = fresh_alice();
    assert!(u.login("correct-pw", NOW).is_ok());
    let first = u.to_dto().latest_token().unwrap().duplicate();
    assert!(u.login("correct-pw", NOW + 10).is_ok());
    let dto = u.to_dto();
    assert_eq!(dto.tokens().len(), 2);
    let still_first = &dto.tokens()[0];
    assert_eq!(still_first.id(), first.id());
    assert_eq!(still_first.key(), first.key());
    assert_eq!(still_first.expire_at(), first.expire_at());
    assert!(!still_first.is_revoked());
}

#[test]
fn authenticate_with_wrong_password_mutates_nothing() {
    let mut u = fresh_alice();
    let r = u.login("wrong-pw", NOW);
    assert!(r.is_err());
    assert_eq!(r.unwrap_err().message(), "invalid credentials");
    assert_eq!(u.to_dto().tokens().len(), 0);
}

#[test]
fn verification_fails_closed_on_malformed_stored_hash() {
    let record = UserDto::new(7, String::from("bob"), String::from("not-a-bcrypt-hash"), Vec::new());
    let mut u = User::from_dto(&record, &Vec::new());
    let r = u.login("anything", NOW);
    assert!(r.is_err());
    assert_eq!(u.to_dto().tokens().len(), 0);
}

#[test]
fn rotation_is_single_use() {
    let mut u = fresh_alice();
    assert!(u.login("correct-pw", NOW).is_ok());
    let old_key = key_of_latest(&u);

    assert!(u.refresh(&old_key, NOW + 1_000).is_ok());
    let dto = u.to_dto();
    assert_eq!(dto.tokens().len(), 2);
    assert!(dto.tokens()[0].is_revoked());
    assert!(!dto.tokens()[1].is_revoked());
    assert_ne!(dto.tokens()[1].key(), old_key.as_str());

    let again = u.refresh(&old_key, NOW + 2_000);
    assert!(again.is_err());
    assert_eq!(again.unwrap_err().message(), "invalid token");
    let after = u.to_dto();
    assert_eq!(after.tokens().len(), 2);
    assert!(after.tokens()[0].is_revoked());
    assert!(!after.tokens()[1].is_revoked());
}

#[test]
fn rotating_an_expired_token_fails_and_mutates_nothing() {
    let record = UserDto::new(9, String::from("carol"), String::from("h"), Vec::new());
    let expired = TokenDto::new(1, String::from("old-secret"), 9, NOW, false);
    let mut u = User::from_dto(&record, &vec![expired]);
    let r = u.refresh("old-secret", NOW + 1);
    assert!(r.is_err());
    assert_eq!(r.unwrap_err().message(), "invalid token");
    let dto = u.to_dto();
    assert_eq!(dto.tokens().len(), 1);
    assert!(!dto.tokens()[0].is_revoked());
}

#[test]
fn rotating_a_revoked_token_fails_and_mutates_nothing() {
    let record = UserDto::new(9, String::from("carol"), String::from("h"), Vec::new());
    let revoked = TokenDto::new(1, String::from("dead-secret"), 9, NOW + TOKEN_TTL_MS, true);
    let mut u = User::from_dto(&record, &vec![revoked]);
    assert!(u.refresh("dead-secret", NOW).is_err());
    assert_eq!(u.to_dto().tokens().len(), 1);
}

#[test]
fn rotating_an_unknown_secret_fails() {
    let mut u = fresh_alice();
    assert!(u.login("correct-pw", NOW).is_ok());
    assert!(u.refresh("no-such-secret", NOW).is_err());
    assert_eq!(u.to_dto().tokens().len(), 1);
}

#[test]
fn rotation_accepts_a_token_on_its_expiry_instant() {
    let record = UserDto::new(3, String::from("dave"), String::from("h"), Vec::new());
    let edge = TokenDto::new(1, String::from("edge-secret"), 3, NOW, false);
    let mut u = User::from_dto(&record, &vec![edge]);
    assert!(u.refresh("edge-secret", NOW).is_ok());
    assert_eq!(u.to_dto().tokens().len(), 2);
}

#[test]
fn end_session_is_idempotent() {
    let mut u = fresh_alice();
    assert!(u.login("correct-pw", NOW).is_ok());
    let key = key_of_latest(&u);

    assert!(u.logout(&key).is_ok());
    assert!(u.to_dto().tokens()[0].is_revoked());

    assert!(u.logout(&key).is_ok());
    let dto = u.to_dto();
    assert_eq!(dto.tokens().len(), 1);
    assert!(dto.tokens()[0].is_revoked());
}

#[test]
fn end_session_succeeds_even_on_an_expired_token() {
    let record = UserDto::new(4, String::from("erin"), String::from("h"), Vec::new());
    let expired = TokenDto::new(1, String::from("stale-secret"), 4, NOW, false);
    let mut u = User::from_dto(&record, &vec![expired]);
    assert!(u.logout("stale-secret").is_ok());
    assert!(u.to_dto().tokens()[0].is_revoked());
}

#[test]
fn end_session_with_unknown_secret_fails() {
    let mut u = fresh_alice();
    let r = u.logout("nothing-here");
    assert!(r.is_err());
    assert_eq!(r.unwrap_err().message(), "invalid token");
}

#[test]
fn token_validate_checks_both_axes() {
    let live = Token::from_dto(&TokenDto::new(1, String::from("k"), 2, NOW, false));
    assert!(live.validate(NOW).is_ok());
    assert!(live.validate(NOW + 1).is_err());
    let dead = Token::from_dto(&TokenDto::new(1, String::from("k"), 2, NOW, true));
    assert!(dead.validate(NOW - 1).is_err());
}

#[test]
fn token_matches_compares_by_exact_value() {
    let t = Token::from_dto(&TokenDto::new(1, String::from("secret-a"), 2, NOW, false));
    assert!(t.matches("secret-a"));
    assert!(!t.matches("secret-A"));
    assert!(!t.matches("secret-a "));
}

#[test]
fn persisted_form_round_trip_preserves_the_aggregate() {
    let tokens = vec![
        TokenDto::new(1, String::from("k-one"), 11, NOW, false),
        TokenDto::new(2, String::from("k-two"), 11, NOW + 5, true),
    ];
    let record = UserDto::new(11, String::from("frank"), String::from("hash-value"), Vec::new());
    let original = User::from_dto(&record, &tokens);

    let persisted = original.to_dto();
    let reloaded = User::from_dto(&persisted, persisted.tokens());
    let back = reloaded.to_dto();

    assert_eq!(back.id(), persisted.id());
    assert_eq!(back.username(), "frank");
    assert_eq!(back.password(), "hash-value");
    assert_eq!(back.tokens().len(), 2);
    for (a, b) in back.tokens().iter().zip(persisted.tokens().iter()) {
        assert_eq!(a.id(), b.id());
        assert_eq!(a.key(), b.key());
        assert_eq!(a.user_id(), b.user_id());
        assert_eq!(a.expire_at(), b.expire_at());
        assert_eq!(a.is_revoked(), b.is_revoked());
    }
}
