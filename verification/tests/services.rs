//! End-to-end flows through the session service and the user service.

use auth_sessions::auth_service::{AuthService, LoginUserRequest};
use auth_sessions::repository::UserRepository;
use auth_sessions::token::TOKEN_TTL_MS;
use auth_sessions::user::User;
use auth_sessions::user_service::{DeleteUserRequest, RegisterUserRequest, UserService};

const NOW: u64 = 1_700_000_000_000;

fn service_with_alice() -> AuthService {
    let mut repo = UserRepository::new();
    let alice = User::new(String::from("alice"), String::from("correct-pw"));
    assert!(repo.create(&alice).is_ok());
    AuthService::new(repo)
}

#[test]
fn login_on_a_fresh_account_yields_one_active_token() {
    let mut svc = service_with_alice();
    let request = LoginUserRequest::new(String::from("alice"), String::from("correct-pw"));
    let dto = svc.login(request, NOW).expect("login with the correct password succeeds");
    assert_eq!(dto.username(), "alice");
    assert_eq!(dto.tokens().len(), 1);
    let t = dto.latest_token().unwrap();
    assert!(!t.is_revoked());
    assert_eq!(t.expire_at(), NOW + TOKEN_TTL_MS);
}

#[test]
fn login_rotate_rotate_scenario() {
    let mut svc = service_with_alice();
    let request = LoginUserRequest::new(String::from("alice"), String::from("correct-pw"));
    let dto = svc.login(request, NOW).unwrap();
    let first_key = dto.latest_token().unwrap().key().to_string();

    // First rotation: the original token is revoked, one new active token.
    let rotated = svc.refresh(&first_key, NOW + 1_000).expect("first rotation succeeds");
    assert_eq!(rotated.tokens().len(), 2);
    assert!(rotated.tokens()[0].is_revoked());
    let second = rotated.latest_token().unwrap();
    assert!(!second.is_revoked());
    assert_eq!(second.expire_at(), NOW + 1_000 + TOKEN_TTL_MS);

    // Second rotation with the same secret: refused, nothing changes.
    let again = svc.refresh(&first_key, NOW + 2_000);
    assert!(again.is_err());
    assert_eq!(again.unwrap_err().message(), "invalid token");

    // The new secret still rotates, proving the store kept the new token.
    let third = svc.refresh(second.key(), NOW + 3_000).expect("the fresh secret still works");
    assert_eq!(third.tokens().len(), 3);
}

#[test]
fn login_with_wrong_password_or_unknown_user_is_one_error() {
    let mut svc = service_with_alice();
    let wrong = svc.login(
        LoginUserRequest::new(String::from("alice"), String::from("wrong-pw")),
        NOW,
    );
    assert_eq!(wrong.unwrap_err().message(), "invalid credentials");
    let unknown = svc.login(
        LoginUserRequest::new(String::from("nobody"), String::from("correct-pw")),
        NOW,
    );
    assert_eq!(unknown.unwrap_err().message(), "invalid credentials");
}

#[test]
fn logout_revokes_and_stays_successful() {
    let mut svc = service_with_alice();
    let dto = svc
        .login(LoginUserRequest::new(String::from("alice"), String::from("correct-pw")), NOW)
        .unwrap();
    let key = dto.latest_token().unwrap().key().to_string();

    assert!(svc.logout(&key).is_ok());
    // The revoked session can no longer rotate.
    assert!(svc.refresh(&key, NOW + 1).is_err());
    // Ending it again still succeeds: the intent is already satisfied.
    assert!(svc.logout(&key).is_ok());
    // An unknown secret is an error.
    assert_eq!(svc.logout("no-such-secret").unwrap_err().message(), "invalid token");
}

#[test]
fn register_show_index_delete_flow() {
    let mut svc = UserService::new(UserRepository::new());
    let dto = svc
        .register(RegisterUserRequest::new(String::from("alice"), String::from("pw")))
        .expect("registration on a fresh store succeeds");
    assert_eq!(dto.username(), "alice");
    assert_eq!(dto.tokens().len(), 0);

    let shown = svc.show(dto.id()).expect("the registered account is found");
    assert_eq!(shown.username(), "alice");
    assert_eq!(svc.index().len(), 1);

    let taken = svc.register(RegisterUserRequest::new(String::from("alice"), String::from("x")));
    assert_eq!(taken.unwrap_err().message(), "duplicate record");

    assert!(svc.delete(DeleteUserRequest::new(dto.id())).is_ok());
    assert!(svc.show(dto.id()).is_none());
    assert_eq!(svc.index().len(), 0);
}

#[test]
fn deleting_an_account_removes_its_sessions() {
    let mut repo = UserRepository::new();
    let alice = User::new(String::from("alice"), String::from("correct-pw"));
    assert!(repo.create(&alice).is_ok());
    let id = alice.to_dto().id();

    let mut user = repo.find_by_id(id).unwrap();
    assert!(user.login("correct-pw", NOW).is_ok());
    assert!(repo.update(&user).is_ok());
    let key = user.to_dto().latest_token().unwrap().key().to_string();
    assert!(repo.find_by_token(&key).is_some());

    let mut svc = UserService::new(repo);
    assert!(svc.delete(DeleteUserRequest::new(id)).is_ok());
    assert!(svc.show(id).is_none());
    // No session of the deleted account survives in any listing.
    for u in svc.index() {
        assert!(u.tokens().iter().all(|t| t.user_id() != id));
    }
}
