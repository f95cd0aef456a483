//! The account store: composing aggregates out of the two record kinds and
//! keeping them consistent across create, update and delete.

use auth_sessions::repository::UserRepository;
use auth_sessions::token::TokenDto;
use auth_sessions::user::{User, UserDto};

const NOW: u64 = 1_700_000_000_000;

fn stored_user(id: u128, username: &str, keys: &[&str]) -> User {
    let record = UserDto::new(id, String::from(username), String::from("hash"), Vec::new());
    let mut tokens: Vec<TokenDto> = Vec::new();
    let mut n: u128 = 0;
    for k in keys {
        n += 1;
        tokens.push(TokenDto::new(id * 100 + n, String::from(*k), id, NOW, false));
    }
    User::from_dto(&record, &tokens)
}

#[test]
fn create_then_find_composes_the_whole_aggregate() {
    let mut repo = UserRepository::new();
    assert!(repo.create(&stored_user(1, "alice", &["s-one", "s-two"])).is_ok());

    let by_id = repo.find_by_id(1).expect("stored account should be found").to_dto();
    assert_eq!(by_id.username(), "alice");
    assert_eq!(by_id.tokens().len(), 2);
    assert_eq!(by_id.tokens()[0].key(), "s-one");
    assert_eq!(by_id.tokens()[1].key(), "s-two");

    let by_name = repo.find_by_username("alice").unwrap().to_dto();
    assert_eq!(by_name.id(), 1);
    assert_eq!(by_name.tokens().len(), 2);

    let by_token = repo.find_by_token("s-two").unwrap().to_dto();
    assert_eq!(by_token.id(), 1);

    assert!(repo.find_by_id(2).is_none());
    assert!(repo.find_by_username("bob").is_none());
    assert!(repo.find_by_token("nope").is_none());
}

#[test]
fn create_refuses_a_taken_username() {
    let mut repo = UserRepository::new();
    assert!(repo.create(&stored_user(1, "alice", &[])).is_ok());
    let r = repo.create(&stored_user(2, "alice", &[]));
    assert!(r.is_err());
    assert_eq!(r.unwrap_err().message(), "duplicate record");
    assert_eq!(repo.find_all().len(), 1);
}

#[test]
fn create_refuses_a_taken_identity() {
    let mut repo = UserRepository::new();
    assert!(repo.create(&stored_user(1, "alice", &[])).is_ok());
    let r = repo.create(&stored_user(1, "bob", &[]));
    assert!(r.is_err());
}

#[test]
fn create_refuses_a_taken_or_repeated_token_identity() {
    let mut repo = UserRepository::new();
    // Two records of one aggregate under a single token identity.
    let record = UserDto::new(1, String::from("alice"), String::from("hash"), Vec::new());
    let twice = vec![
        TokenDto::new(7, String::from("k-one"), 1, NOW, false),
        TokenDto::new(7, String::from("k-two"), 1, NOW, false),
    ];
    let r = repo.create(&User::from_dto(&record, &twice));
    assert!(r.is_err());
    assert_eq!(r.unwrap_err().message(), "duplicate record");
    assert!(repo.find_all().is_empty());

    // A token identity that is already stored under another account.
    assert!(repo.create(&stored_user(1, "alice", &["k-one"])).is_ok());
    let other = UserDto::new(2, String::from("bob"), String::from("hash"), Vec::new());
    let reused = vec![TokenDto::new(101, String::from("k-other"), 2, NOW, false)];
    assert!(repo.create(&User::from_dto(&other, &reused)).is_err());
    assert_eq!(repo.find_all().len(), 1);
}

#[test]
fn update_persists_token_mutations_with_the_account() {
    let mut repo = UserRepository::new();
    assert!(repo.create(&stored_user(1, "alice", &["s-one"])).is_ok());

    let mut u = repo.find_by_id(1).unwrap();
    assert!(u.logout("s-one").is_ok());
    assert!(repo.update(&u).is_ok());

    let reloaded = repo.find_by_id(1).unwrap().to_dto();
    assert_eq!(reloaded.tokens().len(), 1);
    assert!(reloaded.tokens()[0].is_revoked());
}

#[test]
fn update_refuses_a_write_that_would_resurrect_a_revoked_session() {
    let mut repo = UserRepository::new();
    assert!(repo.create(&stored_user(1, "alice", &["s-one"])).is_ok());

    // Two loads of the same aggregate: a stale one and one that revokes.
    let stale = repo.find_by_id(1).unwrap();
    let mut fresh = repo.find_by_id(1).unwrap();
    assert!(fresh.logout("s-one").is_ok());
    assert!(repo.update(&fresh).is_ok());

    // Writing the stale aggregate back would clear the persisted flag.
    let r = repo.update(&stale);
    assert!(r.is_err());
    assert_eq!(r.unwrap_err().message(), "conflicting update");
    assert!(repo.find_by_id(1).unwrap().to_dto().tokens()[0].is_revoked());
}

#[test]
fn update_refuses_an_unknown_account() {
    let mut repo = UserRepository::new();
    assert!(repo.update(&stored_user(1, "ghost", &[])).is_err());
}

#[test]
fn update_refuses_a_username_taken_by_another_account() {
    let mut repo = UserRepository::new();
    assert!(repo.create(&stored_user(1, "alice", &[])).is_ok());
    assert!(repo.create(&stored_user(2, "bob", &[])).is_ok());
    // Account 2 tries to take account 1's username.
    let renamed = stored_user(2, "alice", &[]);
    assert!(repo.update(&renamed).is_err());
}

#[test]
fn delete_removes_the_account_and_every_one_of_its_sessions() {
    let mut repo = UserRepository::new();
    assert!(repo.create(&stored_user(1, "alice", &["a-one", "a-two"])).is_ok());
    assert!(repo.create(&stored_user(2, "bob", &["b-one"])).is_ok());

    repo.delete_by_id(1);

    assert!(repo.find_by_id(1).is_none());
    assert!(repo.find_by_username("alice").is_none());
    // No orphan session of the deleted account can be reached any more.
    assert!(repo.find_by_token("a-one").is_none());
    assert!(repo.find_by_token("a-two").is_none());
    // The other account and its sessions are untouched.
    let bob = repo.find_by_token("b-one").unwrap().to_dto();
    assert_eq!(bob.id(), 2);
    assert_eq!(bob.tokens().len(), 1);
    assert_eq!(repo.find_all().len(), 1);
}

#[test]
fn pruning_removes_only_terminal_sessions_of_one_account() {
    let mut repo = UserRepository::new();
    let record = UserDto::new(1, String::from("alice"), String::from("hash"), Vec::new());
    let tokens = vec![
        TokenDto::new(1, String::from("live"), 1, NOW + 100, false),
        TokenDto::new(2, String::from("expired"), 1, NOW - 100, false),
        TokenDto::new(3, String::from("revoked"), 1, NOW + 100, true),
    ];
    assert!(repo.create(&User::from_dto(&record, &tokens)).is_ok());
    assert!(repo.create(&stored_user(2, "bob", &["b-live"])).is_ok());

    repo.prune_sessions(1, NOW);

    let alice = repo.find_by_id(1).unwrap().to_dto();
    assert_eq!(alice.tokens().len(), 1);
    assert_eq!(alice.tokens()[0].key(), "live");
    // Another account's sessions are untouched.
    let bob = repo.find_by_id(2).unwrap().to_dto();
    assert_eq!(bob.tokens().len(), 1);
}

#[test]
fn find_all_returns_every_aggregate_in_insertion_order() {
    let mut repo = UserRepository::new();
    assert!(repo.create(&stored_user(1, "alice", &["k1"])).is_ok());
    assert!(repo.create(&stored_user(2, "bob", &[])).is_ok());
    let all = repo.find_all();
    assert_eq!(all.len(), 2);
    assert_eq!(all[0].to_dto().username(), "alice");
    assert_eq!(all[0].to_dto().tokens().len(), 1);
    assert_eq!(all[1].to_dto().username(), "bob");
    assert_eq!(all[1].to_dto().tokens().len(), 0);
}
