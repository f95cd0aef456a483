//! The user service: registration, listing and deletion of accounts.

use vstd::prelude::*;

use crate::errors::BusinessError;
use crate::repository::{
    account_index, create_conflict, has_account_id, others_sessions, owned_sessions, store_ok,
    username_index, StoreModel, UserRepository,
};
use crate::user::{bcrypt_matches, loaded_aggregate, persisted_account, User, UserDto, UserModel};

verus! {

/// Mathematical model of a registration request.
pub struct RegisterRequestModel {
    pub username: Seq<char>,
    pub password: Seq<char>,
}

/// A request to register a new account.
#[derive(Debug)]
pub struct RegisterUserRequest {
    username: String,
    password: String,
}

impl View for RegisterUserRequest {
    type V = RegisterRequestModel;

    closed spec fn view(&self) -> RegisterRequestModel {
        RegisterRequestModel { username: self.username@, password: self.password@ }
    }
}

impl RegisterUserRequest {
    pub fn new(username: String, password: String) -> (r: RegisterUserRequest)
        ensures
            r@ == (RegisterRequestModel { username: username@, password: password@ }),
    {
        RegisterUserRequest { username, password }
    }

    pub fn username(&self) -> (r: &str)
        ensures
            r@ == self@.username,
    {
        self.username.as_str()
    }

    pub fn password(&self) -> (r: &str)
        ensures
            r@ == self@.password,
    {
        self.password.as_str()
    }
}

/// A request to delete an account by identity.
#[derive(Debug)]
pub struct DeleteUserRequest {
    user_id: u128,
}

impl View for DeleteUserRequest {
    type V = u128;

    closed spec fn view(&self) -> u128 {
        self.user_id
    }
}

impl DeleteUserRequest {
    pub fn new(user_id: u128) -> (r: DeleteUserRequest)
        ensures
            r@ == user_id,
    {
        DeleteUserRequest { user_id }
    }

    pub fn user_id(&self) -> (r: u128)
        ensures
            r == self@,
    {
        self.user_id
    }
}

/// Registration, listing, lookup and deletion of accounts.
#[derive(Debug)]
pub struct UserService {
    user_repository: UserRepository,
}

impl View for UserService {
    type V = StoreModel;

    closed spec fn view(&self) -> StoreModel {
        self.user_repository@
    }
}

impl UserService {
    /// Takes ownership of the store.
    pub fn new(user_repository: UserRepository) -> (s: UserService)
        ensures
            s@ == user_repository@,
    {
        UserService { user_repository }
    }

    /// Hands the store back, so that another service can take it over.
    pub fn into_repository(self) -> (r: UserRepository)
        ensures
            r@ == self@,
    {
        self.user_repository
    }

    /// Registers a fresh account with no sessions.  A username that is
    /// already taken is always refused; a clash of the freshly drawn identity
    /// is refused too, and then nothing changes.
    pub fn register(&mut self, request: RegisterUserRequest) -> (r: Result<
        UserDto,
        BusinessError,
    >)
        requires
            store_ok(old(self)@),
        ensures
            store_ok(final (self)@),
            ({
                let s0 = old(self)@;
                &&& (username_index(s0.accounts, request@.username) >= 0 ==> r is Err)
                &&& (r matches Ok(dto) ==> {
                    &&& dto@.username == request@.username
                    &&& bcrypt_matches(request@.password, dto@.password)
                    &&& dto@.tokens.len() == 0
                    &&& !create_conflict(s0, dto@)
                    &&& final (self)@.accounts == s0.accounts.push(persisted_account(dto@))
                    &&& final (self)@.sessions == s0.sessions
                })
                &&& (r matches Err(e) ==> final (self)@ == s0 && e@ == "duplicate record"@)
            }),
    {
        let new_user = User::new(request.username().to_owned(), request.password().to_owned());
        match self.user_repository.create(&new_user) {
            Err(e) => Err(BusinessError::from(e)),
            Ok(()) => {
                proof {
                    assert(self@.sessions =~= old(self)@.sessions + new_user@.tokens);
                    assert(self@.sessions =~= old(self)@.sessions);
                }
                Ok(new_user.to_dto())
            },
        }
    }

    /// Every stored aggregate, in insertion order.
    pub fn index(&self) -> (r: Vec<UserDto>)
        requires
            store_ok(self@),
        ensures
            r@.len() == self@.accounts.len(),
            forall|i: int|
                0 <= i < r@.len() ==> (#[trigger] r@[i])@ == loaded_aggregate(
                    self@.accounts[i],
                    owned_sessions(self@.sessions, self@.accounts[i].id),
                ),
    {
        let users = self.user_repository.find_all();
        let mut out: Vec<UserDto> = Vec::new();
        let mut i: usize = 0;
        while i < users.len()
            invariant
                i <= users@.len(),
                out@.len() == i,
                forall|j: int| 0 <= j < i ==> (#[trigger] out@[j])@ == users@[j]@,
            decreases users@.len() - i,
        {
            out.push(users[i].to_dto());
            i = i + 1;
        }
        out
    }

    /// The aggregate with this identity, if the store holds one.
    pub fn show(&self, id: u128) -> (r: Option<UserDto>)
        requires
            store_ok(self@),
        ensures
            match r {
                Some(dto) => account_index(self@.accounts, id) >= 0 && dto@ == loaded_aggregate(
                    self@.accounts[account_index(self@.accounts, id)],
                    owned_sessions(self@.sessions, id),
                ),
                None => account_index(self@.accounts, id) == -1,
            },
    {
        match self.user_repository.find_by_id(id) {
            None => None,
            Some(u) => Some(u.to_dto()),
        }
    }

    /// Deletes the account and all of its session tokens as one logical unit:
    /// afterwards no session record refers to the deleted identity.
    pub fn delete(&mut self, request: DeleteUserRequest) -> (r: Result<(), BusinessError>)
        requires
            store_ok(old(self)@),
        ensures
            store_ok(final (self)@),
            r is Ok,
            final (self)@.accounts == old(self)@.accounts.filter(
                |a: UserModel| a.id != request@,
            ),
            final (self)@.sessions == others_sessions(old(self)@.sessions, request@),
            !has_account_id(final (self)@.accounts, request@),
            forall|i: int|
                0 <= i < final (self)@.sessions.len() ==> (#[trigger] final (
                self)@.sessions[i]).user_id != request@,
            forall|id2: u128|
                id2 != request@ ==> owned_sessions(final (self)@.sessions, id2) == owned_sessions(
                    old(self)@.sessions,
                    id2,
                ),
    {
        self.user_repository.delete_by_id(request.user_id());
        Ok(())
    }
}

} // verus!
