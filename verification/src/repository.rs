//! The account store: the persistence boundary for account aggregates and
//! their session tokens.
//!
//! Accounts and session tokens are kept as two separate record sets related
//! by account identity, as the persisted layout has them.  The repository is
//! the only place that composes a whole aggregate out of the two record
//! kinds, and it keeps them consistent: a write persists the account record
//! and every token mutation together or not at all, and deleting an account
//! removes every one of its session records, so no orphan session can ever
//! refer to a deleted account.
//!
//! Writes go through `&mut self`, so every read-modify-write sequence against
//! this store is serialized; on top of that, `update` refuses to clear a
//! revoked flag that is already persisted, so a stale aggregate can never
//! resurrect a revoked session.

use vstd::prelude::*;
use vstd::pervasive::VecAdditionalExecFns;

use crate::errors::DriverError;
use crate::token::{key_index, lemma_key_index, token_active, TokenDto, TokenModel};
use crate::user::{
    loaded_aggregate, persisted_account, token_dto_views, user_owns_tokens, User, UserDto,
    UserModel,
};

verus! {

/// Mathematical model of the store: the two record sets.
pub struct StoreModel {
    pub accounts: Seq<UserModel>,
    pub sessions: Seq<TokenModel>,
}

/// Whether some account record carries this identity.
pub open spec fn has_account_id(accounts: Seq<UserModel>, id: u128) -> bool {
    exists|i: int| 0 <= i < accounts.len() && (#[trigger] accounts[i]).id == id
}

/// Index of the first account record with this identity, or -1.
pub open spec fn account_index(accounts: Seq<UserModel>, id: u128) -> int
    decreases accounts.len(),
{
    if accounts.len() == 0 {
        -1
    } else if accounts[0].id == id {
        0
    } else if account_index(accounts.drop_first(), id) < 0 {
        -1
    } else {
        1 + account_index(accounts.drop_first(), id)
    }
}

/// What `account_index` means: -1 exactly when no record matches, otherwise
/// the position of the first match.
pub proof fn lemma_account_index(accounts: Seq<UserModel>, id: u128)
    ensures
        -1 <= account_index(accounts, id) < accounts.len(),
        account_index(accounts, id) == -1 ==> forall|j: int|
            0 <= j < accounts.len() ==> (#[trigger] accounts[j]).id != id,
        account_index(accounts, id) >= 0 ==> accounts[account_index(accounts, id)].id == id,
        account_index(accounts, id) >= 0 ==> forall|j: int|
            0 <= j < account_index(accounts, id) ==> (#[trigger] accounts[j]).id != id,
        account_index(accounts, id) >= 0 <==> has_account_id(accounts, id),
    decreases accounts.len(),
{
    if accounts.len() > 0 && accounts[0].id != id {
        lemma_account_index(accounts.drop_first(), id);
        assert(forall|j: int|
            1 <= j < accounts.len() ==> (#[trigger] accounts[j]) == accounts.drop_first()[j - 1]);
    }
}

/// Index of the first account record with this username, or -1.
pub open spec fn username_index(accounts: Seq<UserModel>, name: Seq<char>) -> int
    decreases accounts.len(),
{
    if accounts.len() == 0 {
        -1
    } else if accounts[0].username == name {
        0
    } else if username_index(accounts.drop_first(), name) < 0 {
        -1
    } else {
        1 + username_index(accounts.drop_first(), name)
    }
}

/// What `username_index` means.
pub proof fn lemma_username_index(accounts: Seq<UserModel>, name: Seq<char>)
    ensures
        -1 <= username_index(accounts, name) < accounts.len(),
        username_index(accounts, name) == -1 ==> forall|j: int|
            0 <= j < accounts.len() ==> (#[trigger] accounts[j]).username != name,
        username_index(accounts, name) >= 0 ==> accounts[username_index(
            accounts,
            name,
        )].username == name,
        username_index(accounts, name) >= 0 ==> forall|j: int|
            0 <= j < username_index(accounts, name) ==> (#[trigger] accounts[j]).username != name,
    decreases accounts.len(),
{
    if accounts.len() > 0 && accounts[0].username != name {
        lemma_username_index(accounts.drop_first(), name);
        assert(forall|j: int|
            1 <= j < accounts.len() ==> (#[trigger] accounts[j]) == accounts.drop_first()[j - 1]);
    }
}

/// The session records owned by one account, in insertion order.
pub open spec fn owned_sessions(sessions: Seq<TokenModel>, user_id: u128) -> Seq<TokenModel> {
    sessions.filter(|t: TokenModel| t.user_id == user_id)
}

/// The session records of every other account, in insertion order.
pub open spec fn others_sessions(sessions: Seq<TokenModel>, user_id: u128) -> Seq<TokenModel> {
    sessions.filter(|t: TokenModel| t.user_id != user_id)
}

/// Well-formedness of the store: account identities and usernames are unique,
/// and every session record refers to an existing account — no orphans.
pub open spec fn store_ok(s: StoreModel) -> bool {
    &&& forall|i: int, j: int|
        0 <= i < j < s.accounts.len() ==> (#[trigger] s.accounts[i]).id != (
        #[trigger] s.accounts[j]).id
    &&& forall|i: int, j: int|
        0 <= i < j < s.accounts.len() ==> (#[trigger] s.accounts[i]).username != (
        #[trigger] s.accounts[j]).username
    &&& forall|i: int|
        0 <= i < s.sessions.len() ==> has_account_id(
            s.accounts,
            (#[trigger] s.sessions[i]).user_id,
        )
    &&& forall|i: int|
        0 <= i < s.accounts.len() ==> (#[trigger] s.accounts[i]).tokens == Seq::<
            TokenModel,
        >::empty()
}

/// A stored session survives an update carrying these aggregate tokens: some
/// token keeps its identity, and a revoked flag is never cleared.
pub open spec fn session_carried(tokens: Seq<TokenModel>, stored: TokenModel) -> bool {
    exists|j: int|
        0 <= j < tokens.len() && (#[trigger] tokens[j]).id == stored.id && (stored.is_revoked
            ==> tokens[j].is_revoked)
}

/// Why a `create` is refused: the account's identity or username is already
/// taken, or one of its token records repeats a token identity or reuses one
/// that is already stored — inserting a record under a taken identity is
/// refused, as a primary key would refuse it.
pub open spec fn create_conflict(s: StoreModel, u: UserModel) -> bool {
    ||| has_account_id(s.accounts, u.id)
    ||| username_index(s.accounts, u.username) >= 0
    ||| exists|i: int, j: int|
        0 <= i < j < u.tokens.len() && (#[trigger] u.tokens[i]).id == (#[trigger] u.tokens[j]).id
    ||| exists|i: int, j: int|
        0 <= i < s.sessions.len() && 0 <= j < u.tokens.len() && (#[trigger] s.sessions[i]).id == (
        #[trigger] u.tokens[j]).id
}

/// Why an `update` is refused: the account does not exist, the username is
/// taken by another account, or the write would delete a stored session or
/// clear a persisted revoked flag.
pub open spec fn update_conflict(s: StoreModel, u: UserModel) -> bool {
    ||| account_index(s.accounts, u.id) == -1
    ||| exists|i: int|
        0 <= i < s.accounts.len() && (#[trigger] s.accounts[i]).id != u.id
            && s.accounts[i].username == u.username
    ||| exists|i: int|
        0 <= i < s.sessions.len() && (#[trigger] s.sessions[i]).user_id == u.id
            && !session_carried(u.tokens, s.sessions[i])
}

/// One step of a forward scan: filtering one element more either appends it
/// or leaves the filtered sequence as it was.
proof fn lemma_filter_take_unfold<A>(s: Seq<A>, pred: spec_fn(A) -> bool, i: int)
    requires
        0 <= i < s.len(),
    ensures
        s.take(i + 1).filter(pred) == if pred(s[i]) {
            s.take(i).filter(pred).push(s[i])
        } else {
            s.take(i).filter(pred)
        },
{
    reveal(Seq::filter);
    assert(s.take(i + 1).drop_last() =~= s.take(i));
    assert(s.take(i + 1).last() == s[i]);
}

/// Filtering keeps everything when every element passes.
proof fn lemma_all_pos_filter_id<A>(s: Seq<A>, pred: spec_fn(A) -> bool)
    requires
        forall|i: int| 0 <= i < s.len() ==> pred(#[trigger] s[i]),
    ensures
        s.filter(pred) == s,
    decreases s.len(),
{
    reveal(Seq::filter);
    if s.len() > 0 {
        lemma_all_pos_filter_id(s.drop_last(), pred);
        assert(s.filter(pred) =~= s);
    }
}

/// Filtering drops everything when every element fails.
proof fn lemma_all_neg_filter_empty<A>(s: Seq<A>, pred: spec_fn(A) -> bool)
    requires
        forall|i: int| 0 <= i < s.len() ==> !pred(#[trigger] s[i]),
    ensures
        s.filter(pred) == Seq::<A>::empty(),
    decreases s.len(),
{
    reveal(Seq::filter);
    if s.len() > 0 {
        lemma_all_neg_filter_empty(s.drop_last(), pred);
        assert(s.filter(pred) =~= Seq::<A>::empty());
    }
}

/// A filter subsumed by an earlier one can be applied directly.
proof fn lemma_filter_subsumed<A>(s: Seq<A>, p: spec_fn(A) -> bool, q: spec_fn(A) -> bool)
    requires
        forall|x: A| #[trigger] q(x) ==> p(x),
    ensures
        s.filter(p).filter(q) == s.filter(q),
    decreases s.len(),
{
    reveal(Seq::filter);
    if s.len() > 0 {
        lemma_filter_subsumed(s.drop_last(), p, q);
        if p(s.last()) {
            assert(s.drop_last().filter(p).push(s.last()).drop_last() =~= s.drop_last().filter(p));
        }
    }
}

/// The record store for accounts and their session tokens.
#[derive(Debug)]
pub struct UserRepository {
    users: Vec<UserDto>,
    sessions: Vec<TokenDto>,
}

impl View for UserRepository {
    type V = StoreModel;

    closed spec fn view(&self) -> StoreModel {
        StoreModel {
            accounts: self.users@.map_values(|d: UserDto| persisted_account(d@)),
            sessions: token_dto_views(self.sessions@),
        }
    }
}

impl UserRepository {
    /// An empty store.
    pub fn new() -> (r: UserRepository)
        ensures
            r@.accounts.len() == 0,
            r@.sessions.len() == 0,
            store_ok(r@),
    {
        UserRepository { users: Vec::new(), sessions: Vec::new() }
    }

    /// Position of the first stored account record with this identity.
    fn account_position(&self, user_id: u128) -> (r: Option<usize>)
        ensures
            match r {
                Some(i) => account_index(self@.accounts, user_id) == i && i < self@.accounts.len(),
                None => account_index(self@.accounts, user_id) == -1,
            },
    {
        proof {
            lemma_account_index(self@.accounts, user_id);
        }
        let mut i: usize = 0;
        while i < self.users.len()
            invariant
                i <= self.users@.len(),
                self@.accounts.len() == self.users@.len(),
                forall|j: int| 0 <= j < i ==> (#[trigger] self@.accounts[j]).id != user_id,
            decreases self.users@.len() - i,
        {
            if self.users[i].id() == user_id {
                proof {
                    let accounts = self@.accounts;
                    assert(accounts[i as int] == persisted_account(self.users@[i as int]@));
                    lemma_account_index(accounts, user_id);
                    let ai = account_index(accounts, user_id);
                    assert(ai != -1);
                    if ai < i {
                        assert(accounts[ai].id != user_id);
                    }
                    if ai > i {
                        assert(accounts[i as int].id != user_id);
                    }
                }
                return Some(i);
            }
            i = i + 1;
        }
        None
    }

    /// Position of the first stored account record with this username.
    fn username_position(&self, name: &str) -> (r: Option<usize>)
        ensures
            match r {
                Some(i) => username_index(self@.accounts, name@) == i && i
                    < self@.accounts.len(),
                None => username_index(self@.accounts, name@) == -1,
            },
    {
        proof {
            lemma_username_index(self@.accounts, name@);
        }
        let mut i: usize = 0;
        while i < self.users.len()
            invariant
                i <= self.users@.len(),
                self@.accounts.len() == self.users@.len(),
                forall|j: int| 0 <= j < i ==> (#[trigger] self@.accounts[j]).username != name@,
            decreases self.users@.len() - i,
        {
            if self.users[i].has_username(name) {
                proof {
                    let accounts = self@.accounts;
                    assert(accounts[i as int] == persisted_account(self.users@[i as int]@));
                    lemma_username_index(accounts, name@);
                    let ui = username_index(accounts, name@);
                    assert(ui != -1);
                    if ui < i {
                        assert(accounts[ui].username != name@);
                    }
                    if ui > i {
                        assert(accounts[i as int].username != name@);
                    }
                }
                return Some(i);
            }
            i = i + 1;
        }
        None
    }

    /// The session records owned by this account, in insertion order.
    fn sessions_for(&self, user_id: u128) -> (r: Vec<TokenDto>)
        ensures
            token_dto_views(r@) == owned_sessions(self@.sessions, user_id),
    {
        let pred = |t: TokenModel| t.user_id == user_id;
        let mut out: Vec<TokenDto> = Vec::new();
        let ghost all = self@.sessions;
        let mut i: usize = 0;
        while i < self.sessions.len()
            invariant
                i <= self.sessions@.len(),
                all == self@.sessions,
                all.len() == self.sessions@.len(),
                token_dto_views(out@) == all.take(i as int).filter(
                    |t: TokenModel| t.user_id == user_id,
                ),
            decreases self.sessions@.len() - i,
        {
            proof {
                assert(all[i as int] == self.sessions@[i as int]@);
                lemma_filter_take_unfold(all, |t: TokenModel| t.user_id == user_id, i as int);
            }
            if self.sessions[i].user_id() == user_id {
                out.push(self.sessions[i].duplicate());
                proof {
                    assert(token_dto_views(out@) =~= all.take(i + 1).filter(
                        |t: TokenModel| t.user_id == user_id,
                    ));
                }
            } else {
                proof {
                    assert(token_dto_views(out@) =~= all.take(i + 1).filter(
                        |t: TokenModel| t.user_id == user_id,
                    ));
                }
            }
            i = i + 1;
        }
        proof {
            assert(all.take(all.len() as int) =~= all);
        }
        out
    }

    /// Whether two of these token records share one identity.
    fn has_repeated_token_id(tokens: &Vec<TokenDto>) -> (r: bool)
        ensures
            r == exists|i: int, j: int|
                0 <= i < j < token_dto_views(tokens@).len() && (#[trigger] token_dto_views(
                    tokens@,
                )[i]).id == (#[trigger] token_dto_views(tokens@)[j]).id,
    {
        let ghost ts = token_dto_views(tokens@);
        let n = tokens.len();
        let mut i: usize = 0;
        while i < n
            invariant
                ts == token_dto_views(tokens@),
                n == tokens@.len(),
                ts.len() == n,
                i <= n,
                forall|i2: int, j2: int|
                    0 <= i2 < i && i2 < j2 < n ==> (#[trigger] ts[i2]).id != (#[trigger] ts[j2]).id,
            decreases n - i,
        {
            let mut j: usize = i + 1;
            while j < n
                invariant
                    ts == token_dto_views(tokens@),
                    n == tokens@.len(),
                    ts.len() == n,
                    i < n,
                    i < j <= n,
                    forall|i2: int, j2: int|
                        0 <= i2 < i && i2 < j2 < n ==> (#[trigger] ts[i2]).id != (
                        #[trigger] ts[j2]).id,
                    forall|j2: int| i < j2 < j ==> ts[i as int].id != (#[trigger] ts[j2]).id,
                decreases n - j,
            {
                proof {
                    assert(ts[i as int] == tokens@[i as int]@);
                    assert(ts[j as int] == tokens@[j as int]@);
                }
                if tokens[i].id() == tokens[j].id() {
                    return true;
                }
                j = j + 1;
            }
            i = i + 1;
        }
        false
    }

    /// Whether any of these token records reuses a stored session identity.
    fn holds_any_token_id(&self, tokens: &Vec<TokenDto>) -> (r: bool)
        ensures
            r == exists|i: int, j: int|
                0 <= i < self@.sessions.len() && 0 <= j < token_dto_views(tokens@).len() && (
                #[trigger] self@.sessions[i]).id == (#[trigger] token_dto_views(tokens@)[j]).id,
    {
        let ghost ss = self@.sessions;
        let ghost ts = token_dto_views(tokens@);
        let mut i: usize = 0;
        while i < self.sessions.len()
            invariant
                ss == self@.sessions,
                ts == token_dto_views(tokens@),
                ss.len() == self.sessions@.len(),
                ts.len() == tokens@.len(),
                i <= ss.len(),
                forall|i2: int, j2: int|
                    0 <= i2 < i && 0 <= j2 < ts.len() ==> (#[trigger] ss[i2]).id != (
                    #[trigger] ts[j2]).id,
            decreases ss.len() - i,
        {
            let mut j: usize = 0;
            while j < tokens.len()
                invariant
                    ss == self@.sessions,
                    ts == token_dto_views(tokens@),
                    ss.len() == self.sessions@.len(),
                    ts.len() == tokens@.len(),
                    i < ss.len(),
                    j <= ts.len(),
                    forall|i2: int, j2: int|
                        0 <= i2 < i && 0 <= j2 < ts.len() ==> (#[trigger] ss[i2]).id != (
                        #[trigger] ts[j2]).id,
                    forall|j2: int| 0 <= j2 < j ==> ss[i as int].id != (#[trigger] ts[j2]).id,
                decreases ts.len() - j,
            {
                proof {
                    assert(ss[i as int] == self.sessions@[i as int]@);
                    assert(ts[j as int] == tokens@[j as int]@);
                }
                if self.sessions[i].id() == tokens[j].id() {
                    return true;
                }
                j = j + 1;
            }
            i = i + 1;
        }
        false
    }

    /// Inserts a new account together with the records of all its tokens, as
    /// one logical write.  The write is refused whole if the identity or the
    /// username is already taken, or a token record's identity is repeated or
    /// already stored.
    pub fn create(&mut self, user: &User) -> (r: Result<(), DriverError>)
        requires
            store_ok(old(self)@),
            user_owns_tokens(user@),
        ensures
            store_ok(final (self)@),
            r is Ok <==> !create_conflict(old(self)@, user@),
            r is Ok ==> final (self)@.accounts == old(self)@.accounts.push(
                persisted_account(user@),
            ) && final (self)@.sessions == old(self)@.sessions + user@.tokens,
            r matches Err(e) ==> *final (self) == *old(self) && e@ == "duplicate record"@,
    {
        let user_dto = user.to_dto();
        proof {
            lemma_account_index(self@.accounts, user_dto@.id);
            lemma_username_index(self@.accounts, user_dto@.username);
        }
        if let Some(_) = self.account_position(user_dto.id()) {
            return Err(DriverError::new("duplicate record"));
        }
        if let Some(_) = self.username_position(user_dto.username()) {
            return Err(DriverError::new("duplicate record"));
        }
        if Self::has_repeated_token_id(user_dto.tokens()) {
            return Err(DriverError::new("duplicate record"));
        }
        if self.holds_any_token_id(user_dto.tokens()) {
            return Err(DriverError::new("duplicate record"));
        }
        let ghost old_store = self@;
        let tokens = user_dto.tokens();
        let mut i: usize = 0;
        while i < tokens.len()
            invariant
                i <= tokens@.len(),
                token_dto_views(tokens@) == user@.tokens,
                self@.sessions =~= old_store.sessions + user@.tokens.take(i as int),
                self@.accounts == old_store.accounts,
                self.users@.len() == old_store.accounts.len(),
            decreases tokens@.len() - i,
        {
            let ghost before = self@.sessions;
            self.sessions.push(tokens[i].duplicate());
            proof {
                assert(tokens@[i as int]@ == user@.tokens[i as int]);
                assert(self@.sessions =~= before.push(user@.tokens[i as int]));
                assert(user@.tokens.take(i + 1) =~= user@.tokens.take(i as int).push(
                    user@.tokens[i as int],
                ));
                assert(self@.sessions =~= old_store.sessions + user@.tokens.take(i + 1));
            }
            i = i + 1;
        }
        proof {
            assert(user@.tokens.take(user@.tokens.len() as int) =~= user@.tokens);
        }
        let record = UserDto::new(
            user_dto.id(),
            user_dto.username().to_owned(),
            user_dto.password().to_owned(),
            Vec::new(),
        );
        self.users.push(record);
        proof {
            assert(self@.accounts =~= old_store.accounts.push(persisted_account(user@)));
            assert(self@.sessions =~= old_store.sessions + user@.tokens);
            lemma_account_index(old_store.accounts, user@.id);
            lemma_username_index(old_store.accounts, user@.username);
            assert(store_ok(self@)) by {
                let s = self@;
                assert forall|i2: int| 0 <= i2 < s.sessions.len() implies has_account_id(
                    s.accounts,
                    (#[trigger] s.sessions[i2]).user_id,
                ) by {
                    if i2 < old_store.sessions.len() {
                        assert(has_account_id(old_store.accounts, old_store.sessions[i2].user_id));
                        let w = choose|w: int|
                            0 <= w < old_store.accounts.len() && (#[trigger] old_store.accounts[w]).id
                                == old_store.sessions[i2].user_id;
                        assert(s.accounts[w].id == s.sessions[i2].user_id);
                    } else {
                        assert(s.sessions[i2].user_id == user@.id);
                        assert(s.accounts[s.accounts.len() - 1].id == user@.id);
                    }
                }
            }
        }
        Ok(())
    }

    /// Removes the account record and every session record owned by it, as a
    /// single logical unit: afterwards no session refers to the deleted
    /// identity.
    pub fn delete_by_id(&mut self, user_id: u128)
        requires
            store_ok(old(self)@),
        ensures
            store_ok(final (self)@),
            final (self)@.accounts == old(self)@.accounts.filter(
                |a: UserModel| a.id != user_id,
            ),
            final (self)@.sessions == others_sessions(old(self)@.sessions, user_id),
            !has_account_id(final (self)@.accounts, user_id),
            forall|i: int|
                0 <= i < final (self)@.sessions.len() ==> (#[trigger] final (
                self)@.sessions[i]).user_id != user_id,
            forall|id2: u128|
                id2 != user_id ==> owned_sessions(final (self)@.sessions, id2) == owned_sessions(
                    old(self)@.sessions,
                    id2,
                ),
    {
        let ghost old_store = self@;
        let ghost apred: spec_fn(UserModel) -> bool = |a: UserModel| a.id != user_id;
        let ghost spred: spec_fn(TokenModel) -> bool = |t: TokenModel| t.user_id != user_id;

        let mut kept_users: Vec<UserDto> = Vec::new();
        let mut i: usize = 0;
        while i < self.users.len()
            invariant
                i <= self.users@.len(),
                self@ == old_store,
                old_store.accounts.len() == self.users@.len(),
                kept_users@.map_values(|d: UserDto| persisted_account(d@))
                    == old_store.accounts.take(i as int).filter(|a: UserModel| a.id != user_id),
            decreases self.users@.len() - i,
        {
            proof {
                assert(old_store.accounts[i as int] == persisted_account(self.users@[i as int]@));
                lemma_filter_take_unfold(
                    old_store.accounts,
                    |a: UserModel| a.id != user_id,
                    i as int,
                );
            }
            if self.users[i].id() != user_id {
                let d = &self.users[i];
                kept_users.push(
                    UserDto::new(d.id(), d.username().to_owned(), d.password().to_owned(), Vec::new()),
                );
            }
            proof {
                assert(kept_users@.map_values(|d: UserDto| persisted_account(d@))
                    =~= old_store.accounts.take(i + 1).filter(|a: UserModel| a.id != user_id));
            }
            i = i + 1;
        }
        let mut kept_sessions: Vec<TokenDto> = Vec::new();
        let mut k: usize = 0;
        while k < self.sessions.len()
            invariant
                k <= self.sessions@.len(),
                self@ == old_store,
                old_store.sessions.len() == self.sessions@.len(),
                token_dto_views(kept_sessions@) == old_store.sessions.take(k as int).filter(
                    |t: TokenModel| t.user_id != user_id,
                ),
            decreases self.sessions@.len() - k,
        {
            proof {
                assert(old_store.sessions[k as int] == self.sessions@[k as int]@);
                lemma_filter_take_unfold(
                    old_store.sessions,
                    |t: TokenModel| t.user_id != user_id,
                    k as int,
                );
            }
            if self.sessions[k].user_id() != user_id {
                kept_sessions.push(self.sessions[k].duplicate());
            }
            proof {
                assert(token_dto_views(kept_sessions@) =~= old_store.sessions.take(k + 1).filter(
                    |t: TokenModel| t.user_id != user_id,
                ));
            }
            k = k + 1;
        }
        self.users = kept_users;
        self.sessions = kept_sessions;
        proof {
            assert(old_store.accounts.take(old_store.accounts.len() as int) =~= old_store.accounts);
            assert(old_store.sessions.take(old_store.sessions.len() as int) =~= old_store.sessions);
            let s = self@;
            assert(s.accounts == old_store.accounts.filter(apred));
            assert(s.sessions == old_store.sessions.filter(spred));
            assert forall|i2: int| 0 <= i2 < s.accounts.len() implies (#[trigger] s.accounts[i2]).id
                != user_id by {
                Seq::lemma_filter_pred(old_store.accounts, apred, i2);
            }
            assert(!has_account_id(s.accounts, user_id));
            assert forall|i2: int| 0 <= i2 < s.sessions.len() implies (#[trigger] s.sessions[i2]).user_id
                != user_id by {
                Seq::lemma_filter_pred(old_store.sessions, spred, i2);
            }
            assert forall|id2: u128| id2 != user_id implies owned_sessions(s.sessions, id2)
                == owned_sessions(old_store.sessions, id2) by {
                lemma_filter_subsumed(
                    old_store.sessions,
                    spred,
                    |t: TokenModel| t.user_id == id2,
                );
            }
            assert(store_ok(s)) by {
                assert forall|i2: int, j2: int| 0 <= i2 < j2 < s.accounts.len() implies (
                #[trigger] s.accounts[i2]).id != (#[trigger] s.accounts[j2]).id by {
                    lemma_filter_members(old_store.accounts, apred, i2, j2);
                }
                assert forall|i2: int, j2: int| 0 <= i2 < j2 < s.accounts.len() implies (
                #[trigger] s.accounts[i2]).username != (#[trigger] s.accounts[j2]).username by {
                    lemma_filter_members(old_store.accounts, apred, i2, j2);
                }
                assert forall|i2: int| 0 <= i2 < s.sessions.len() implies has_account_id(
                    s.accounts,
                    (#[trigger] s.sessions[i2]).user_id,
                ) by {
                    Seq::lemma_filter_pred(old_store.sessions, spred, i2);
                    lemma_filter_member_of(old_store.sessions, spred, i2);
                    let w = choose|w: int|
                        0 <= w < old_store.sessions.len() && old_store.sessions[w]
                            == s.sessions[i2];
                    assert(has_account_id(old_store.accounts, s.sessions[i2].user_id));
                    let wa = choose|wa: int|
                        0 <= wa < old_store.accounts.len() && (#[trigger] old_store.accounts[wa]).id
                            == s.sessions[i2].user_id;
                    assert(apred(old_store.accounts[wa]));
                    lemma_filter_keeps(old_store.accounts, apred, wa);
                }
            }
        }
    }

    /// Whether `stored` survives an update carrying these token records.
    fn carried(tokens: &Vec<TokenDto>, stored: &TokenDto) -> (r: bool)
        ensures
            r == session_carried(token_dto_views(tokens@), stored@),
    {
        let mut j: usize = 0;
        while j < tokens.len()
            invariant
                j <= tokens@.len(),
                forall|m: int|
                    0 <= m < j ==> !((#[trigger] token_dto_views(tokens@)[m]).id == stored@.id && (
                    stored@.is_revoked ==> token_dto_views(tokens@)[m].is_revoked)),
            decreases tokens@.len() - j,
        {
            if tokens[j].id() == stored.id() && (!stored.is_revoked() || tokens[j].is_revoked()) {
                proof {
                    assert(token_dto_views(tokens@)[j as int] == tokens@[j as int]@);
                }
                return true;
            }
            proof {
                assert(token_dto_views(tokens@)[j as int] == tokens@[j as int]@);
            }
            j = j + 1;
        }
        false
    }

    /// Whether some account other than `uid` already holds this username.
    fn username_taken_by_other(&self, uid: u128, name: &str) -> (r: bool)
        ensures
            r == exists|i: int|
                0 <= i < self@.accounts.len() && (#[trigger] self@.accounts[i]).id != uid
                    && self@.accounts[i].username == name@,
    {
        let mut k: usize = 0;
        while k < self.users.len()
            invariant
                k <= self.users@.len(),
                self@.accounts.len() == self.users@.len(),
                forall|j: int|
                    0 <= j < k ==> !((#[trigger] self@.accounts[j]).id != uid
                        && self@.accounts[j].username == name@),
            decreases self.users@.len() - k,
        {
            proof {
                assert(self@.accounts[k as int] == persisted_account(self.users@[k as int]@));
            }
            if self.users[k].id() != uid && self.users[k].has_username(name) {
                return true;
            }
            k = k + 1;
        }
        false
    }

    /// Whether every stored session of this account is carried forward by
    /// these token records, with no revoked flag cleared.
    fn all_sessions_carried(&self, uid: u128, tokens: &Vec<TokenDto>) -> (r: bool)
        ensures
            r == forall|i: int|
                0 <= i < self@.sessions.len() ==> ((#[trigger] self@.sessions[i]).user_id == uid
                    ==> session_carried(token_dto_views(tokens@), self@.sessions[i])),
    {
        let mut k: usize = 0;
        while k < self.sessions.len()
            invariant
                k <= self.sessions@.len(),
                self@.sessions.len() == self.sessions@.len(),
                forall|m: int|
                    0 <= m < k ==> ((#[trigger] self@.sessions[m]).user_id == uid
                        ==> session_carried(token_dto_views(tokens@), self@.sessions[m])),
            decreases self.sessions@.len() - k,
        {
            proof {
                assert(self@.sessions[k as int] == self.sessions@[k as int]@);
            }
            if self.sessions[k].user_id() == uid {
                if !Self::carried(tokens, &self.sessions[k]) {
                    return false;
                }
            }
            k = k + 1;
        }
        true
    }

    /// Persists a changed aggregate as one logical write: the account record
    /// and every token mutation — newly issued tokens inserted, revoked flags
    /// persisted — commit together, or the whole write is refused and nothing
    /// changes.  A write that would delete a stored session or clear a
    /// persisted revoked flag is refused: that write must come from a stale
    /// read, and accepting it would let a rotated-away token be used again.
    pub fn update(&mut self, user: &User) -> (r: Result<(), DriverError>)
        requires
            store_ok(old(self)@),
            user_owns_tokens(user@),
        ensures
            store_ok(final (self)@),
            r is Ok <==> !update_conflict(old(self)@, user@),
            r is Ok ==> final (self)@.accounts == old(self)@.accounts.update(
                account_index(old(self)@.accounts, user@.id),
                persisted_account(user@),
            ) && owned_sessions(final (self)@.sessions, user@.id) == user@.tokens && forall|
                id2: u128,
            |
                id2 != user@.id ==> owned_sessions(final (self)@.sessions, id2) == owned_sessions(
                    old(self)@.sessions,
                    id2,
                ),
            r matches Err(e) ==> *final (self) == *old(self) && e@ == "conflicting update"@,
    {
        let user_dto = user.to_dto();
        let uid = user_dto.id();
        let ghost old_store = self@;
        proof {
            lemma_account_index(old_store.accounts, user@.id);
        }
        let idx = match self.account_position(uid) {
            None => {
                return Err(DriverError::new("conflicting update"));
            },
            Some(i) => i,
        };
        // The username must not belong to any other account.
        if self.username_taken_by_other(uid, user_dto.username()) {
            return Err(DriverError::new("conflicting update"));
        }
        // Every stored session of this account must be carried forward, and a
        // persisted revoked flag must stay set.
        let tokens = user_dto.tokens();
        if !self.all_sessions_carried(uid, tokens) {
            return Err(DriverError::new("conflicting update"));
        }
        // All checks passed: rebuild the session set of this account and
        // replace its record, as one in-memory commit.
        let ghost spred: spec_fn(TokenModel) -> bool = |t: TokenModel| t.user_id != uid;
        let mut kept: Vec<TokenDto> = Vec::new();
        let mut m: usize = 0;
        while m < self.sessions.len()
            invariant
                m <= self.sessions@.len(),
                self@ == old_store,
                old_store.sessions.len() == self.sessions@.len(),
                uid == user@.id,
                token_dto_views(kept@) == old_store.sessions.take(m as int).filter(
                    |t: TokenModel| t.user_id != uid,
                ),
            decreases self.sessions@.len() - m,
        {
            proof {
                assert(old_store.sessions[m as int] == self.sessions@[m as int]@);
                lemma_filter_take_unfold(
                    old_store.sessions,
                    |t: TokenModel| t.user_id != uid,
                    m as int,
                );
            }
            if self.sessions[m].user_id() != uid {
                kept.push(self.sessions[m].duplicate());
            }
            proof {
                assert(token_dto_views(kept@) =~= old_store.sessions.take(m + 1).filter(
                    |t: TokenModel| t.user_id != uid,
                ));
            }
            m = m + 1;
        }
        proof {
            assert(old_store.sessions.take(old_store.sessions.len() as int) =~= old_store.sessions);
        }
        let ghost others = others_sessions(old_store.sessions, user@.id);
        let mut m2: usize = 0;
        while m2 < tokens.len()
            invariant
                m2 <= tokens@.len(),
                self@ == old_store,
                token_dto_views(tokens@) == user@.tokens,
                uid == user@.id,
                token_dto_views(kept@) =~= others + user@.tokens.take(m2 as int),
                others == others_sessions(old_store.sessions, user@.id),
            decreases tokens@.len() - m2,
        {
            let ghost before = token_dto_views(kept@);
            kept.push(tokens[m2].duplicate());
            proof {
                assert(tokens@[m2 as int]@ == user@.tokens[m2 as int]);
                assert(token_dto_views(kept@) =~= before.push(user@.tokens[m2 as int]));
                assert(user@.tokens.take(m2 + 1) =~= user@.tokens.take(m2 as int).push(
                    user@.tokens[m2 as int],
                ));
                assert(token_dto_views(kept@) =~= others + user@.tokens.take(m2 + 1));
            }
            m2 = m2 + 1;
        }
        proof {
            assert(user@.tokens.take(user@.tokens.len() as int) =~= user@.tokens);
        }
        let record = UserDto::new(
            user_dto.id(),
            user_dto.username().to_owned(),
            user_dto.password().to_owned(),
            Vec::new(),
        );
        self.sessions = kept;
        self.users.set(idx, record);
        proof {
            let s = self@;
            let ghost opos: spec_fn(TokenModel) -> bool = |t: TokenModel| t.user_id == user@.id;
            assert(s.accounts =~= old_store.accounts.update(idx as int, persisted_account(user@)));
            assert(s.sessions == others + user@.tokens);
            // This account's sessions are exactly the aggregate's tokens.
            Seq::filter_distributes_over_add(others, user@.tokens, opos);
            assert forall|i2: int| 0 <= i2 < others.len() implies !opos(#[trigger] others[i2]) by {
                Seq::lemma_filter_pred(old_store.sessions, spred, i2);
            }
            lemma_all_neg_filter_empty(others, opos);
            lemma_all_pos_filter_id(user@.tokens, opos);
            assert(owned_sessions(s.sessions, user@.id) =~= user@.tokens);
            // Other accounts' sessions are untouched.
            assert forall|id2: u128| id2 != user@.id implies owned_sessions(s.sessions, id2)
                == owned_sessions(old_store.sessions, id2) by {
                let q: spec_fn(TokenModel) -> bool = |t: TokenModel| t.user_id == id2;
                Seq::filter_distributes_over_add(others, user@.tokens, q);
                lemma_filter_subsumed(old_store.sessions, spred, q);
                assert forall|i2: int| 0 <= i2 < user@.tokens.len() implies !q(
                    #[trigger] user@.tokens[i2],
                ) by {}
                lemma_all_neg_filter_empty(user@.tokens, q);
                assert(owned_sessions(s.sessions, id2) =~= owned_sessions(
                    old_store.sessions,
                    id2,
                ));
            }
            // No conflict was present.
            assert(!update_conflict(old_store, user@));
            // The store stays well-formed.
            assert(store_ok(s)) by {
                assert forall|i2: int, j2: int| 0 <= i2 < j2 < s.accounts.len() implies (
                #[trigger] s.accounts[i2]).id != (#[trigger] s.accounts[j2]).id by {
                    assert(old_store.accounts[i2].id != old_store.accounts[j2].id);
                    assert(s.accounts[i2].id == old_store.accounts[i2].id);
                    assert(s.accounts[j2].id == old_store.accounts[j2].id);
                }
                assert forall|i2: int, j2: int| 0 <= i2 < j2 < s.accounts.len() implies (
                #[trigger] s.accounts[i2]).username != (#[trigger] s.accounts[j2]).username by {
                    if i2 == idx {
                        assert(old_store.accounts[j2].id != user@.id);
                        assert(old_store.accounts[j2].username != user@.username);
                    } else if j2 == idx {
                        assert(old_store.accounts[i2].id != user@.id);
                        assert(old_store.accounts[i2].username != user@.username);
                    }
                }
                assert forall|i2: int| 0 <= i2 < s.sessions.len() implies has_account_id(
                    s.accounts,
                    (#[trigger] s.sessions[i2]).user_id,
                ) by {
                    if i2 < others.len() {
                        lemma_filter_member_of(old_store.sessions, spred, i2);
                        let w = choose|w: int|
                            0 <= w < old_store.sessions.len() && old_store.sessions[w]
                                == others[i2];
                        assert(has_account_id(old_store.accounts, s.sessions[i2].user_id));
                        let wa = choose|wa: int|
                            0 <= wa < old_store.accounts.len() && (
                            #[trigger] old_store.accounts[wa]).id == s.sessions[i2].user_id;
                        assert(s.accounts[wa].id == s.sessions[i2].user_id);
                    } else {
                        assert(s.sessions[i2].user_id == user@.id);
                        assert(s.accounts[idx as int].id == user@.id);
                    }
                }
            }
        }
        Ok(())
    }

    /// Loads the whole aggregate for this username, composing the account
    /// record with every session record owned by it.
    pub fn find_by_username(&self, username: &str) -> (r: Option<User>)
        requires
            store_ok(self@),
        ensures
            match r {
                Some(u) => username_index(self@.accounts, username@) >= 0 && u@
                    == loaded_aggregate(
                    self@.accounts[username_index(self@.accounts, username@)],
                    owned_sessions(
                        self@.sessions,
                        self@.accounts[username_index(self@.accounts, username@)].id,
                    ),
                ),
                None => username_index(self@.accounts, username@) == -1,
            },
    {
        match self.username_position(username) {
            None => None,
            Some(i) => {
                let session_dtos = self.sessions_for(self.users[i].id());
                let u = User::from_dto(&self.users[i], &session_dtos);
                proof {
                    assert(self@.accounts[i as int] == persisted_account(self.users@[i as int]@));
                }
                Some(u)
            },
        }
    }

    /// Position of the first stored session whose secret equals `key`.
    fn session_key_position(&self, key: &str) -> (r: Option<usize>)
        ensures
            match r {
                Some(i) => key_index(self@.sessions, key@) == i && i < self@.sessions.len(),
                None => key_index(self@.sessions, key@) == -1,
            },
    {
        proof {
            lemma_key_index(self@.sessions, key@);
        }
        let mut i: usize = 0;
        while i < self.sessions.len()
            invariant
                i <= self.sessions@.len(),
                self@.sessions.len() == self.sessions@.len(),
                forall|j: int| 0 <= j < i ==> (#[trigger] self@.sessions[j]).key != key@,
            decreases self.sessions@.len() - i,
        {
            if self.sessions[i].matches(key) {
                proof {
                    let ts = self@.sessions;
                    assert(ts[i as int] == self.sessions@[i as int]@);
                    lemma_key_index(ts, key@);
                    let ki = key_index(ts, key@);
                    assert(ki != -1);
                    if ki < i {
                        assert(ts[ki].key != key@);
                    }
                    if ki > i {
                        assert(ts[i as int].key != key@);
                    }
                }
                return Some(i);
            }
            proof {
                assert(self@.sessions[i as int] == self.sessions@[i as int]@);
            }
            i = i + 1;
        }
        None
    }

    /// Loads the aggregate owning the first stored session whose secret
    /// equals `key`; the store's well-formedness guarantees that the owning
    /// account exists.
    pub fn find_by_token(&self, key: &str) -> (r: Option<User>)
        requires
            store_ok(self@),
        ensures
            match r {
                Some(u) => {
                    let ki = key_index(self@.sessions, key@);
                    let owner = self@.sessions[ki].user_id;
                    &&& ki >= 0
                    &&& account_index(self@.accounts, owner) >= 0
                    &&& u@ == loaded_aggregate(
                        self@.accounts[account_index(self@.accounts, owner)],
                        owned_sessions(self@.sessions, owner),
                    )
                },
                None => key_index(self@.sessions, key@) == -1,
            },
    {
        match self.session_key_position(key) {
            None => None,
            Some(i) => {
                let owner = self.sessions[i].user_id();
                proof {
                    assert(self@.sessions[i as int] == self.sessions@[i as int]@);
                    assert(has_account_id(self@.accounts, owner));
                    lemma_account_index(self@.accounts, owner);
                }
                self.find_by_id(owner)
            },
        }
    }

    /// Loads every stored aggregate, in insertion order.
    pub fn find_all(&self) -> (r: Vec<User>)
        requires
            store_ok(self@),
        ensures
            r@.len() == self@.accounts.len(),
            forall|i: int|
                0 <= i < r@.len() ==> (#[trigger] r@[i])@ == loaded_aggregate(
                    self@.accounts[i],
                    owned_sessions(self@.sessions, self@.accounts[i].id),
                ),
    {
        let mut out: Vec<User> = Vec::new();
        let mut i: usize = 0;
        while i < self.users.len()
            invariant
                i <= self.users@.len(),
                self@.accounts.len() == self.users@.len(),
                out@.len() == i,
                forall|j: int|
                    0 <= j < i ==> (#[trigger] out@[j])@ == loaded_aggregate(
                        self@.accounts[j],
                        owned_sessions(self@.sessions, self@.accounts[j].id),
                    ),
            decreases self.users@.len() - i,
        {
            let session_dtos = self.sessions_for(self.users[i].id());
            let u = User::from_dto(&self.users[i], &session_dtos);
            proof {
                assert(self@.accounts[i as int] == persisted_account(self.users@[i as int]@));
            }
            out.push(u);
            i = i + 1;
        }
        out
    }

    /// Removes the terminal — revoked or expired — session records of one
    /// account.  Nothing in the session lifecycle prunes them, so retention
    /// is a policy of its own: this operation applies it only when and where
    /// the caller decides.  Active sessions and other accounts are untouched.
    pub fn prune_sessions(&mut self, user_id: u128, now_ms: u64)
        requires
            store_ok(old(self)@),
        ensures
            store_ok(final (self)@),
            final (self)@.accounts == old(self)@.accounts,
            final (self)@.sessions == old(self)@.sessions.filter(
                |t: TokenModel| t.user_id != user_id || token_active(t, now_ms),
            ),
            forall|i: int|
                0 <= i < final (self)@.sessions.len() ==> ((#[trigger] final (
                self)@.sessions[i]).user_id == user_id ==> token_active(
                    final (self)@.sessions[i],
                    now_ms,
                )),
            forall|id2: u128|
                id2 != user_id ==> owned_sessions(final (self)@.sessions, id2) == owned_sessions(
                    old(self)@.sessions,
                    id2,
                ),
    {
        let ghost old_store = self@;
        let ghost keep: spec_fn(TokenModel) -> bool = |t: TokenModel|
            t.user_id != user_id || token_active(t, now_ms);
        let mut kept: Vec<TokenDto> = Vec::new();
        let mut k: usize = 0;
        while k < self.sessions.len()
            invariant
                k <= self.sessions@.len(),
                self@ == old_store,
                old_store.sessions.len() == self.sessions@.len(),
                token_dto_views(kept@) == old_store.sessions.take(k as int).filter(
                    |t: TokenModel| t.user_id != user_id || token_active(t, now_ms),
                ),
            decreases self.sessions@.len() - k,
        {
            proof {
                assert(old_store.sessions[k as int] == self.sessions@[k as int]@);
                lemma_filter_take_unfold(
                    old_store.sessions,
                    |t: TokenModel| t.user_id != user_id || token_active(t, now_ms),
                    k as int,
                );
            }
            let t = &self.sessions[k];
            if t.user_id() != user_id || (!t.is_revoked() && now_ms <= t.expire_at()) {
                kept.push(self.sessions[k].duplicate());
            }
            proof {
                assert(token_dto_views(kept@) =~= old_store.sessions.take(k + 1).filter(
                    |t: TokenModel| t.user_id != user_id || token_active(t, now_ms),
                ));
            }
            k = k + 1;
        }
        self.sessions = kept;
        proof {
            assert(old_store.sessions.take(old_store.sessions.len() as int) =~= old_store.sessions);
            let s = self@;
            assert(s.sessions == old_store.sessions.filter(keep));
            assert forall|i2: int|
                0 <= i2 < s.sessions.len() && (#[trigger] s.sessions[i2]).user_id
                    == user_id implies token_active(s.sessions[i2], now_ms) by {
                Seq::lemma_filter_pred(old_store.sessions, keep, i2);
            }
            assert forall|id2: u128| id2 != user_id implies owned_sessions(s.sessions, id2)
                == owned_sessions(old_store.sessions, id2) by {
                lemma_filter_subsumed(old_store.sessions, keep, |t: TokenModel| t.user_id == id2);
            }
            assert(s.accounts == old_store.accounts);
            assert forall|i2: int| 0 <= i2 < s.sessions.len() implies has_account_id(
                s.accounts,
                (#[trigger] s.sessions[i2]).user_id,
            ) by {
                lemma_filter_member_of(old_store.sessions, keep, i2);
                let w = choose|w: int|
                    0 <= w < old_store.sessions.len() && old_store.sessions[w] == s.sessions[i2];
                assert(old_store.sessions[w] == s.sessions[i2]);
                assert(has_account_id(old_store.accounts, old_store.sessions[w].user_id));
            }
            assert(store_ok(s));
        }
    }

    /// Loads the whole aggregate for this identity, composing the account
    /// record with every session record owned by it.
    pub fn find_by_id(&self, user_id: u128) -> (r: Option<User>)
        requires
            store_ok(self@),
        ensures
            match r {
                Some(u) => account_index(self@.accounts, user_id) >= 0 && u@ == loaded_aggregate(
                    self@.accounts[account_index(self@.accounts, user_id)],
                    owned_sessions(self@.sessions, user_id),
                ),
                None => account_index(self@.accounts, user_id) == -1,
            },
    {
        match self.account_position(user_id) {
            None => None,
            Some(i) => {
                let session_dtos = self.sessions_for(user_id);
                let u = User::from_dto(&self.users[i], &session_dtos);
                proof {
                    assert(self@.accounts[i as int] == persisted_account(self.users@[i as int]@));
                }
                Some(u)
            },
        }
    }
}

/// Two positions of a filtered sequence come from two distinct positions of
/// the original, in the same order.
proof fn lemma_filter_members<A>(s: Seq<A>, pred: spec_fn(A) -> bool, i: int, j: int)
    requires
        0 <= i < j < s.filter(pred).len(),
    ensures
        exists|i0: int, j0: int|
            0 <= i0 < j0 < s.len() && s[i0] == s.filter(pred)[i] && s[j0] == s.filter(pred)[j],
    decreases s.len(),
{
    reveal(Seq::filter);
    if s.len() > 0 {
        let sub = s.drop_last().filter(pred);
        if pred(s.last()) {
            if j < sub.len() {
                lemma_filter_members(s.drop_last(), pred, i, j);
                let (i0, j0) = choose|i0: int, j0: int|
                    0 <= i0 < j0 < s.drop_last().len() && s.drop_last()[i0] == sub[i] && s.drop_last()[j0]
                        == sub[j];
                assert(s[i0] == s.filter(pred)[i] && s[j0] == s.filter(pred)[j]);
            } else {
                assert(j == sub.len());
                assert(s.filter(pred)[j] == s.last());
                lemma_filter_member_of(s.drop_last(), pred, i);
                let i0 = choose|i0: int|
                    0 <= i0 < s.drop_last().len() && s.drop_last()[i0] == sub[i];
                assert(s[i0] == s.filter(pred)[i] && s[s.len() - 1] == s.filter(pred)[j]);
            }
        } else {
            lemma_filter_members(s.drop_last(), pred, i, j);
            let (i0, j0) = choose|i0: int, j0: int|
                0 <= i0 < j0 < s.drop_last().len() && s.drop_last()[i0] == sub[i] && s.drop_last()[j0]
                    == sub[j];
            assert(s[i0] == s.filter(pred)[i] && s[j0] == s.filter(pred)[j]);
        }
    }
}

/// Every element of a filtered sequence occurs in the original.
proof fn lemma_filter_member_of<A>(s: Seq<A>, pred: spec_fn(A) -> bool, i: int)
    requires
        0 <= i < s.filter(pred).len(),
    ensures
        exists|i0: int| 0 <= i0 < s.len() && s[i0] == s.filter(pred)[i],
    decreases s.len(),
{
    reveal(Seq::filter);
    if s.len() > 0 {
        let sub = s.drop_last().filter(pred);
        if pred(s.last()) && i == sub.len() {
            assert(s[s.len() - 1] == s.filter(pred)[i]);
        } else {
            lemma_filter_member_of(s.drop_last(), pred, i);
            let i0 = choose|i0: int| 0 <= i0 < s.drop_last().len() && s.drop_last()[i0] == sub[i];
            assert(s[i0] == s.filter(pred)[i]);
        }
    }
}

/// An element satisfying the predicate survives filtering.
pub proof fn lemma_filter_keeps<A>(s: Seq<A>, pred: spec_fn(A) -> bool, i: int)
    requires
        0 <= i < s.len(),
        pred(s[i]),
    ensures
        exists|k: int| 0 <= k < s.filter(pred).len() && s.filter(pred)[k] == s[i],
    decreases s.len(),
{
    reveal(Seq::filter);
    if s.len() > 0 {
        let sub = s.drop_last().filter(pred);
        if i == s.len() - 1 {
            assert(s.filter(pred)[s.filter(pred).len() - 1] == s[i]);
        } else {
            lemma_filter_keeps(s.drop_last(), pred, i);
            let k = choose|k: int| 0 <= k < sub.len() && sub[k] == s.drop_last()[i];
            assert(s.filter(pred)[k] == s[i]);
        }
    }
}

} // verus!
