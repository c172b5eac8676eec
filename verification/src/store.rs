//! The relational store, modeled as in-memory tables: users, games and
//! rounds, with unique-id generation and a caller-driven clock. Every
//! row operation is a serialized read-modify-write on `&mut Store`, so
//! check-then-act sequences such as the membership append cannot
//! interleave.

use vstd::prelude::*;

verus! {

/// A user row.
#[derive(Debug)]
pub struct User {
    pub id: i32,
    pub username: String,
    pub email: String,
    pub password: String,
    pub update_at: i64,
    pub created_at: i64,
}

impl Clone for User {
    fn clone(&self) -> (r: Self)
        ensures
            r == *self,
    {
        User {
            id: self.id,
            username: self.username.clone(),
            email: self.email.clone(),
            password: self.password.clone(),
            update_at: self.update_at,
            created_at: self.created_at,
        }
    }
}

/// Credentials presented at login.
pub struct LoginUser {
    pub email: String,
    pub password: String,
}

/// Fields of a user row to be created.
pub struct NewUser {
    pub username: String,
    pub email: String,
    pub password: String,
}

/// Fields of a user row to be changed; an absent field is kept.
pub struct UpdatedUser {
    pub username: Option<String>,
    pub email: Option<String>,
    pub password: Option<String>,
}

/// A game row: the roster of player ids, in join order.
#[derive(Debug)]
pub struct Game {
    pub id: i32,
    pub ids_players: Vec<i32>,
    pub created_at: i64,
}

impl Clone for Game {
    fn clone(&self) -> (r: Self)
        ensures
            r.id == self.id,
            r.ids_players@ == self.ids_players@,
            r.created_at == self.created_at,
    {
        Game { id: self.id, ids_players: copy_ids(&self.ids_players), created_at: self.created_at }
    }
}

/// Fields of a game row to be created.
pub struct NewGame {
    pub ids_players: Vec<i32>,
}

/// The replacement roster for a game row.
pub struct UpdateGame {
    pub ids_players: Vec<i32>,
}

/// A round row, owned by a game.
#[derive(Debug)]
pub struct Round {
    pub id: i32,
    pub game_id: i32,
    pub data: String,
    pub created_at: i64,
}

impl Clone for Round {
    fn clone(&self) -> (r: Self)
        ensures
            r == *self,
    {
        Round {
            id: self.id,
            game_id: self.game_id,
            data: self.data.clone(),
            created_at: self.created_at,
        }
    }
}

/// Fields of a round row to be created.
pub struct NewRound {
    pub game_id: i32,
    pub data: String,
}

/// The replacement data for a round row.
pub struct UpdateRound {
    pub data: String,
}

/// Why a row operation failed.
#[derive(Clone, Copy, Debug, PartialEq, Eq, Structural)]
pub enum StoreError {
    /// No row with the requested id exists.
    NotFound,
    /// The change would duplicate a value that must be unique.
    UniqueViolation,
    /// The new row refers to an owning row that does not exist.
    ForeignKeyViolation,
}

fn copy_ids(v: &Vec<i32>) -> (r: Vec<i32>)
    ensures
        r@ == v@,
{
    let mut r: Vec<i32> = Vec::new();
    let mut i: usize = 0;
    while i < v.len()
        invariant
            i <= v@.len(),
            r@ =~= v@.subrange(0, i as int),
        decreases v@.len() - i,
    {
        r.push(v[i]);
        i = i + 1;
    }
    proof {
        assert(v@.subrange(0, v@.len() as int) =~= v@);
    }
    r
}

/// Whether a roster holds no player twice.
pub open spec fn nodup(s: Seq<i32>) -> bool {
    forall|a: int, b: int| 0 <= a < b < s.len() ==> s[a] != s[b]
}

/// A roster with every repeated player dropped, keeping the first
/// occurrence of each and the order of those occurrences.
pub open spec fn dedup(s: Seq<i32>) -> Seq<i32>
    decreases s.len(),
{
    if s.len() == 0 {
        Seq::empty()
    } else if s.drop_last().contains(s.last()) {
        dedup(s.drop_last())
    } else {
        dedup(s.drop_last()).push(s.last())
    }
}

pub proof fn lemma_dedup_contains(s: Seq<i32>)
    ensures
        forall|x: i32| dedup(s).contains(x) == s.contains(x),
    decreases s.len(),
{
    broadcast use vstd::seq_lib::group_seq_properties;

    if s.len() > 0 {
        lemma_dedup_contains(s.drop_last());
        assert forall|x: i32| dedup(s).contains(x) == s.contains(x) by {
            if s.contains(x) {
                let i = choose|i: int| 0 <= i < s.len() && s[i] == x;
                if i < s.len() - 1 {
                    assert(s.drop_last()[i] == x);
                    assert(s.drop_last().contains(x));
                } else {
                    if s.drop_last().contains(s.last()) {
                        assert(dedup(s.drop_last()).contains(x));
                    } else {
                        assert(dedup(s)[dedup(s).len() - 1] == x);
                    }
                }
                assert(dedup(s).contains(x));
            }
            if dedup(s).contains(x) {
                if s.drop_last().contains(s.last()) {
                    assert(s.drop_last().contains(x));
                    let i = choose|i: int| 0 <= i < s.drop_last().len() && s.drop_last()[i] == x;
                    assert(s[i] == x);
                } else {
                    let i = choose|i: int| 0 <= i < dedup(s).len() && dedup(s)[i] == x;
                    if i < dedup(s).len() - 1 {
                        assert(dedup(s.drop_last())[i] == x);
                        assert(s.drop_last().contains(x));
                        let j = choose|j: int|
                            0 <= j < s.drop_last().len() && s.drop_last()[j] == x;
                        assert(s[j] == x);
                    } else {
                        assert(s.last() == x);
                    }
                }
                assert(s.contains(x));
            }
        }
    }
}

pub proof fn lemma_dedup_nodup(s: Seq<i32>)
    ensures
        nodup(dedup(s)),
    decreases s.len(),
{
    if s.len() > 0 {
        lemma_dedup_nodup(s.drop_last());
        if !s.drop_last().contains(s.last()) {
            lemma_dedup_contains(s.drop_last());
            let d = dedup(s.drop_last()).push(s.last());
            assert forall|a: int, b: int| 0 <= a < b < d.len() implies d[a] != d[b] by {
                if b == d.len() - 1 {
                    assert(dedup(s.drop_last()).contains(d[a]));
                }
            }
        }
    }
}

/// A roster that already holds no player twice is kept as it is.
pub proof fn lemma_dedup_of_nodup(s: Seq<i32>)
    requires
        nodup(s),
    ensures
        dedup(s) == s,
    decreases s.len(),
{
    if s.len() > 0 {
        assert forall|a: int, b: int|
            0 <= a < b < s.drop_last().len() implies s.drop_last()[a] != s.drop_last()[b] by {
            assert(s[a] == s.drop_last()[a] && s[b] == s.drop_last()[b]);
        }
        lemma_dedup_of_nodup(s.drop_last());
        if s.drop_last().contains(s.last()) {
            let i = choose|i: int| 0 <= i < s.drop_last().len() && s.drop_last()[i] == s.last();
            assert(s[i] == s[s.len() - 1]);
            assert(false);
        }
        assert(dedup(s) =~= s);
    }
}

/// The in-memory store: three tables, the next fresh id of each, and
/// the clock its caller advances.
pub struct Store {
    pub users: Vec<User>,
    pub games: Vec<Game>,
    pub rounds: Vec<Round>,
    pub next_user_id: i32,
    pub next_game_id: i32,
    pub next_round_id: i32,
    pub now: i64,
}

impl Store {
    /// Well-formedness: ids are positive, unique and below the next
    /// fresh id; emails are unique; rosters hold no player twice; every
    /// round belongs to an existing game.
    pub open spec fn wf(&self) -> bool {
        &&& 1 <= self.next_user_id
        &&& 1 <= self.next_game_id
        &&& 1 <= self.next_round_id
        &&& forall|i: int, j: int|
            #![trigger self.users@[i], self.users@[j]]
            0 <= i < j < self.users@.len() ==> self.users@[i].id != self.users@[j].id
                && self.users@[i].email@ != self.users@[j].email@
        &&& forall|i: int|
            0 <= i < self.users@.len() ==> 0 < (#[trigger] self.users@[i]).id < self.next_user_id
        &&& forall|i: int, j: int|
            #![trigger self.games@[i], self.games@[j]]
            0 <= i < j < self.games@.len() ==> self.games@[i].id != self.games@[j].id
        &&& forall|i: int|
            0 <= i < self.games@.len() ==> 0 < (#[trigger] self.games@[i]).id < self.next_game_id
        &&& forall|i: int|
            0 <= i < self.games@.len() ==> nodup((#[trigger] self.games@[i]).ids_players@)
        &&& forall|i: int, j: int|
            #![trigger self.rounds@[i], self.rounds@[j]]
            0 <= i < j < self.rounds@.len() ==> self.rounds@[i].id != self.rounds@[j].id
        &&& forall|i: int|
            0 <= i < self.rounds@.len() ==> 0 < (#[trigger] self.rounds@[i]).id
                < self.next_round_id
        &&& forall|i: int|
            0 <= i < self.rounds@.len() ==> self.spec_has_game(
                (#[trigger] self.rounds@[i]).game_id,
            )
    }

    /// Whether a game row with this id exists.
    pub open spec fn spec_has_game(&self, id: i32) -> bool {
        exists|i: int| 0 <= i < self.games@.len() && self.games@[i].id == id
    }

    /// Whether a user row with this email exists.
    pub open spec fn spec_has_email(&self, email: Seq<char>) -> bool {
        exists|i: int| 0 <= i < self.users@.len() && self.users@[i].email@ == email
    }

    /// An empty store.
    pub fn new() -> (s: Store)
        ensures
            s.wf(),
            s.users@.len() == 0,
            s.games@.len() == 0,
            s.rounds@.len() == 0,
            s.next_user_id == 1,
            s.next_game_id == 1,
            s.next_round_id == 1,
            s.now == 0,
    {
        Store {
            users: Vec::new(),
            games: Vec::new(),
            rounds: Vec::new(),
            next_user_id: 1,
            next_game_id: 1,
            next_round_id: 1,
            now: 0,
        }
    }

    /// Moves the clock; timestamps of rows created or changed from now
    /// on carry the new time.
    pub fn set_now(&mut self, t: i64)
        ensures
            final(self).now == t,
            final(self).users == old(self).users,
            final(self).games == old(self).games,
            final(self).rounds == old(self).rounds,
            final(self).next_user_id == old(self).next_user_id,
            final(self).next_game_id == old(self).next_game_id,
            final(self).next_round_id == old(self).next_round_id,
            old(self).wf() ==> final(self).wf(),
    {
        self.now = t;
    }
}

/// What a successful user update guarantees: some row carried the id,
/// and the store now holds it rewritten as the returned row says.
pub open spec fn user_update_post(pre: Store, post: Store, id: i32, upd: UpdatedUser, u: User) -> bool {
    exists|i: int|
        {
            &&& 0 <= i < pre.users@.len()
            &&& pre.users@[i].id == id
            &&& u.id == id
            &&& u.username@ == (match upd.username {
                Some(n) => n@,
                None => pre.users@[i].username@,
            })
            &&& u.email@ == (match upd.email {
                Some(e) => e@,
                None => pre.users@[i].email@,
            })
            &&& u.password@ == (match upd.password {
                Some(p) => p@,
                None => pre.users@[i].password@,
            })
            &&& u.created_at == pre.users@[i].created_at
            &&& u.update_at == pre.now
            &&& post.users@ == pre.users@.update(i, u)
        }
}

/// Well-formedness carries over a change that touches only the user
/// table, once the user clauses themselves are re-established.
proof fn lemma_wf_from_users_change(pre: Store, post: Store)
    requires
        pre.wf(),
        post.games == pre.games,
        post.rounds == pre.rounds,
        post.next_game_id == pre.next_game_id,
        post.next_round_id == pre.next_round_id,
        1 <= post.next_user_id,
        forall|i: int, j: int|
            #![trigger post.users@[i], post.users@[j]]
            0 <= i < j < post.users@.len() ==> post.users@[i].id != post.users@[j].id
                && post.users@[i].email@ != post.users@[j].email@,
        forall|i: int|
            0 <= i < post.users@.len() ==> 0 < (#[trigger] post.users@[i]).id
                < post.next_user_id,
    ensures
        post.wf(),
{
    assert forall|a: int|
        0 <= a < post.rounds@.len() implies post.spec_has_game(
        (#[trigger] post.rounds@[a]).game_id,
    ) by {
        assert(pre.spec_has_game(pre.rounds@[a].game_id));
        let w = choose|w: int|
            0 <= w < pre.games@.len() && pre.games@[w].id == pre.rounds@[a].game_id;
        assert(post.games@[w].id == post.rounds@[a].game_id);
    }
}

/// The tables other than `users` are untouched.
pub open spec fn same_but_users(pre: Store, post: Store) -> bool {
    &&& post.games == pre.games
    &&& post.rounds == pre.rounds
    &&& post.next_game_id == pre.next_game_id
    &&& post.next_round_id == pre.next_round_id
    &&& post.now == pre.now
}

impl User {
    /// The user row with the given id.
    pub fn get_by_id(id: i32, store: &Store) -> (r: Result<User, StoreError>)
        ensures
            match r {
                Ok(u) => exists|i: int|
                    0 <= i < store.users@.len() && store.users@[i] == u && u.id == id,
                Err(e) => e == StoreError::NotFound && forall|i: int|
                    0 <= i < store.users@.len() ==> (#[trigger] store.users@[i]).id != id,
            },
    {
        let mut i: usize = 0;
        while i < store.users.len()
            invariant
                i <= store.users@.len(),
                forall|j: int| 0 <= j < i ==> (#[trigger] store.users@[j]).id != id,
            decreases store.users@.len() - i,
        {
            if store.users[i].id == id {
                return Ok(store.users[i].clone());
            }
            i = i + 1;
        }
        Err(StoreError::NotFound)
    }

    /// All user rows, in storage order.
    pub fn get_all(store: &Store) -> (r: Vec<User>)
        ensures
            r@ == store.users@,
    {
        let mut r: Vec<User> = Vec::new();
        let mut i: usize = 0;
        while i < store.users.len()
            invariant
                i <= store.users@.len(),
                r@ =~= store.users@.subrange(0, i as int),
            decreases store.users@.len() - i,
        {
            r.push(store.users[i].clone());
            i = i + 1;
        }
        proof {
            assert(store.users@.subrange(0, store.users@.len() as int) =~= store.users@);
        }
        r
    }

    /// Creates a user row, enforcing email uniqueness and returning the
    /// created row with its fresh id and timestamps.
    #[verifier::rlimit(50)]
    #[verifier::loop_isolation(false)]
    pub fn insert(new_user: NewUser, store: &mut Store) -> (r: Result<User, StoreError>)
        requires
            old(store).wf(),
            old(store).next_user_id < i32::MAX,
        ensures
            final(store).wf(),
            same_but_users(*old(store), *final(store)),
            match r {
                Ok(u) => {
                    &&& !old(store).spec_has_email(new_user.email@)
                    &&& u.id == old(store).next_user_id
                    &&& u.username@ == new_user.username@
                    &&& u.email@ == new_user.email@
                    &&& u.password@ == new_user.password@
                    &&& u.created_at == old(store).now
                    &&& u.update_at == old(store).now
                    &&& final(store).users@ == old(store).users@.push(u)
                    &&& final(store).next_user_id == old(store).next_user_id + 1
                },
                Err(e) => {
                    &&& e == StoreError::UniqueViolation
                    &&& old(store).spec_has_email(new_user.email@)
                    &&& *final(store) == *old(store)
                },
            },
    {
        let mut i: usize = 0;
        while i < store.users.len()
            invariant
                *store == *old(store),
                i <= store.users@.len(),
                forall|j: int|
                    0 <= j < i ==> (#[trigger] store.users@[j]).email@ != new_user.email@,
            decreases store.users@.len() - i,
        {
            if store.users[i].email == new_user.email {
                proof {
                    assert(store.users@[i as int].email@ == new_user.email@);
                }
                return Err(StoreError::UniqueViolation);
            }
            i = i + 1;
        }
        let u = User {
            id: store.next_user_id,
            username: new_user.username,
            email: new_user.email,
            password: new_user.password,
            update_at: store.now,
            created_at: store.now,
        };
        let out = u.clone();
        store.users.push(u);
        store.next_user_id = store.next_user_id + 1;
        proof {
            let pre = *old(store);
            let n = pre.users@.len() as int;
            assert(store.users@ == pre.users@.push(out));
            assert forall|a: int, b: int|
                #![trigger store.users@[a], store.users@[b]]
                0 <= a < b < store.users@.len() implies store.users@[a].id != store.users@[b].id
                && store.users@[a].email@ != store.users@[b].email@ by {
                if b < n {
                    assert(store.users@[a] == pre.users@[a]);
                    assert(store.users@[b] == pre.users@[b]);
                } else {
                    assert(store.users@[b] == out);
                    assert(store.users@[a] == pre.users@[a]);
                    assert(pre.users@[a].email@ != out.email@);
                }
            }
            assert forall|a: int| 0 <= a < store.users@.len() implies 0 < (#[trigger] store.users@[a]).id
                < store.next_user_id by {
                if a < n {
                    assert(store.users@[a] == pre.users@[a]);
                }
            }
            lemma_wf_from_users_change(pre, *store);
        }
        Ok(out)
    }

    /// The user row with the given email, as looked up at login.
    pub fn login(login_user: &LoginUser, store: &Store) -> (r: Result<User, StoreError>)
        ensures
            match r {
                Ok(u) => exists|i: int|
                    0 <= i < store.users@.len() && store.users@[i] == u && u.email@
                        == login_user.email@,
                Err(e) => e == StoreError::NotFound && !store.spec_has_email(login_user.email@),
            },
    {
        let mut i: usize = 0;
        while i < store.users.len()
            invariant
                i <= store.users@.len(),
                forall|j: int|
                    0 <= j < i ==> (#[trigger] store.users@[j]).email@ != login_user.email@,
            decreases store.users@.len() - i,
        {
            if store.users[i].email == login_user.email {
                return Ok(store.users[i].clone());
            }
            i = i + 1;
        }
        Err(StoreError::NotFound)
    }

    /// Rewrites the given fields of a user row, keeping the others; the
    /// new email, if any, must stay unique; the change stamps the row
    /// with the store's clock.
    #[verifier::rlimit(50)]
    #[verifier::loop_isolation(false)]
    pub fn update(id: i32, updated_user: UpdatedUser, store: &mut Store) -> (r: Result<
        User,
        StoreError,
    >)
        requires
            old(store).wf(),
        ensures
            final(store).wf(),
            same_but_users(*old(store), *final(store)),
            final(store).next_user_id == old(store).next_user_id,
            match r {
                Ok(u) => user_update_post(
                    *old(store),
                    *final(store),
                    id,
                    updated_user,
                    u,
                ),
                Err(StoreError::NotFound) => {
                    &&& forall|i: int|
                        0 <= i < old(store).users@.len() ==> (#[trigger] old(
                            store,
                        ).users@[i]).id != id
                    &&& *final(store) == *old(store)
                },
                Err(StoreError::UniqueViolation) => {
                    &&& updated_user.email is Some
                    &&& exists|i: int, j: int|
                        0 <= i < old(store).users@.len() && 0 <= j < old(store).users@.len() && i
                            != j && old(store).users@[i].id == id && old(store).users@[j].email@
                            == updated_user.email->0@
                    &&& *final(store) == *old(store)
                },
                Err(StoreError::ForeignKeyViolation) => false,
            },
    {
        let mut i: usize = 0;
        while i < store.users.len()
            invariant
                *store == *old(store),
                i <= store.users@.len(),
                forall|j: int| 0 <= j < i ==> (#[trigger] store.users@[j]).id != id,
            decreases store.users@.len() - i,
        {
            if store.users[i].id == id {
                if let Some(e) = &updated_user.email {
                    let mut j: usize = 0;
                    while j < store.users.len()
                        invariant
                            *store == *old(store),
                            i < store.users@.len(),
                            j <= store.users@.len(),
                            store.users@[i as int].id == id,
                            forall|k: int|
                                0 <= k < j && k != i ==> (#[trigger] store.users@[k]).email@
                                    != e@,
                        decreases store.users@.len() - j,
                    {
                        if j != i && store.users[j].email == *e {
                            return Err(StoreError::UniqueViolation);
                        }
                        j = j + 1;
                    }
                }
                let prior = &store.users[i];
                let u = User {
                    id,
                    username: match &updated_user.username {
                        Some(n) => n.clone(),
                        None => prior.username.clone(),
                    },
                    email: match &updated_user.email {
                        Some(e) => e.clone(),
                        None => prior.email.clone(),
                    },
                    password: match &updated_user.password {
                        Some(p) => p.clone(),
                        None => prior.password.clone(),
                    },
                    update_at: store.now,
                    created_at: prior.created_at,
                };
                let out = u.clone();
                store.users.set(i, u);
                proof {
                    let pre = *old(store);
                    assert(store.users@ == pre.users@.update(i as int, out));
                    assert(out.id == id && pre.users@[i as int].id == id);
                    assert forall|a: int, b: int|
                        #![trigger store.users@[a], store.users@[b]]
                        0 <= a < b < store.users@.len() implies store.users@[a].id
                        != store.users@[b].id && store.users@[a].email@
                        != store.users@[b].email@ by {
                        if a != i {
                            assert(store.users@[a] == pre.users@[a]);
                        }
                        if b != i {
                            assert(store.users@[b] == pre.users@[b]);
                        }
                        if a == i || b == i {
                            let k: int = if a == i {
                                b
                            } else {
                                a
                            };
                            assert(pre.users@[k].id != pre.users@[i as int].id);
                            assert(pre.users@[k].email@ != pre.users@[i as int].email@);
                        }
                    }
                    assert forall|a: int|
                        0 <= a < store.users@.len() implies 0 < (#[trigger] store.users@[a]).id
                        < store.next_user_id by {
                        if a != i {
                            assert(store.users@[a] == pre.users@[a]);
                        }
                    }
                    let iw: int = i as int;
                    assert(0 <= iw < pre.users@.len() && pre.users@[iw].id == id && out.id == id
                        && out.username@ == (match updated_user.username {
                        Some(n) => n@,
                        None => pre.users@[iw].username@,
                    }) && out.email@ == (match updated_user.email {
                        Some(e2) => e2@,
                        None => pre.users@[iw].email@,
                    }) && out.password@ == (match updated_user.password {
                        Some(p) => p@,
                        None => pre.users@[iw].password@,
                    }) && out.created_at == pre.users@[iw].created_at && out.update_at == pre.now
                        && store.users@ == pre.users@.update(iw, out));
                    lemma_wf_from_users_change(pre, *store);
                    assert(user_update_post(pre, *store, id, updated_user, out)) by {
                        assert(0 <= iw < pre.users@.len() && pre.users@[iw].id == id
                            && out.id == id && out.username@ == (match updated_user.username {
                            Some(n) => n@,
                            None => pre.users@[iw].username@,
                        }) && out.email@ == (match updated_user.email {
                            Some(e2) => e2@,
                            None => pre.users@[iw].email@,
                        }) && out.password@ == (match updated_user.password {
                            Some(p) => p@,
                            None => pre.users@[iw].password@,
                        }) && out.created_at == pre.users@[iw].created_at && out.update_at
                            == pre.now && store.users@ == pre.users@.update(iw, out));
                    }
                }
                return Ok(out);
            }
            i = i + 1;
        }
        Err(StoreError::NotFound)
    }

    /// Removes the user row with the given id; the count says how many
    /// rows were removed.
    #[verifier::loop_isolation(false)]
    pub fn delete(id: i32, store: &mut Store) -> (r: Result<usize, StoreError>)
        requires
            old(store).wf(),
        ensures
            final(store).wf(),
            same_but_users(*old(store), *final(store)),
            final(store).next_user_id == old(store).next_user_id,
            match r {
                Ok(n) => (n == 1 || n == 0) && (n == 1 <==> exists|i: int|
                    0 <= i < old(store).users@.len() && old(store).users@[i].id == id) && (n == 1
                    ==> exists|i: int|
                    0 <= i < old(store).users@.len() && old(store).users@[i].id == id
                        && final(store).users@ == old(store).users@.remove(i)) && (n == 0 ==> *final(store)
                    == *old(store)),
                Err(_) => false,
            },
    {
        let mut i: usize = 0;
        while i < store.users.len()
            invariant
                *store == *old(store),
                i <= store.users@.len(),
                forall|j: int| 0 <= j < i ==> (#[trigger] store.users@[j]).id != id,
            decreases store.users@.len() - i,
        {
            if store.users[i].id == id {
                store.users.remove(i);
                proof {
                    old(store).users@.remove_ensures(i as int);
                    assert forall|a: int, b: int|
                        #![trigger store.users@[a], store.users@[b]]
                        0 <= a < b < store.users@.len() implies store.users@[a].id
                        != store.users@[b].id && store.users@[a].email@
                        != store.users@[b].email@ by {
                        let a0: int = if a < i { a } else { a + 1 };
                        let b0: int = if b < i { b } else { b + 1 };
                        assert(store.users@[a] == old(store).users@[a0]);
                        assert(store.users@[b] == old(store).users@[b0]);
                    }
                    assert forall|a: int|
                        0 <= a < store.users@.len() implies 0 < (#[trigger] store.users@[a]).id
                        < store.next_user_id by {
                        let a0: int = if a < i { a } else { a + 1 };
                        assert(store.users@[a] == old(store).users@[a0]);
                    }
                }
                return Ok(1);
            }
            i = i + 1;
        }
        Ok(0)
    }
}


/// The tables other than `games` are untouched.
pub open spec fn same_but_games(pre: Store, post: Store) -> bool {
    &&& post.users == pre.users
    &&& post.rounds == pre.rounds
    &&& post.next_user_id == pre.next_user_id
    &&& post.next_round_id == pre.next_round_id
    &&& post.now == pre.now
}

/// The tables other than `rounds` are untouched.
pub open spec fn same_but_rounds(pre: Store, post: Store) -> bool {
    &&& post.users == pre.users
    &&& post.games == pre.games
    &&& post.next_user_id == pre.next_user_id
    &&& post.next_game_id == pre.next_game_id
    &&& post.now == pre.now
}

/// What a successful game update guarantees: some row carried the id,
/// and the store now holds it with the replacement roster.
pub open spec fn game_update_post(
    pre: Store,
    post: Store,
    id: i32,
    players: Seq<i32>,
    g: Game,
) -> bool {
    exists|i: int|
        {
            &&& 0 <= i < pre.games@.len()
            &&& (#[trigger] pre.games@[i]).id == id
            &&& g.id == id
            &&& g.ids_players@ == players
            &&& g.created_at == pre.games@[i].created_at
            &&& post.games@.len() == pre.games@.len()
            &&& post.games@[i].id == g.id
            &&& post.games@[i].ids_players@ == g.ids_players@
            &&& post.games@[i].created_at == g.created_at
            &&& forall|j: int|
                0 <= j < pre.games@.len() && j != i ==> post.games@[j] == pre.games@[j]
        }
}

/// Well-formedness carries over a change that touches only the game
/// table, keeps every prior row's id in place, and keeps the game
/// clauses themselves.
proof fn lemma_wf_from_games_change(pre: Store, post: Store)
    requires
        pre.wf(),
        post.users == pre.users,
        post.rounds == pre.rounds,
        post.next_user_id == pre.next_user_id,
        post.next_round_id == pre.next_round_id,
        1 <= post.next_game_id,
        post.games@.len() >= pre.games@.len(),
        forall|i: int|
            0 <= i < pre.games@.len() ==> (#[trigger] post.games@[i]).id == pre.games@[i].id,
        forall|i: int, j: int|
            #![trigger post.games@[i], post.games@[j]]
            0 <= i < j < post.games@.len() ==> post.games@[i].id != post.games@[j].id,
        forall|i: int|
            0 <= i < post.games@.len() ==> 0 < (#[trigger] post.games@[i]).id
                < post.next_game_id,
        forall|i: int|
            0 <= i < post.games@.len() ==> nodup((#[trigger] post.games@[i]).ids_players@),
    ensures
        post.wf(),
{
    assert forall|a: int|
        0 <= a < post.rounds@.len() implies post.spec_has_game(
        (#[trigger] post.rounds@[a]).game_id,
    ) by {
        assert(pre.spec_has_game(pre.rounds@[a].game_id));
        let w = choose|w: int|
            0 <= w < pre.games@.len() && pre.games@[w].id == pre.rounds@[a].game_id;
        assert(post.games@[w].id == post.rounds@[a].game_id);
    }
}

pub(crate) fn contains_player(v: &Vec<i32>, x: i32) -> (r: bool)
    ensures
        r == v@.contains(x),
{
    let mut i: usize = 0;
    while i < v.len()
        invariant
            i <= v@.len(),
            forall|j: int| 0 <= j < i ==> v@[j] != x,
        decreases v@.len() - i,
    {
        if v[i] == x {
            return true;
        }
        i = i + 1;
    }
    false
}

fn dedup_players(v: &Vec<i32>) -> (r: Vec<i32>)
    ensures
        r@ == dedup(v@),
{
    let mut r: Vec<i32> = Vec::new();
    let mut i: usize = 0;
    while i < v.len()
        invariant
            i <= v@.len(),
            r@ == dedup(v@.subrange(0, i as int)),
        decreases v@.len() - i,
    {
        proof {
            let t = v@.subrange(0, i as int + 1);
            assert(t.drop_last() =~= v@.subrange(0, i as int));
            assert(t.last() == v@[i as int]);
            lemma_dedup_contains(v@.subrange(0, i as int));
        }
        if !contains_player(&r, v[i]) {
            r.push(v[i]);
        }
        i = i + 1;
    }
    proof {
        assert(v@.subrange(0, v@.len() as int) =~= v@);
    }
    r
}

impl Game {
    /// The game row with the given id.
    pub fn get_by_id(store: &Store, id: i32) -> (r: Result<Game, StoreError>)
        ensures
            match r {
                Ok(g) => exists|i: int|
                    0 <= i < store.games@.len() && (#[trigger] store.games@[i]).id == id && g.id
                        == id && g.ids_players@ == store.games@[i].ids_players@ && g.created_at
                        == store.games@[i].created_at,
                Err(e) => e == StoreError::NotFound && !store.spec_has_game(id),
            },
    {
        let mut i: usize = 0;
        while i < store.games.len()
            invariant
                i <= store.games@.len(),
                forall|j: int| 0 <= j < i ==> (#[trigger] store.games@[j]).id != id,
            decreases store.games@.len() - i,
        {
            if store.games[i].id == id {
                return Ok(store.games[i].clone());
            }
            i = i + 1;
        }
        Err(StoreError::NotFound)
    }

    /// All game rows, in storage order.
    pub fn get_all(store: &Store) -> (r: Vec<Game>)
        ensures
            r@.len() == store.games@.len(),
            forall|i: int|
                0 <= i < r@.len() ==> (#[trigger] r@[i]).id == store.games@[i].id
                    && r@[i].ids_players@ == store.games@[i].ids_players@ && r@[i].created_at
                    == store.games@[i].created_at,
    {
        let mut r: Vec<Game> = Vec::new();
        let mut i: usize = 0;
        while i < store.games.len()
            invariant
                i <= store.games@.len(),
                r@.len() == i,
                forall|j: int|
                    0 <= j < i ==> (#[trigger] r@[j]).id == store.games@[j].id
                        && r@[j].ids_players@ == store.games@[j].ids_players@ && r@[j].created_at
                        == store.games@[j].created_at,
            decreases store.games@.len() - i,
        {
            r.push(store.games[i].clone());
            i = i + 1;
        }
        r
    }

    /// Creates a game row; the stored roster is the given one with
    /// every repeated player dropped, so the roster invariant holds
    /// from the start.
    #[verifier::rlimit(50)]
    #[verifier::loop_isolation(false)]
    pub fn insert(store: &mut Store, new_game: NewGame) -> (r: Result<Game, StoreError>)
        requires
            old(store).wf(),
            old(store).next_game_id < i32::MAX,
        ensures
            final(store).wf(),
            same_but_games(*old(store), *final(store)),
            match r {
                Ok(g) => {
                    &&& g.id == old(store).next_game_id
                    &&& g.ids_players@ == dedup(new_game.ids_players@)
                    &&& g.created_at == old(store).now
                    &&& final(store).games@.len() == old(store).games@.len() + 1
                    &&& final(store).games@[old(store).games@.len() as int].id == g.id
                    &&& final(store).games@[old(store).games@.len() as int].ids_players@
                        == g.ids_players@
                    &&& final(store).games@[old(store).games@.len() as int].created_at
                        == g.created_at
                    &&& forall|j: int|
                        0 <= j < old(store).games@.len() ==> final(store).games@[j] == old(
                            store,
                        ).games@[j]
                    &&& final(store).next_game_id == old(store).next_game_id + 1
                },
                Err(_) => false,
            },
    {
        let g = Game {
            id: store.next_game_id,
            ids_players: dedup_players(&new_game.ids_players),
            created_at: store.now,
        };
        let out = g.clone();
        store.games.push(g);
        store.next_game_id = store.next_game_id + 1;
        proof {
            let pre = *old(store);
            let n = pre.games@.len() as int;
            lemma_dedup_nodup(new_game.ids_players@);
            assert forall|a: int, b: int|
                #![trigger store.games@[a], store.games@[b]]
                0 <= a < b < store.games@.len() implies store.games@[a].id
                != store.games@[b].id by {
                assert(store.games@[a] == pre.games@[a]);
                if b < n {
                    assert(store.games@[b] == pre.games@[b]);
                }
            }
            assert forall|a: int|
                0 <= a < store.games@.len() implies 0 < (#[trigger] store.games@[a]).id
                < store.next_game_id by {
                if a < n {
                    assert(store.games@[a] == pre.games@[a]);
                }
            }
            assert forall|a: int|
                0 <= a < store.games@.len() implies nodup(
                (#[trigger] store.games@[a]).ids_players@,
            ) by {
                if a < n {
                    assert(store.games@[a] == pre.games@[a]);
                }
            }
            assert forall|i: int|
                0 <= i < pre.games@.len() implies (#[trigger] store.games@[i]).id
                == pre.games@[i].id by {
                assert(store.games@[i] == pre.games@[i]);
            }
            lemma_wf_from_games_change(pre, *store);
        }
        Ok(out)
    }

    /// Replaces a game row's roster, with repeated players dropped, and
    /// returns the updated row.
    #[verifier::rlimit(50)]
    #[verifier::loop_isolation(false)]
    pub fn update(store: &mut Store, id: i32, new_game: UpdateGame) -> (r: Result<
        Game,
        StoreError,
    >)
        requires
            old(store).wf(),
        ensures
            final(store).wf(),
            same_but_games(*old(store), *final(store)),
            final(store).next_game_id == old(store).next_game_id,
            match r {
                Ok(g) => game_update_post(
                    *old(store),
                    *final(store),
                    id,
                    dedup(new_game.ids_players@),
                    g,
                ),
                Err(e) => e == StoreError::NotFound && !old(store).spec_has_game(id)
                    && *final(store) == *old(store),
            },
    {
        let mut i: usize = 0;
        while i < store.games.len()
            invariant
                *store == *old(store),
                i <= store.games@.len(),
                forall|j: int| 0 <= j < i ==> (#[trigger] store.games@[j]).id != id,
            decreases store.games@.len() - i,
        {
            if store.games[i].id == id {
                let g = Game {
                    id,
                    ids_players: dedup_players(&new_game.ids_players),
                    created_at: store.games[i].created_at,
                };
                let out = g.clone();
                store.games.set(i, g);
                proof {
                    let pre = *old(store);
                    let iw: int = i as int;
                    lemma_dedup_nodup(new_game.ids_players@);
                    assert forall|a: int, b: int|
                        #![trigger store.games@[a], store.games@[b]]
                        0 <= a < b < store.games@.len() implies store.games@[a].id
                        != store.games@[b].id by {
                        if a != iw {
                            assert(store.games@[a] == pre.games@[a]);
                        }
                        if b != iw {
                            assert(store.games@[b] == pre.games@[b]);
                        }
                        assert(pre.games@[a].id != pre.games@[b].id);
                    }
                    assert forall|a: int|
                        0 <= a < store.games@.len() implies 0 < (#[trigger] store.games@[a]).id
                        < store.next_game_id by {
                        if a != iw {
                            assert(store.games@[a] == pre.games@[a]);
                        }
                    }
                    assert forall|a: int|
                        0 <= a < store.games@.len() implies nodup(
                        (#[trigger] store.games@[a]).ids_players@,
                    ) by {
                        if a != iw {
                            assert(store.games@[a] == pre.games@[a]);
                        }
                    }
                    assert forall|a: int|
                        0 <= a < pre.games@.len() implies (#[trigger] store.games@[a]).id
                        == pre.games@[a].id by {
                        if a != iw {
                            assert(store.games@[a] == pre.games@[a]);
                        }
                    }
                    lemma_wf_from_games_change(pre, *store);
                    assert(game_update_post(
                        pre,
                        *store,
                        id,
                        dedup(new_game.ids_players@),
                        out,
                    )) by {
                        assert(0 <= iw < pre.games@.len() && pre.games@[iw].id == id && out.id
                            == id && out.ids_players@ == dedup(new_game.ids_players@)
                            && out.created_at == pre.games@[iw].created_at && store.games@.len()
                            == pre.games@.len() && store.games@[iw].id == out.id
                            && store.games@[iw].ids_players@ == out.ids_players@
                            && store.games@[iw].created_at == out.created_at);
                        assert(forall|j: int|
                            0 <= j < pre.games@.len() && j != iw ==> store.games@[j]
                                == pre.games@[j]);
                    }
                }
                return Ok(out);
            }
            i = i + 1;
        }
        Err(StoreError::NotFound)
    }
}


/// The rounds that belong to a game, in storage order.
pub open spec fn rounds_for(rs: Seq<Round>, game_id: i32) -> Seq<Round>
    decreases rs.len(),
{
    if rs.len() == 0 {
        Seq::empty()
    } else if rs.last().game_id == game_id {
        rounds_for(rs.drop_last(), game_id).push(rs.last())
    } else {
        rounds_for(rs.drop_last(), game_id)
    }
}

/// What a successful round update guarantees: some row carried the id,
/// and the store now holds it with the replacement data.
pub open spec fn round_update_post(pre: Store, post: Store, id: i32, data: Seq<char>, ro: Round) -> bool {
    exists|i: int|
        {
            &&& 0 <= i < pre.rounds@.len()
            &&& (#[trigger] pre.rounds@[i]).id == id
            &&& ro.id == id
            &&& ro.game_id == pre.rounds@[i].game_id
            &&& ro.data@ == data
            &&& ro.created_at == pre.rounds@[i].created_at
            &&& post.rounds@ == pre.rounds@.update(i, ro)
        }
}

/// Well-formedness carries over a change that touches only the round
/// table, keeps every prior row in place, and keeps the round clauses
/// themselves.
proof fn lemma_wf_from_rounds_change(pre: Store, post: Store)
    requires
        pre.wf(),
        post.users == pre.users,
        post.games == pre.games,
        post.next_user_id == pre.next_user_id,
        post.next_game_id == pre.next_game_id,
        1 <= post.next_round_id,
        forall|i: int, j: int|
            #![trigger post.rounds@[i], post.rounds@[j]]
            0 <= i < j < post.rounds@.len() ==> post.rounds@[i].id != post.rounds@[j].id,
        forall|i: int|
            0 <= i < post.rounds@.len() ==> 0 < (#[trigger] post.rounds@[i]).id
                < post.next_round_id,
        forall|i: int|
            0 <= i < post.rounds@.len() ==> pre.spec_has_game(
                (#[trigger] post.rounds@[i]).game_id,
            ),
    ensures
        post.wf(),
{
    assert forall|a: int|
        0 <= a < post.rounds@.len() implies post.spec_has_game(
        (#[trigger] post.rounds@[a]).game_id,
    ) by {
        assert(pre.spec_has_game(post.rounds@[a].game_id));
        let w = choose|w: int|
            0 <= w < pre.games@.len() && pre.games@[w].id == post.rounds@[a].game_id;
        assert(post.games@[w].id == post.rounds@[a].game_id);
    }
}

impl Round {
    /// Creates a round row; the owning game must exist.
    #[verifier::rlimit(50)]
    #[verifier::loop_isolation(false)]
    pub fn insert(store: &mut Store, new_round: NewRound) -> (r: Result<Round, StoreError>)
        requires
            old(store).wf(),
            old(store).next_round_id < i32::MAX,
        ensures
            final(store).wf(),
            same_but_rounds(*old(store), *final(store)),
            match r {
                Ok(ro) => {
                    &&& old(store).spec_has_game(new_round.game_id)
                    &&& ro.id == old(store).next_round_id
                    &&& ro.game_id == new_round.game_id
                    &&& ro.data@ == new_round.data@
                    &&& ro.created_at == old(store).now
                    &&& final(store).rounds@ == old(store).rounds@.push(ro)
                    &&& final(store).next_round_id == old(store).next_round_id + 1
                },
                Err(e) => {
                    &&& e == StoreError::ForeignKeyViolation
                    &&& !old(store).spec_has_game(new_round.game_id)
                    &&& *final(store) == *old(store)
                },
            },
    {
        match Game::get_by_id(store, new_round.game_id) {
            Ok(_) => {},
            Err(_) => {
                return Err(StoreError::ForeignKeyViolation);
            },
        }
        let ro = Round {
            id: store.next_round_id,
            game_id: new_round.game_id,
            data: new_round.data,
            created_at: store.now,
        };
        let out = ro.clone();
        store.rounds.push(ro);
        store.next_round_id = store.next_round_id + 1;
        proof {
            let pre = *old(store);
            let n = pre.rounds@.len() as int;
            assert forall|a: int, b: int|
                #![trigger store.rounds@[a], store.rounds@[b]]
                0 <= a < b < store.rounds@.len() implies store.rounds@[a].id
                != store.rounds@[b].id by {
                assert(store.rounds@[a] == pre.rounds@[a]);
                if b < n {
                    assert(store.rounds@[b] == pre.rounds@[b]);
                }
            }
            assert forall|a: int|
                0 <= a < store.rounds@.len() implies 0 < (#[trigger] store.rounds@[a]).id
                < store.next_round_id by {
                if a < n {
                    assert(store.rounds@[a] == pre.rounds@[a]);
                }
            }
            assert forall|a: int|
                0 <= a < store.rounds@.len() implies pre.spec_has_game(
                (#[trigger] store.rounds@[a]).game_id,
            ) by {
                if a < n {
                    assert(store.rounds@[a] == pre.rounds@[a]);
                }
            }
            lemma_wf_from_rounds_change(pre, *store);
        }
        Ok(out)
    }

    /// All round rows, in storage order.
    pub fn get_all(store: &Store) -> (r: Result<Vec<Round>, StoreError>)
        ensures
            match r {
                Ok(v) => v@ == store.rounds@,
                Err(_) => false,
            },
    {
        let mut v: Vec<Round> = Vec::new();
        let mut i: usize = 0;
        while i < store.rounds.len()
            invariant
                i <= store.rounds@.len(),
                v@ =~= store.rounds@.subrange(0, i as int),
            decreases store.rounds@.len() - i,
        {
            v.push(store.rounds[i].clone());
            i = i + 1;
        }
        proof {
            assert(store.rounds@.subrange(0, store.rounds@.len() as int) =~= store.rounds@);
        }
        Ok(v)
    }

    /// The round row with the given id.
    pub fn get_by_id(store: &Store, id: i32) -> (r: Result<Round, StoreError>)
        ensures
            match r {
                Ok(ro) => exists|i: int|
                    0 <= i < store.rounds@.len() && store.rounds@[i] == ro && ro.id == id,
                Err(e) => e == StoreError::NotFound && forall|i: int|
                    0 <= i < store.rounds@.len() ==> (#[trigger] store.rounds@[i]).id != id,
            },
    {
        let mut i: usize = 0;
        while i < store.rounds.len()
            invariant
                i <= store.rounds@.len(),
                forall|j: int| 0 <= j < i ==> (#[trigger] store.rounds@[j]).id != id,
            decreases store.rounds@.len() - i,
        {
            if store.rounds[i].id == id {
                return Ok(store.rounds[i].clone());
            }
            i = i + 1;
        }
        Err(StoreError::NotFound)
    }

    /// The round rows that belong to the given game, in storage order.
    pub fn get_by_game_id(store: &Store, id: i32) -> (r: Result<Vec<Round>, StoreError>)
        ensures
            match r {
                Ok(v) => v@ == rounds_for(store.rounds@, id),
                Err(_) => false,
            },
    {
        let mut v: Vec<Round> = Vec::new();
        let mut i: usize = 0;
        while i < store.rounds.len()
            invariant
                i <= store.rounds@.len(),
                v@ == rounds_for(store.rounds@.subrange(0, i as int), id),
            decreases store.rounds@.len() - i,
        {
            proof {
                let t = store.rounds@.subrange(0, i as int + 1);
                assert(t.drop_last() =~= store.rounds@.subrange(0, i as int));
                assert(t.last() == store.rounds@[i as int]);
            }
            if store.rounds[i].game_id == id {
                v.push(store.rounds[i].clone());
            }
            i = i + 1;
        }
        proof {
            assert(store.rounds@.subrange(0, store.rounds@.len() as int) =~= store.rounds@);
        }
        Ok(v)
    }

    /// Replaces a round row's data and returns the updated row.
    #[verifier::rlimit(50)]
    #[verifier::loop_isolation(false)]
    pub fn update(store: &mut Store, id: i32, update_round: UpdateRound) -> (r: Result<
        Round,
        StoreError,
    >)
        requires
            old(store).wf(),
        ensures
            final(store).wf(),
            same_but_rounds(*old(store), *final(store)),
            final(store).next_round_id == old(store).next_round_id,
            match r {
                Ok(ro) => round_update_post(
                    *old(store),
                    *final(store),
                    id,
                    update_round.data@,
                    ro,
                ),
                Err(e) => e == StoreError::NotFound && (forall|i: int|
                    0 <= i < old(store).rounds@.len() ==> (#[trigger] old(store).rounds@[i]).id
                        != id) && *final(store) == *old(store),
            },
    {
        let mut i: usize = 0;
        while i < store.rounds.len()
            invariant
                *store == *old(store),
                i <= store.rounds@.len(),
                forall|j: int| 0 <= j < i ==> (#[trigger] store.rounds@[j]).id != id,
            decreases store.rounds@.len() - i,
        {
            if store.rounds[i].id == id {
                let ro = Round {
                    id,
                    game_id: store.rounds[i].game_id,
                    data: update_round.data,
                    created_at: store.rounds[i].created_at,
                };
                let out = ro.clone();
                store.rounds.set(i, ro);
                proof {
                    let pre = *old(store);
                    let iw: int = i as int;
                    assert forall|a: int, b: int|
                        #![trigger store.rounds@[a], store.rounds@[b]]
                        0 <= a < b < store.rounds@.len() implies store.rounds@[a].id
                        != store.rounds@[b].id by {
                        if a != iw {
                            assert(store.rounds@[a] == pre.rounds@[a]);
                        }
                        if b != iw {
                            assert(store.rounds@[b] == pre.rounds@[b]);
                        }
                        assert(pre.rounds@[a].id != pre.rounds@[b].id);
                    }
                    assert forall|a: int|
                        0 <= a < store.rounds@.len() implies 0 < (#[trigger] store.rounds@[a]).id
                        < store.next_round_id by {
                        if a != iw {
                            assert(store.rounds@[a] == pre.rounds@[a]);
                        }
                    }
                    assert forall|a: int|
                        0 <= a < store.rounds@.len() implies pre.spec_has_game(
                        (#[trigger] store.rounds@[a]).game_id,
                    ) by {
                        if a != iw {
                            assert(store.rounds@[a] == pre.rounds@[a]);
                        }
                    }
                    lemma_wf_from_rounds_change(pre, *store);
                    assert(round_update_post(pre, *store, id, update_round.data@, out)) by {
                        assert(0 <= iw < pre.rounds@.len() && pre.rounds@[iw].id == id && out.id
                            == id && out.game_id == pre.rounds@[iw].game_id && out.data@
                            == update_round.data@ && out.created_at == pre.rounds@[iw].created_at
                            && store.rounds@ == pre.rounds@.update(iw, out));
                    }
                }
                return Ok(out);
            }
            i = i + 1;
        }
        Err(StoreError::NotFound)
    }

    /// Removes the row with the given id from the user table; that is
    /// the table this delete addresses. The count says how many rows
    /// were removed.
    pub fn delete(store: &mut Store, id: i32) -> (r: Result<usize, StoreError>)
        requires
            old(store).wf(),
        ensures
            final(store).wf(),
            same_but_users(*old(store), *final(store)),
            final(store).next_user_id == old(store).next_user_id,
            match r {
                Ok(n) => (n == 1 || n == 0) && (n == 1 <==> exists|i: int|
                    0 <= i < old(store).users@.len() && old(store).users@[i].id == id) && (n == 1
                    ==> exists|i: int|
                    0 <= i < old(store).users@.len() && old(store).users@[i].id == id
                        && final(store).users@ == old(store).users@.remove(i)) && (n == 0
                    ==> *final(store) == *old(store)),
                Err(_) => false,
            },
    {
        User::delete(id, store)
    }
}

} // verus!
