//! The request-level flows: registration and login over the credential
//! store, and the game-membership changes driven by a presented token.
//! Each flow runs under one borrow of the store, so its read-check-write
//! is serialized against every other request.

use vstd::prelude::*;
use crate::codec::{dec_of, i32_to_dec, parse_i32, parse_subject};
use crate::crypto::{bcrypt_check, bcrypt_hash, bcrypt_matches};
use crate::store::{
    contains_player,
    dedup,
    lemma_dedup_of_nodup,
    nodup,
    same_but_games,
    same_but_users,
    Game,
    LoginUser,
    NewGame,
    NewUser,
    Store,
    UpdateGame,
    User,
};
use crate::token::{issue, read_token, spec_issue, spec_verify, AuthError};

verus! {

/// Why a credential flow failed.
#[derive(Clone, Copy, Debug, PartialEq, Eq, Structural)]
pub enum CredentialError {
    /// Registration would reuse an email that a user already has.
    DuplicateEmail,
    /// No user has the email presented at login.
    UserNotFound,
    /// The presented password does not match the stored hash.
    InvalidPassword,
}

impl CredentialError {
    /// The boundary message for this failure.
    pub fn message(&self) -> (r: String)
        ensures
            *self == CredentialError::DuplicateEmail ==> r@ == "duplicate email"@,
            *self == CredentialError::UserNotFound ==> r@ == "user not found"@,
            *self == CredentialError::InvalidPassword ==> r@ == "Invalid password"@,
    {
        match self {
            CredentialError::DuplicateEmail => "duplicate email".to_owned(),
            CredentialError::UserNotFound => "user not found".to_owned(),
            CredentialError::InvalidPassword => "Invalid password".to_owned(),
        }
    }
}

/// Why a membership change failed.
#[derive(Clone, Copy, Debug, PartialEq, Eq, Structural)]
pub enum MembershipError {
    /// The presented token did not verify.
    InvalidToken,
    /// The token's subject is not a player id.
    MalformedSubject,
    /// No game has the requested id.
    GameNotFound,
    /// The player is already on the game's roster.
    AlreadyJoined,
}

impl MembershipError {
    /// The boundary message for this failure.
    pub fn message(&self) -> (r: String)
        ensures
            *self == MembershipError::InvalidToken ==> r@ == "invalid token"@,
            *self == MembershipError::MalformedSubject ==> r@ == "malformed subject"@,
            *self == MembershipError::GameNotFound ==> r@ == "game not found"@,
            *self == MembershipError::AlreadyJoined ==> r@ == "Player already in game"@,
    {
        match self {
            MembershipError::InvalidToken => "invalid token".to_owned(),
            MembershipError::MalformedSubject => "malformed subject".to_owned(),
            MembershipError::GameNotFound => "game not found".to_owned(),
            MembershipError::AlreadyJoined => "Player already in game".to_owned(),
        }
    }
}

/// The player id carried by a token: the subject of a verified token,
/// read as decimal text.
pub open spec fn token_player(token: Seq<char>) -> Option<i32> {
    match spec_verify(token) {
        Ok(subject) => parse_i32(subject),
        Err(_) => None,
    }
}

/// What registration guarantees: on success a fresh row whose hash
/// matches the raw password; on failure the email was taken and the
/// store is unchanged.
pub open spec fn register_post(
    pre: Store,
    post: Store,
    username: Seq<char>,
    email: Seq<char>,
    password: Seq<char>,
    r: Result<User, CredentialError>,
) -> bool {
    match r {
        Ok(u) => {
            &&& !pre.spec_has_email(email)
            &&& u.id == pre.next_user_id
            &&& u.username@ == username
            &&& u.email@ == email
            &&& bcrypt_matches(password, u.password@)
            &&& u.created_at == pre.now
            &&& u.update_at == pre.now
            &&& post.users@ == pre.users@.push(u)
            &&& post.next_user_id == pre.next_user_id + 1
            &&& same_but_users(pre, post)
        },
        Err(e) => {
            &&& e == CredentialError::DuplicateEmail
            &&& pre.spec_has_email(email)
            &&& post == pre
        },
    }
}

/// Registers a user: hashes the raw password and creates the row. The
/// stored row never holds the raw password.
pub fn register(store: &mut Store, user: NewUser) -> (r: Result<User, CredentialError>)
    requires
        old(store).wf(),
        old(store).next_user_id < i32::MAX,
    ensures
        final(store).wf(),
        register_post(
            *old(store),
            *final(store),
            user.username@,
            user.email@,
            user.password@,
            r,
        ),
{
    let hashed = bcrypt_hash(user.password.as_str());
    let nu = NewUser { username: user.username, email: user.email, password: hashed };
    match User::insert(nu, store) {
        Ok(u) => Ok(u),
        Err(_) => Err(CredentialError::DuplicateEmail),
    }
}

/// What login returns on a given store: the token issued for the id of
/// the user whose email matches, when the password matches that user's
/// stored hash; else the exact failure.
pub open spec fn spec_login(s: Store, email: Seq<char>, password: Seq<char>) -> Result<
    Seq<char>,
    CredentialError,
> {
    if s.spec_has_email(email) {
        let i = choose|i: int| 0 <= i < s.users@.len() && s.users@[i].email@ == email;
        if bcrypt_matches(password, s.users@[i].password@) {
            Ok(spec_issue(dec_of(s.users@[i].id as nat)))
        } else {
            Err(CredentialError::InvalidPassword)
        }
    } else {
        Err(CredentialError::UserNotFound)
    }
}

/// Logs a user in: looks the row up by email, checks the password
/// against the stored hash, and issues the token that binds the user's
/// id, in decimal, as subject.
pub fn login(store: &Store, user: &LoginUser) -> (r: Result<String, CredentialError>)
    requires
        store.wf(),
    ensures
        match r {
            Ok(t) => spec_login(*store, user.email@, user.password@) == Ok::<
                Seq<char>,
                CredentialError,
            >(t@),
            Err(e) => spec_login(*store, user.email@, user.password@) == Err::<
                Seq<char>,
                CredentialError,
            >(e),
        },
{
    let u = match User::login(user, store) {
        Ok(u) => u,
        Err(_) => {
            return Err(CredentialError::UserNotFound);
        },
    };
    proof {
        let e = user.email@;
        let j = choose|j: int|
            0 <= j < store.users@.len() && store.users@[j] == u && u.email@ == e;
        assert(store.users@[j].email@ == e);
        let i = choose|i: int| 0 <= i < store.users@.len() && store.users@[i].email@ == e;
        if i != j {
            assert(store.users@[i].email@ != store.users@[j].email@);
        }
        assert(store.users@[i] == u);
    }
    if bcrypt_check(user.password.as_str(), u.password.as_str()) {
        let subject = i32_to_dec(u.id);
        Ok(issue(subject.as_str()))
    } else {
        Err(CredentialError::InvalidPassword)
    }
}

/// What the membership change guarantees, step by step: a token that
/// does not verify, a non-numeric subject, a missing game and a
/// repeated join each give their error and leave the store unchanged;
/// otherwise the player is appended once, at the end of the roster,
/// with every other row kept.
pub open spec fn join_post(
    pre: Store,
    post: Store,
    token: Seq<char>,
    game_id: i32,
    r: Result<Game, MembershipError>,
) -> bool {
    match spec_verify(token) {
        Err(_) => r == Err::<Game, MembershipError>(MembershipError::InvalidToken) && post
            == pre,
        Ok(subject) => match parse_i32(subject) {
            None => r == Err::<Game, MembershipError>(MembershipError::MalformedSubject) && post
                == pre,
            Some(p) => {
                if !pre.spec_has_game(game_id) {
                    r == Err::<Game, MembershipError>(MembershipError::GameNotFound) && post
                        == pre
                } else {
                    let i = choose|i: int|
                        0 <= i < pre.games@.len() && pre.games@[i].id == game_id;
                    if pre.games@[i].ids_players@.contains(p) {
                        r == Err::<Game, MembershipError>(MembershipError::AlreadyJoined) && post
                            == pre
                    } else {
                        match r {
                            Ok(g) => {
                                &&& g.id == game_id
                                &&& g.ids_players@ == pre.games@[i].ids_players@.push(p)
                                &&& g.created_at == pre.games@[i].created_at
                                &&& post.games@.len() == pre.games@.len()
                                &&& post.games@[i].id == g.id
                                &&& post.games@[i].ids_players@ == g.ids_players@
                                &&& post.games@[i].created_at == g.created_at
                                &&& forall|j: int|
                                    0 <= j < pre.games@.len() && j != i ==> post.games@[j]
                                        == pre.games@[j]
                                &&& same_but_games(pre, post)
                                &&& post.next_game_id == pre.next_game_id
                            },
                            Err(_) => false,
                        }
                    }
                }
            },
        },
    }
}

/// Applies the membership change for the player a token names:
/// verifies the token, reads its subject as a player id, and appends
/// the player to the game's roster unless already present. The whole
/// read-check-write holds the store exclusively, so two joins for one
/// game cannot interleave and `AlreadyJoined` is raised correctly
/// under contention.
#[verifier::rlimit(100)]
#[verifier::loop_isolation(false)]
pub fn join_game(store: &mut Store, token: &str, id: i32) -> (r: Result<Game, MembershipError>)
    requires
        old(store).wf(),
    ensures
        final(store).wf(),
        join_post(*old(store), *final(store), token@, id, r),
{
    let subject = match read_token(token) {
        Ok(s) => s,
        Err(_) => {
            return Err(MembershipError::InvalidToken);
        },
    };
    let player = match parse_subject(subject.as_str()) {
        Some(p) => p,
        None => {
            return Err(MembershipError::MalformedSubject);
        },
    };
    let game = match Game::get_by_id(store, id) {
        Ok(g) => g,
        Err(_) => {
            return Err(MembershipError::GameNotFound);
        },
    };
    proof {
        let pre = *old(store);
        let w = choose|w: int|
            0 <= w < pre.games@.len() && (#[trigger] pre.games@[w]).id == id && game.id == id
                && game.ids_players@ == pre.games@[w].ids_players@ && game.created_at
                == pre.games@[w].created_at;
        let i0 = choose|i: int| 0 <= i < pre.games@.len() && pre.games@[i].id == id;
        if i0 != w {
            assert(pre.games@[i0].id != pre.games@[w].id);
        }
        assert(pre.games@[i0].ids_players@ == game.ids_players@);
    }
    if contains_player(&game.ids_players, player) {
        return Err(MembershipError::AlreadyJoined);
    }
    let mut new_players = game.ids_players;
    new_players.push(player);
    proof {
        let pre = *old(store);
        let i0 = choose|i: int| 0 <= i < pre.games@.len() && pre.games@[i].id == id;
        let roster = pre.games@[i0].ids_players@;
        assert(nodup(roster));
        assert(new_players@ == roster.push(player));
        assert forall|a: int, b: int|
            0 <= a < b < new_players@.len() implies new_players@[a] != new_players@[b] by {
            if b == new_players@.len() - 1 {
                assert(new_players@[a] == roster[a]);
                assert(!roster.contains(player));
            }
        }
        lemma_dedup_of_nodup(new_players@);
    }
    let upd = UpdateGame { ids_players: new_players };
    match Game::update(store, id, upd) {
        Ok(g2) => {
            proof {
                let pre = *old(store);
                let i0 = choose|i: int| 0 <= i < pre.games@.len() && pre.games@[i].id == id;
                let iu = choose|i: int|
                    {
                        &&& 0 <= i < pre.games@.len()
                        &&& (#[trigger] pre.games@[i]).id == id
                        &&& g2.id == id
                        &&& g2.ids_players@ == dedup(upd.ids_players@)
                        &&& g2.created_at == pre.games@[i].created_at
                        &&& store.games@.len() == pre.games@.len()
                        &&& store.games@[i].id == g2.id
                        &&& store.games@[i].ids_players@ == g2.ids_players@
                        &&& store.games@[i].created_at == g2.created_at
                        &&& forall|j: int|
                            0 <= j < pre.games@.len() && j != i ==> store.games@[j]
                                == pre.games@[j]
                    };
                if iu != i0 {
                    assert(pre.games@[iu].id != pre.games@[i0].id);
                }
            }
            Ok(g2)
        },
        Err(_) => {
            proof {
                assert(false);
            }
            vstd::pervasive::unreached()
        },
    }
}

/// What game creation from a token guarantees: the token's player
/// becomes the sole member of a fresh game; a bad token or subject
/// gives its error and leaves the store unchanged.
pub open spec fn create_game_post(
    pre: Store,
    post: Store,
    token: Seq<char>,
    r: Result<Game, MembershipError>,
) -> bool {
    match spec_verify(token) {
        Err(_) => r == Err::<Game, MembershipError>(MembershipError::InvalidToken) && post
            == pre,
        Ok(subject) => match parse_i32(subject) {
            None => r == Err::<Game, MembershipError>(MembershipError::MalformedSubject) && post
                == pre,
            Some(p) => match r {
                Ok(g) => {
                    &&& g.id == pre.next_game_id
                    &&& g.ids_players@ == seq![p]
                    &&& g.created_at == pre.now
                    &&& post.games@.len() == pre.games@.len() + 1
                    &&& post.games@[pre.games@.len() as int].id == g.id
                    &&& post.games@[pre.games@.len() as int].ids_players@ == g.ids_players@
                    &&& post.games@[pre.games@.len() as int].created_at == g.created_at
                    &&& forall|j: int|
                        0 <= j < pre.games@.len() ==> post.games@[j] == pre.games@[j]
                    &&& post.next_game_id == pre.next_game_id + 1
                    &&& same_but_games(pre, post)
                },
                Err(_) => false,
            },
        },
    }
}

/// Creates a game whose sole player is the one the token names.
pub fn create_game(store: &mut Store, token: &str) -> (r: Result<Game, MembershipError>)
    requires
        old(store).wf(),
        old(store).next_game_id < i32::MAX,
    ensures
        final(store).wf(),
        create_game_post(*old(store), *final(store), token@, r),
{
    let subject = match read_token(token) {
        Ok(s) => s,
        Err(_) => {
            return Err(MembershipError::InvalidToken);
        },
    };
    let player = match parse_subject(subject.as_str()) {
        Some(p) => p,
        None => {
            return Err(MembershipError::MalformedSubject);
        },
    };
    let roster: Vec<i32> = vec![player];
    proof {
        assert(roster@ =~= seq![player]);
        assert(nodup(roster@));
        lemma_dedup_of_nodup(roster@);
    }
    match Game::insert(store, NewGame { ids_players: roster }) {
        Ok(g) => Ok(g),
        Err(_) => {
            proof {
                assert(false);
            }
            vstd::pervasive::unreached()
        },
    }
}

/// The test route's greeting.
pub fn index() -> (r: &'static str)
    ensures
        r@ == "Hello, world!"@,
{
    "Hello, world!"
}


/// Joining twice adds the player exactly once: after a join for a
/// token's player went through, a second join with the same token and
/// game is refused as `AlreadyJoined` and leaves the store unchanged,
/// so the roster is exactly what the first join left.
pub proof fn lemma_join_rejects_duplicate(
    s0: Store,
    s1: Store,
    s2: Store,
    token: Seq<char>,
    game_id: i32,
    g: Game,
    r2: Result<Game, MembershipError>,
)
    requires
        s0.wf(),
        s1.wf(),
        join_post(s0, s1, token, game_id, Ok(g)),
        join_post(s1, s2, token, game_id, r2),
    ensures
        r2 == Err::<Game, MembershipError>(MembershipError::AlreadyJoined),
        s2 == s1,
{
    let subject = spec_verify(token)->Ok_0;
    let p = parse_i32(subject)->0;
    let i0 = choose|i: int| 0 <= i < s0.games@.len() && s0.games@[i].id == game_id;
    assert(s1.games@[i0].id == game_id);
    assert(s1.games@[i0].ids_players@.contains(p)) by {
        assert(s1.games@[i0].ids_players@ == s0.games@[i0].ids_players@.push(p));
        assert(s1.games@[i0].ids_players@[s1.games@[i0].ids_players@.len() - 1] == p);
    }
    assert(s1.spec_has_game(game_id));
    let i1 = choose|i: int| 0 <= i < s1.games@.len() && s1.games@[i].id == game_id;
    if i1 != i0 {
        assert(s1.games@[i1].id != s1.games@[i0].id);
    }
}

/// Serialized joins lose no player: after one player joined, a join
/// for a different player not yet on the game's roster also goes
/// through, and the roster then holds both, one slot longer than the
/// first join left it.
pub proof fn lemma_join_distinct_players(
    s0: Store,
    s1: Store,
    s2: Store,
    t1: Seq<char>,
    t2: Seq<char>,
    game_id: i32,
    g1: Game,
    r2: Result<Game, MembershipError>,
)
    requires
        s0.wf(),
        s1.wf(),
        join_post(s0, s1, t1, game_id, Ok(g1)),
        join_post(s1, s2, t2, game_id, r2),
        token_player(t2) is Some,
        token_player(t2) != token_player(t1),
        forall|i: int|
            0 <= i < s0.games@.len() && (#[trigger] s0.games@[i]).id == game_id
                ==> !s0.games@[i].ids_players@.contains(token_player(t2)->0),
    ensures
        r2 is Ok,
        r2->Ok_0.ids_players@ == g1.ids_players@.push(token_player(t2)->0),
        r2->Ok_0.ids_players@.contains(token_player(t1)->0),
        r2->Ok_0.ids_players@.contains(token_player(t2)->0),
        r2->Ok_0.ids_players@.len() == g1.ids_players@.len() + 1,
{
    let p1 = token_player(t1)->0;
    let p2 = token_player(t2)->0;
    let i0 = choose|i: int| 0 <= i < s0.games@.len() && s0.games@[i].id == game_id;
    assert(g1.ids_players@ == s0.games@[i0].ids_players@.push(p1));
    assert(s1.games@[i0].id == game_id);
    assert(s1.spec_has_game(game_id));
    let i1 = choose|i: int| 0 <= i < s1.games@.len() && s1.games@[i].id == game_id;
    if i1 != i0 {
        assert(s1.games@[i1].id != s1.games@[i0].id);
    }
    let roster1 = s1.games@[i1].ids_players@;
    assert(roster1 == s0.games@[i0].ids_players@.push(p1));
    assert(!roster1.contains(p2)) by {
        if roster1.contains(p2) {
            let k = choose|k: int| 0 <= k < roster1.len() && roster1[k] == p2;
            if k < roster1.len() - 1 {
                assert(s0.games@[i0].ids_players@[k] == p2);
                assert(s0.games@[i0].ids_players@.contains(p2));
            } else {
                assert(p2 == p1);
            }
            assert(false);
        }
    }
    let g2 = r2->Ok_0;
    assert(g2.ids_players@ == roster1.push(p2));
    assert(g2.ids_players@[g2.ids_players@.len() - 1] == p2);
    assert(g2.ids_players@.contains(p2));
    assert(g2.ids_players@[g2.ids_players@.len() - 2] == p1);
    assert(g2.ids_players@.contains(p1));
}

/// Registration then login round trip: right after a successful
/// registration, logging in with the same email and raw password
/// succeeds, and the issued token verifies back to the new user's id
/// in decimal.
pub proof fn lemma_register_then_login(
    s0: Store,
    s1: Store,
    username: Seq<char>,
    email: Seq<char>,
    password: Seq<char>,
    u: User,
)
    requires
        s0.wf(),
        s1.wf(),
        register_post(s0, s1, username, email, password, Ok(u)),
    ensures
        spec_login(s1, email, password) == Ok::<Seq<char>, CredentialError>(
            spec_issue(dec_of(u.id as nat)),
        ),
        spec_verify(spec_issue(dec_of(u.id as nat))) == Ok::<Seq<char>, AuthError>(
            dec_of(u.id as nat),
        ),
{
    let n = s0.users@.len() as int;
    assert(s1.users@[n] == u);
    assert(s1.spec_has_email(email));
    let i = choose|i: int| 0 <= i < s1.users@.len() && s1.users@[i].email@ == email;
    if i != n {
        assert(s1.users@[i] == s0.users@[i]);
        assert(s0.spec_has_email(email));
        assert(false);
    }
    assert(s1.users@[i] == u);
    crate::token::lemma_verify_issue(dec_of(u.id as nat));
}

/// Login with an unknown email fails with `UserNotFound`.
pub proof fn lemma_login_unknown_email(s: Store, email: Seq<char>, password: Seq<char>)
    requires
        s.wf(),
        !s.spec_has_email(email),
    ensures
        spec_login(s, email, password) == Err::<Seq<char>, CredentialError>(
            CredentialError::UserNotFound,
        ),
{
}

/// Login with a password that matches no stored hash for that email
/// fails with `InvalidPassword`.
pub proof fn lemma_login_wrong_password(s: Store, email: Seq<char>, password: Seq<char>)
    requires
        s.wf(),
        s.spec_has_email(email),
        forall|i: int|
            0 <= i < s.users@.len() && (#[trigger] s.users@[i]).email@ == email
                ==> !bcrypt_matches(password, s.users@[i].password@),
    ensures
        spec_login(s, email, password) == Err::<Seq<char>, CredentialError>(
            CredentialError::InvalidPassword,
        ),
{
    let i = choose|i: int| 0 <= i < s.users@.len() && s.users@[i].email@ == email;
    assert(!bcrypt_matches(password, s.users@[i].password@));
}


/// The players a chain of tokens names, in order.
pub open spec fn players_of(tokens: Seq<Seq<char>>) -> Seq<i32> {
    Seq::new(tokens.len(), |k: int| token_player(tokens[k])->0)
}

/// Serialized joins lose no player, however many there are: when each
/// of a chain of joins runs against the store the previous one left,
/// for pairwise distinct players none of whom is on the game's roster
/// at the start, every join succeeds and the final roster is the
/// starting one followed by all the players — its size grew by exactly
/// their number.
pub proof fn lemma_joins_all_admitted(
    stores: Seq<Store>,
    tokens: Seq<Seq<char>>,
    game_id: i32,
    rs: Seq<Result<Game, MembershipError>>,
)
    requires
        stores.len() == tokens.len() + 1,
        rs.len() == tokens.len(),
        forall|k: int| 0 <= k < stores.len() ==> (#[trigger] stores[k]).wf(),
        forall|k: int|
            0 <= k < tokens.len() ==> join_post(
                stores[k],
                stores[k + 1],
                tokens[k],
                game_id,
                #[trigger] rs[k],
            ),
        forall|k: int| 0 <= k < tokens.len() ==> (#[trigger] token_player(tokens[k])) is Some,
        forall|k1: int, k2: int|
            #![trigger token_player(tokens[k1]), token_player(tokens[k2])]
            0 <= k1 < k2 < tokens.len() ==> token_player(tokens[k1]) != token_player(tokens[k2]),
        stores[0].spec_has_game(game_id),
        forall|k: int, i: int|
            #![trigger stores[0].games@[i], token_player(tokens[k])]
            0 <= k < tokens.len() && 0 <= i < stores[0].games@.len() && stores[0].games@[i].id
                == game_id ==> !stores[0].games@[i].ids_players@.contains(
                token_player(tokens[k])->0,
            ),
    ensures
        forall|k: int| 0 <= k < rs.len() ==> (#[trigger] rs[k]) is Ok,
        stores.last().spec_has_game(game_id),
        forall|i0: int, i1: int|
            #![trigger stores[0].games@[i0], stores.last().games@[i1]]
            0 <= i0 < stores[0].games@.len() && stores[0].games@[i0].id == game_id && 0 <= i1
                < stores.last().games@.len() && stores.last().games@[i1].id == game_id
                ==> stores.last().games@[i1].ids_players@ == stores[0].games@[i0].ids_players@
                + players_of(tokens),
    decreases tokens.len(),
{
    let n = tokens.len() as int;
    if n == 0 {
        assert(stores.last() == stores[0]);
        assert forall|i0: int, i1: int|
            #![trigger stores[0].games@[i0], stores.last().games@[i1]]
            0 <= i0 < stores[0].games@.len() && stores[0].games@[i0].id == game_id && 0 <= i1
                < stores.last().games@.len() && stores.last().games@[i1].id == game_id
            implies stores.last().games@[i1].ids_players@ == stores[0].games@[i0].ids_players@
            + players_of(tokens) by {
            if i0 != i1 {
                assert(stores[0].games@[i0].id != stores[0].games@[i1].id);
            }
            assert(players_of(tokens) =~= Seq::<i32>::empty());
            assert(stores[0].games@[i0].ids_players@ + players_of(tokens)
                =~= stores[0].games@[i0].ids_players@);
        }
    } else {
        let pstores = stores.drop_last();
        let ptokens = tokens.drop_last();
        let prs = rs.drop_last();
        assert forall|k: int| 0 <= k < pstores.len() implies (#[trigger] pstores[k]).wf() by {
            assert(pstores[k] == stores[k]);
        }
        assert forall|k: int|
            0 <= k < ptokens.len() implies join_post(
            pstores[k],
            pstores[k + 1],
            ptokens[k],
            game_id,
            #[trigger] prs[k],
        ) by {
            assert(pstores[k] == stores[k] && pstores[k + 1] == stores[k + 1] && ptokens[k]
                == tokens[k] && prs[k] == rs[k]);
        }
        assert forall|k: int|
            0 <= k < ptokens.len() implies (#[trigger] token_player(ptokens[k])) is Some by {
            assert(ptokens[k] == tokens[k]);
        }
        assert forall|k1: int, k2: int|
            #![trigger token_player(ptokens[k1]), token_player(ptokens[k2])]
            0 <= k1 < k2 < ptokens.len() implies token_player(ptokens[k1]) != token_player(
            ptokens[k2],
        ) by {
            assert(ptokens[k1] == tokens[k1] && ptokens[k2] == tokens[k2]);
        }
        assert(pstores[0] == stores[0]);
        assert forall|k: int, i: int|
            #![trigger pstores[0].games@[i], token_player(ptokens[k])]
            0 <= k < ptokens.len() && 0 <= i < pstores[0].games@.len() && pstores[0].games@[i].id
                == game_id implies !pstores[0].games@[i].ids_players@.contains(
            token_player(ptokens[k])->0,
        ) by {
            assert(ptokens[k] == tokens[k]);
            assert(pstores[0].games@[i] == stores[0].games@[i]);
        }
        lemma_joins_all_admitted(pstores, ptokens, game_id, prs);
        let s_prev = stores[n - 1];
        assert(pstores.last() == s_prev);
        let t = tokens[n - 1];
        assert(token_player(t) is Some);
        let p = token_player(t)->0;
        let r = rs[n - 1];
        assert(join_post(s_prev, stores[n], t, game_id, r));
        let i0 = choose|i: int| 0 <= i < stores[0].games@.len() && stores[0].games@[i].id == game_id;
        let roster0 = stores[0].games@[i0].ids_players@;
        assert(s_prev.spec_has_game(game_id));
        let iprev = choose|i: int| 0 <= i < s_prev.games@.len() && s_prev.games@[i].id == game_id;
        let roster_prev = s_prev.games@[iprev].ids_players@;
        assert(roster_prev == roster0 + players_of(ptokens));
        assert(!roster_prev.contains(p)) by {
            if roster_prev.contains(p) {
                let w = choose|w: int| 0 <= w < roster_prev.len() && roster_prev[w] == p;
                if w < roster0.len() {
                    assert(roster0[w] == p);
                    assert(roster0.contains(p));
                    assert(!stores[0].games@[i0].ids_players@.contains(
                        token_player(tokens[n - 1])->0,
                    ));
                } else {
                    let j = w - roster0.len();
                    assert(players_of(ptokens)[j] == p);
                    assert(token_player(ptokens[j]) == token_player(tokens[j]));
                    assert(token_player(tokens[j]) != token_player(tokens[n - 1]));
                    assert(token_player(tokens[j])->0 == p);
                    assert(token_player(tokens[j]) is Some);
                    assert(token_player(tokens[j]) == Some(p));
                    assert(token_player(tokens[n - 1]) == Some(p));
                }
                assert(false);
            }
        }
        assert(r is Ok);
        let g = r->Ok_0;
        assert(g.ids_players@ == roster_prev.push(p));
        assert(stores[n].games@[iprev].id == game_id);
        assert(stores.last() == stores[n]);
        assert forall|k: int| 0 <= k < rs.len() implies (#[trigger] rs[k]) is Ok by {
            if k < n - 1 {
                assert(prs[k] == rs[k]);
            }
        }
        assert forall|ia: int, i1: int|
            #![trigger stores[0].games@[ia], stores.last().games@[i1]]
            0 <= ia < stores[0].games@.len() && stores[0].games@[ia].id == game_id && 0 <= i1
                < stores.last().games@.len() && stores.last().games@[i1].id == game_id
            implies stores.last().games@[i1].ids_players@ == stores[0].games@[ia].ids_players@
            + players_of(tokens) by {
            if ia != i0 {
                assert(stores[0].games@[ia].id != stores[0].games@[i0].id);
            }
            if i1 != iprev {
                assert(stores[n].games@[i1].id != stores[n].games@[iprev].id);
            }
            assert(stores.last().games@[i1].ids_players@ == roster_prev.push(p));
            assert(players_of(tokens) =~= players_of(ptokens).push(p));
            assert((roster0 + players_of(ptokens)).push(p) =~= roster0 + players_of(tokens));
        }
    }
}

} // verus!
