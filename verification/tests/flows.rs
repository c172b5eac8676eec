use equarior::service::{
    create_game, index, join_game, login, register, CredentialError, MembershipError,
};
use equarior::store::{Game, LoginUser, NewGame, NewUser, Store, StoreError, UpdatedUser, User};
use equarior::token::verify;
use equarior::ApiError;

fn new_user(username: &str, email: &str, password: &str) -> NewUser {
    NewUser {
        username: username.to_string(),
        email: email.to_string(),
        password: password.to_string(),
    }
}

fn login_user(email: &str, password: &str) -> LoginUser {
    LoginUser { email: email.to_string(), password: password.to_string() }
}

#[test]
fn register_then_login_round_trip() {
    let mut store = Store::new();
    let u = register(&mut store, new_user("alice", "a@x.com", "pw1")).unwrap();
    assert_eq!(u.id, 1);
    assert_eq!(u.username, "alice");
    assert_eq!(u.email, "a@x.com");
    assert_ne!(u.password, "pw1");
    let token = login(&store, &login_user("a@x.com", "pw1")).unwrap();
    assert_eq!(verify(&token), Ok("1".to_string()));
}

#[test]
fn login_failures_are_exact() {
    let mut store = Store::new();
    register(&mut store, new_user("alice", "a@x.com", "pw1")).unwrap();
    assert_eq!(
        login(&store, &login_user("a@x.com", "wrong")),
        Err(CredentialError::InvalidPassword)
    );
    assert_eq!(
        login(&store, &login_user("b@x.com", "pw1")),
        Err(CredentialError::UserNotFound)
    );
    assert_eq!(
        CredentialError::InvalidPassword.message(),
        "Invalid password"
    );
}

#[test]
fn duplicate_email_is_rejected() {
    let mut store = Store::new();
    register(&mut store, new_user("alice", "a@x.com", "pw1")).unwrap();
    assert!(matches!(
        register(&mut store, new_user("bob", "a@x.com", "pw2")),
        Err(CredentialError::DuplicateEmail)
    ));
    assert_eq!(store.users.len(), 1);
}

#[test]
fn join_twice_rejects_second_attempt() {
    let mut store = Store::new();
    register(&mut store, new_user("alice", "a@x.com", "pw1")).unwrap();
    let token = login(&store, &login_user("a@x.com", "pw1")).unwrap();
    let game = Game::insert(&mut store, NewGame { ids_players: vec![] }).unwrap();
    let joined = join_game(&mut store, &token, game.id).unwrap();
    assert_eq!(joined.ids_players, vec![1]);
    let second = join_game(&mut store, &token, game.id);
    assert!(matches!(second, Err(MembershipError::AlreadyJoined)));
    assert_eq!(store.games[0].ids_players, vec![1]);
}

#[test]
fn distinct_players_both_join() {
    let mut store = Store::new();
    register(&mut store, new_user("alice", "a@x.com", "pw1")).unwrap();
    register(&mut store, new_user("bob", "b@x.com", "pw2")).unwrap();
    let t1 = login(&store, &login_user("a@x.com", "pw1")).unwrap();
    let t2 = login(&store, &login_user("b@x.com", "pw2")).unwrap();
    let game = Game::insert(&mut store, NewGame { ids_players: vec![] }).unwrap();
    join_game(&mut store, &t1, game.id).unwrap();
    let after = join_game(&mut store, &t2, game.id).unwrap();
    assert_eq!(after.ids_players, vec![1, 2]);
}

#[test]
fn join_failures_are_exact() {
    let mut store = Store::new();
    register(&mut store, new_user("alice", "a@x.com", "pw1")).unwrap();
    let token = login(&store, &login_user("a@x.com", "pw1")).unwrap();
    assert!(matches!(
        join_game(&mut store, "garbage", 1),
        Err(MembershipError::InvalidToken)
    ));
    assert!(matches!(
        join_game(&mut store, &token, 9),
        Err(MembershipError::GameNotFound)
    ));
    let odd = equarior::token::issue("abc");
    assert!(matches!(
        join_game(&mut store, &odd, 1),
        Err(MembershipError::MalformedSubject)
    ));
    let too_big = equarior::token::issue("99999999999");
    assert!(matches!(
        join_game(&mut store, &too_big, 1),
        Err(MembershipError::MalformedSubject)
    ));
    assert_eq!(
        MembershipError::AlreadyJoined.message(),
        "Player already in game"
    );
}

#[test]
fn create_game_from_token_has_sole_player() {
    let mut store = Store::new();
    register(&mut store, new_user("carol", "c@x.com", "pw3")).unwrap();
    let token = login(&store, &login_user("c@x.com", "pw3")).unwrap();
    let game = create_game(&mut store, &token).unwrap();
    assert_eq!(game.ids_players, vec![1]);
    assert_eq!(game.id, 1);
}

#[test]
fn full_scenario() {
    let mut store = Store::new();
    let alice = register(&mut store, new_user("alice", "a@x.com", "pw1")).unwrap();
    assert_eq!(alice.id, 1);
    let token = login(&store, &login_user("a@x.com", "pw1")).unwrap();
    let game = Game::insert(&mut store, NewGame { ids_players: vec![] }).unwrap();
    let joined = join_game(&mut store, &token, game.id).unwrap();
    assert_eq!(joined.ids_players, vec![1]);
    let again = join_game(&mut store, &token, game.id).unwrap_err();
    assert_eq!(again, MembershipError::AlreadyJoined);
    let body = ApiError::new(again.message());
    assert_eq!(body.details, "Player already in game");
}

#[test]
fn game_insert_drops_repeated_players() {
    let mut store = Store::new();
    let game = Game::insert(&mut store, NewGame { ids_players: vec![5, 5, 3, 5, 3] }).unwrap();
    assert_eq!(game.ids_players, vec![5, 3]);
}

#[test]
fn game_update_replaces_roster() {
    let mut store = Store::new();
    let game = Game::insert(&mut store, NewGame { ids_players: vec![1, 2] }).unwrap();
    let updated = Game::update(
        &mut store,
        game.id,
        equarior::store::UpdateGame { ids_players: vec![9, 8, 9] },
    )
    .unwrap();
    assert_eq!(updated.ids_players, vec![9, 8]);
    assert!(matches!(
        Game::update(
            &mut store,
            77,
            equarior::store::UpdateGame { ids_players: vec![] }
        ),
        Err(StoreError::NotFound)
    ));
}

#[test]
fn user_table_operations() {
    let mut store = Store::new();
    store.set_now(42);
    let u = register(&mut store, new_user("alice", "a@x.com", "pw1")).unwrap();
    assert_eq!(u.created_at, 42);
    let fetched = User::get_by_id(1, &store).unwrap();
    assert_eq!(fetched.email, "a@x.com");
    assert!(matches!(User::get_by_id(9, &store), Err(StoreError::NotFound)));
    assert_eq!(User::get_all(&store).len(), 1);
    let renamed = User::update(
        1,
        UpdatedUser {
            username: Some("alicia".to_string()),
            email: None,
            password: None,
        },
        &mut store,
    )
    .unwrap();
    assert_eq!(renamed.username, "alicia");
    assert_eq!(renamed.email, "a@x.com");
    register(&mut store, new_user("bob", "b@x.com", "pw2")).unwrap();
    assert!(matches!(
        User::update(
            1,
            UpdatedUser {
                username: None,
                email: Some("b@x.com".to_string()),
                password: None,
            },
            &mut store,
        ),
        Err(StoreError::UniqueViolation)
    ));
    assert_eq!(User::delete(1, &mut store), Ok(1));
    assert_eq!(User::delete(1, &mut store), Ok(0));
    assert_eq!(User::get_all(&store).len(), 1);
}

#[test]
fn greeting_route() {
    assert_eq!(index(), "Hello, world!");
}

#[test]
fn user_equality_by_fields() {
    let u = User {
        id: 3,
        username: "u".to_string(),
        email: "e".to_string(),
        password: "p".to_string(),
        update_at: 0,
        created_at: 0,
    };
    let v = u.clone();
    assert_eq!(v.id, 3);
    assert_eq!(v.username, "u");
}
