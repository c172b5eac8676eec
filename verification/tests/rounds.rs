use equarior::service::register;
use equarior::store::{
    Game, NewGame, NewRound, NewUser, Round, Store, StoreError, UpdateRound, User,
};

#[test]
fn round_needs_an_existing_game() {
    let mut store = Store::new();
    let missing = Round::insert(
        &mut store,
        NewRound { game_id: 4, data: "opening".to_string() },
    );
    assert!(matches!(missing, Err(StoreError::ForeignKeyViolation)));
    assert_eq!(store.rounds.len(), 0);
}

#[test]
fn rounds_are_stored_and_queried() {
    let mut store = Store::new();
    store.set_now(7);
    let g1 = Game::insert(&mut store, NewGame { ids_players: vec![] }).unwrap();
    let g2 = Game::insert(&mut store, NewGame { ids_players: vec![] }).unwrap();
    let r1 = Round::insert(
        &mut store,
        NewRound { game_id: g1.id, data: "a".to_string() },
    )
    .unwrap();
    Round::insert(&mut store, NewRound { game_id: g2.id, data: "b".to_string() }).unwrap();
    Round::insert(&mut store, NewRound { game_id: g1.id, data: "c".to_string() }).unwrap();
    assert_eq!(r1.id, 1);
    assert_eq!(r1.created_at, 7);
    assert_eq!(Round::get_all(&store).unwrap().len(), 3);
    let fetched = Round::get_by_id(&store, r1.id).unwrap();
    assert_eq!(fetched.data, "a");
    let of_g1 = Round::get_by_game_id(&store, g1.id).unwrap();
    let data: Vec<String> = of_g1.iter().map(|r| r.data.clone()).collect();
    assert_eq!(data, vec!["a".to_string(), "c".to_string()]);
}

#[test]
fn round_update_replaces_data_only() {
    let mut store = Store::new();
    let g = Game::insert(&mut store, NewGame { ids_players: vec![] }).unwrap();
    let r = Round::insert(
        &mut store,
        NewRound { game_id: g.id, data: "before".to_string() },
    )
    .unwrap();
    let updated = Round::update(&mut store, r.id, UpdateRound { data: "after".to_string() })
        .unwrap();
    assert_eq!(updated.data, "after");
    assert_eq!(updated.game_id, g.id);
    assert!(matches!(
        Round::update(&mut store, 99, UpdateRound { data: "x".to_string() }),
        Err(StoreError::NotFound)
    ));
}

#[test]
fn round_delete_addresses_the_user_table() {
    let mut store = Store::new();
    let u = register(
        &mut store,
        NewUser {
            username: "alice".to_string(),
            email: "a@x.com".to_string(),
            password: "pw".to_string(),
        },
    )
    .unwrap();
    let g = Game::insert(&mut store, NewGame { ids_players: vec![] }).unwrap();
    Round::insert(&mut store, NewRound { game_id: g.id, data: "a".to_string() }).unwrap();
    assert_eq!(Round::delete(&mut store, u.id), Ok(1));
    assert_eq!(User::get_all(&store).len(), 0);
    assert_eq!(Round::get_all(&store).unwrap().len(), 1);
}
