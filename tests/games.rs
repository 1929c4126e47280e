use lobby_hub::games::{
    create_game, create_game_with, get_game, join_game, player_joined, GameStore, JoinError,
    Message,
};
use lobby_hub::models::PlayerStatus;
use lobby_hub::registry::Registry;
use tokio::sync::mpsc::unbounded_channel;

#[test]
fn create_picks_code_from_seed() {
    let mut store = GameStore::new();
    let g = create_game_with(&mut store, 0, 4, 3).unwrap();
    assert_eq!(g.code(), 1000);
    let g = create_game_with(&mut store, 12345, 4, 3).unwrap();
    assert_eq!(g.code(), 4345);
    let g = create_game_with(&mut store, 8999, 2, 1).unwrap();
    assert_eq!(g.code(), 9999);
    assert!(store.contains(1000) && store.contains(4345) && store.contains(9999));
}

#[test]
fn create_skips_taken_codes() {
    let mut store = GameStore::new();
    assert_eq!(create_game_with(&mut store, 5, 4, 3).unwrap().code(), 1005);
    assert_eq!(create_game_with(&mut store, 5, 4, 3).unwrap().code(), 1006);
    assert_eq!(create_game_with(&mut store, 9005, 4, 3).unwrap().code(), 1007);
    // the circle wraps from 9999 back to 1000
    assert_eq!(create_game_with(&mut store, 8999, 4, 3).unwrap().code(), 9999);
    assert_eq!(create_game_with(&mut store, 8999, 4, 3).unwrap().code(), 1000);
}

#[test]
fn create_fails_when_every_code_is_taken() {
    let mut store = GameStore::new();
    for _ in 0..9000 {
        assert!(create_game_with(&mut store, 0, 1, 1).is_some());
    }
    assert!(create_game_with(&mut store, 77, 1, 1).is_none());
    assert!(create_game(&mut store, 1, 1).is_none());
}

#[test]
fn create_game_code_is_in_range() {
    let mut store = GameStore::new();
    let g = create_game(&mut store, 4, 3).unwrap();
    assert!((1000..=9999).contains(&g.code()));
    assert_eq!(g.total_players(), 4);
    assert!(g.players().is_empty());
    assert!(store.contains(g.code()));
}

#[test]
fn get_game_unknown_is_none() {
    let store = GameStore::new();
    assert!(get_game(&store, 1234).is_none());
}

#[test]
fn create_join_twice_and_get() {
    let mut store = GameStore::new();
    let g = create_game(&mut store, 4, 3).unwrap();
    let code = g.code();
    let p = join_game(&mut store, code, Some("alice".to_string())).unwrap();
    assert_eq!(p.id, "alice");
    assert_eq!(p.status, PlayerStatus::Joined);
    assert_eq!(p.points, 0);
    let again = join_game(&mut store, code, Some("alice".to_string()));
    assert_eq!(again.unwrap_err(), JoinError::Conflict);
    let g = get_game(&store, code).unwrap();
    assert_eq!(g.players().len(), 1);
    assert_eq!(g.players()[0].id, "alice");
}

#[test]
fn join_unknown_code_is_not_found() {
    let mut store = GameStore::new();
    create_game_with(&mut store, 0, 4, 3).unwrap();
    create_game_with(&mut store, 1, 4, 3).unwrap();
    let r = join_game(&mut store, 1500, Some("bob".to_string()));
    assert_eq!(r.unwrap_err(), JoinError::NotFound);
}

#[test]
fn join_without_name_is_refused() {
    let mut store = GameStore::new();
    create_game_with(&mut store, 0, 4, 3).unwrap();
    assert_eq!(join_game(&mut store, 1000, None).unwrap_err(), JoinError::Validation);
    // the name is checked before the code
    assert_eq!(join_game(&mut store, 5555, None).unwrap_err(), JoinError::Validation);
}

#[test]
fn distinct_joins_all_succeed() {
    let mut store = GameStore::new();
    create_game_with(&mut store, 0, 4, 3).unwrap();
    let names = ["a", "b", "c", "d", "e"];
    for n in names {
        assert!(join_game(&mut store, 1000, Some(n.to_string())).is_ok());
    }
    let g = get_game(&store, 1000).unwrap();
    assert_eq!(g.players().len(), names.len());
    for (p, n) in g.players().iter().zip(names) {
        assert_eq!(p.id, n);
    }
}

#[test]
fn join_is_announced_to_session_subscribers() {
    let mut store = GameStore::new();
    let mut clients: Registry<Message> = Registry::new();
    create_game_with(&mut store, 0, 4, 3).unwrap();
    create_game_with(&mut store, 1, 4, 3).unwrap();
    let (tx_a, mut rx_a) = unbounded_channel();
    let (tx_o, mut rx_o) = unbounded_channel();
    let a = clients.register_for_session(1000, tx_a).unwrap();
    clients.register_for_session(1001, tx_o).unwrap();
    let p = join_game(&mut store, 1000, Some("bob".to_string())).unwrap();
    let sent = player_joined(&mut clients, 1000, &p.id);
    assert_eq!(sent.len(), 1);
    assert_eq!(sent[0].id, a);
    assert!(sent[0].sent);
    match rx_a.try_recv() {
        Ok(Message::PlayerJoined(name)) => assert_eq!(name, "bob"),
        other => panic!("unexpected {:?}", other),
    }
    assert!(rx_a.try_recv().is_err());
    assert!(rx_o.try_recv().is_err());
}

#[test]
fn announce_prunes_closed_session_subscriber() {
    let mut clients: Registry<Message> = Registry::new();
    let (tx_a, rx_a) = unbounded_channel();
    let (tx_b, mut rx_b) = unbounded_channel();
    let a = clients.register_for_session(1000, tx_a).unwrap();
    let b = clients.register_for_session(1000, tx_b).unwrap();
    drop(rx_a);
    let sent = player_joined(&mut clients, 1000, &"carol".to_string());
    assert_eq!(sent.len(), 2);
    assert_eq!((sent[0].id, sent[0].sent), (a, false));
    assert_eq!((sent[1].id, sent[1].sent), (b, true));
    assert_eq!(clients.len(), 1);
    assert!(!clients.contains(a) && clients.contains(b));
    assert!(matches!(rx_b.try_recv(), Ok(Message::PlayerJoined(n)) if n == "carol"));
}
