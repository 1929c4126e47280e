use lobby_hub::models::{Game, GameStatus, Player, PlayerStatus};

#[test]
fn player_new_is_joined_with_no_points() {
    let p = Player::new("alice".to_string());
    assert_eq!(p.id, "alice");
    assert_eq!(p.status, PlayerStatus::Joined);
    assert_eq!(p.points, 0);
}

#[test]
fn game_new_is_active_and_empty() {
    let g = Game::new(4321, 4, 3);
    assert_eq!(g.code(), 4321);
    assert_eq!(g.total_players(), 4);
    assert_eq!(g.status(), GameStatus::Active);
    assert!(g.players().is_empty());
    assert!(g.rounds().is_empty());
}

#[test]
fn add_player_then_exists() {
    let mut g = Game::new(1000, 2, 1);
    assert!(!g.player_exists(&"bob".to_string()));
    g.add_player(&Player::new("bob".to_string()));
    assert!(g.player_exists(&"bob".to_string()));
    assert!(!g.player_exists(&"bo".to_string()));
    assert_eq!(g.players().len(), 1);
}

#[test]
fn add_player_replaces_same_name() {
    let mut g = Game::new(1000, 2, 1);
    g.add_player(&Player::new("bob".to_string()));
    g.add_player(&Player::new("eve".to_string()));
    let mut ready = Player::new("bob".to_string());
    ready.status = PlayerStatus::Ready;
    ready.points = 5;
    g.add_player(&ready);
    assert_eq!(g.players().len(), 2);
    assert_eq!(g.players()[0].id, "bob");
    assert_eq!(g.players()[0].status, PlayerStatus::Ready);
    assert_eq!(g.players()[0].points, 5);
    assert_eq!(g.players()[1].id, "eve");
}

#[test]
fn snapshot_copies_players() {
    let mut g = Game::new(2000, 3, 0);
    g.add_player(&Player::new("a".to_string()));
    let copy = g.snapshot();
    g.add_player(&Player::new("b".to_string()));
    assert_eq!(copy.players().len(), 1);
    assert_eq!(copy.code(), 2000);
    assert_eq!(g.players().len(), 2);
}

#[test]
fn random_number_is_below_one_million() {
    for _ in 0..100 {
        assert!(lobby_hub::util::random_number() < 1_000_000);
    }
}

#[test]
fn micros_of_truncates() {
    assert_eq!(lobby_hub::util::micros_of(0), 0);
    assert_eq!(lobby_hub::util::micros_of(999), 0);
    assert_eq!(lobby_hub::util::micros_of(123_456_789), 123_456);
    assert_eq!(lobby_hub::util::micros_of(999_999_999), 999_999);
}
