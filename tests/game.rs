use dream_maze::{
    is_pursuit_frame, next_frame_count, Coord2, GameState, MapError, Tile, WorldMap, MAX_HEALTH,
};

fn session(row: &[Tile], player_x: u32) -> GameState {
    let map =
        WorldMap::from_grid(row.iter().map(|t| vec![*t]).collect(), Coord2::new(player_x, 0)).unwrap();
    GameState { player_health: MAX_HEALTH, map, doors_parts_collected: 0 }
}

#[test]
fn new_session_starts_with_full_health() {
    let game = GameState::new(Coord2::new(4, 10), Coord2::new(2, 5)).unwrap();
    assert_eq!(game.player_health, 5);
    assert_eq!(game.doors_parts_collected, 0);
    assert!(!game.is_dead());
    assert!(!game.has_won());
    assert!(matches!(
        GameState::new(Coord2::new(0, 10), Coord2::new(0, 0)),
        Err(MapError::InvalidDimensions)
    ));
}

#[test]
fn monster_on_the_player_costs_health() {
    let mut game = session(&[Tile::Floor, Tile::Monster, Tile::Floor], 1);
    game.pursuit_tick();
    assert_eq!(game.player_health, 4);
    game.player_health = 0;
    game.pursuit_tick();
    assert_eq!(game.player_health, 0);
    assert!(game.is_dead());
}

#[test]
fn monster_arriving_hurts_only_on_the_next_tick() {
    let mut game = session(&[Tile::Monster, Tile::Floor], 1);
    game.pursuit_tick();
    assert_eq!(game.map.get(Coord2::new(1, 0)), Tile::Monster);
    assert_eq!(game.player_health, 5);
    game.pursuit_tick();
    assert_eq!(game.player_health, 4);
}

#[test]
fn four_door_parts_win() {
    let mut game = session(&[Tile::Floor], 0);
    assert!(game.collect_door_part());
    assert!(game.collect_door_part());
    assert!(game.collect_door_part());
    assert!(!game.has_won());
    assert!(!game.collect_door_part());
    assert!(game.has_won());
    assert_eq!(game.doors_parts_collected, 4);
}

#[test]
fn frame_cadence() {
    assert!(!is_pursuit_frame(0));
    assert!(!is_pursuit_frame(58));
    assert!(is_pursuit_frame(59));
    assert!(is_pursuit_frame(119));
    assert!(!is_pursuit_frame(120));
    assert_eq!(next_frame_count(0), 1);
    assert_eq!(next_frame_count(9998), 9999);
    assert_eq!(next_frame_count(9999), 0);
}
