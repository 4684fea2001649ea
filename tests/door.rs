use dream_maze::{
    calculate_rand_accumulated_pos, door_on_screen, scalar_to_around_accumulated_pos, Coord2,
    CoordDiff2,
};

fn to_pos(i: i32, screen_tiles: Coord2) -> CoordDiff2 {
    scalar_to_around_accumulated_pos(CoordDiff2::new(100, 200), Coord2::new(2, 5), screen_tiles, i)
}

#[test]
fn test_generate_door() {
    let screen_tiles = Coord2::new(4, 10);
    assert_eq!(to_pos(0, screen_tiles), CoordDiff2::new(98, 195));
    assert_eq!(to_pos(1, screen_tiles), CoordDiff2::new(99, 195));
    assert_eq!(
        to_pos((screen_tiles.x * screen_tiles.y) as i32 - 1, screen_tiles),
        CoordDiff2::new(101, 204)
    )
}

#[test]
fn door_index_wraps_to_next_row() {
    let screen_tiles = Coord2::new(4, 10);
    assert_eq!(to_pos(4, screen_tiles), CoordDiff2::new(98, 196));
    assert_eq!(to_pos(7, screen_tiles), CoordDiff2::new(101, 196));
}

#[test]
fn random_door_lies_within_the_viewport_around_the_player() {
    let screen_tiles = Coord2::new(4, 10);
    let player = Coord2::new(2, 5);
    let acc = CoordDiff2::new(-3, 7);
    for _ in 0..50 {
        let door = calculate_rand_accumulated_pos(acc, player, screen_tiles);
        let dx = door.x - acc.x + player.x as i32;
        let dy = door.y - acc.y + player.y as i32;
        assert!(0 <= dx && dx < 4);
        assert!(0 <= dy && dy < 10);
    }
}

#[test]
fn door_shows_on_screen_only_inside_the_viewport() {
    let screen_tiles = Coord2::new(4, 10);
    let player = Coord2::new(2, 5);
    let acc = CoordDiff2::new(100, 200);
    assert_eq!(
        door_on_screen(player, screen_tiles, acc, CoordDiff2::new(98, 195)),
        Some(Coord2::new(0, 0))
    );
    assert_eq!(
        door_on_screen(player, screen_tiles, acc, CoordDiff2::new(101, 204)),
        Some(Coord2::new(3, 9))
    );
    assert_eq!(door_on_screen(player, screen_tiles, acc, CoordDiff2::new(97, 195)), None);
    assert_eq!(door_on_screen(player, screen_tiles, acc, CoordDiff2::new(102, 200)), None);
    assert_eq!(door_on_screen(player, screen_tiles, acc, CoordDiff2::new(100, 205)), None);
}
