use dream_maze::{
    tile_for_roll, wrap_add, Coord2, CoordDiff2, MapError, Movement, Tile, WorldMap,
};

const F: Tile = Tile::Floor;
const W: Tile = Tile::Wall;
const M: Tile = Tile::Monster;

fn columns(cols: &[&[Tile]]) -> Vec<Vec<Tile>> {
    cols.iter().map(|c| c.to_vec()).collect()
}

fn snapshot(map: &WorldMap) -> Vec<Vec<Tile>> {
    let size = map.size();
    (0..size.x)
        .map(|x| (0..size.y).map(|y| map.get(Coord2::new(x, y))).collect())
        .collect()
}

fn rolled(width: u32, height: u32, rolls: &[u32]) -> Vec<Vec<Tile>> {
    let mut k = 0;
    let mut tiles = Vec::new();
    for _ in 0..width {
        let mut column = Vec::new();
        for _ in 0..height {
            column.push(tile_for_roll(rolls[k % rolls.len()]));
            k += 1;
        }
        tiles.push(column);
    }
    tiles
}

#[test]
fn rolls_map_to_tiles_by_thresholds() {
    assert_eq!(tile_for_roll(0), Tile::Wall);
    assert_eq!(tile_for_roll(48), Tile::Wall);
    assert_eq!(tile_for_roll(49), Tile::Floor);
    assert_eq!(tile_for_roll(97), Tile::Floor);
    assert_eq!(tile_for_roll(98), Tile::Monster);
    assert_eq!(tile_for_roll(99), Tile::Monster);
    assert_eq!(tile_for_roll(100), Tile::Wall);
    assert_eq!(tile_for_roll(149), Tile::Floor);
    assert_eq!(tile_for_roll(u32::MAX), Tile::Floor);
}

#[test]
fn wrap_add_stays_on_the_ring() {
    assert_eq!(wrap_add(0, -1, 5), 4);
    assert_eq!(wrap_add(4, 1, 5), 0);
    assert_eq!(wrap_add(2, 1, 5), 3);
    assert_eq!(wrap_add(2, -7, 5), 0);
    assert_eq!(wrap_add(3, i32::MIN, 7), 1);
    assert_eq!(wrap_add(u32::MAX, i32::MAX, 10), 2);
}

#[test]
fn new_rejects_an_empty_viewport() {
    assert!(matches!(
        WorldMap::new(Coord2::new(0, 10), Coord2::new(0, 0)),
        Err(MapError::InvalidDimensions)
    ));
    assert!(matches!(
        WorldMap::new(Coord2::new(4, 0), Coord2::new(0, 0)),
        Err(MapError::InvalidDimensions)
    ));
}

#[test]
fn new_clears_the_player_row_and_column() {
    macroquad::rand::srand(42000);
    let map = WorldMap::new(Coord2::new(4, 10), Coord2::new(2, 5)).unwrap();
    assert_eq!(map.size(), Coord2::new(4, 10));
    assert_eq!(map.scroll_offset(), Coord2::new(0, 0));
    assert_eq!(map.player(), Coord2::new(2, 5));
    for x in 0..4 {
        assert_eq!(map.get(Coord2::new(x, 5)), Tile::Floor);
    }
    for y in 0..10 {
        assert_eq!(map.get(Coord2::new(2, y)), Tile::Floor);
    }
}

#[test]
fn generated_fixture_keeps_tiles_off_the_player_cross() {
    let rolls = [0, 50, 98, 12, 77, 99, 48, 49];
    let tiles = rolled(4, 10, &rolls);
    let map = WorldMap::from_generated(tiles.clone(), Coord2::new(2, 5)).unwrap();
    for x in 0..4u32 {
        for y in 0..10u32 {
            let expected = if x == 2 || y == 5 { Tile::Floor } else { tiles[x as usize][y as usize] };
            assert_eq!(map.get(Coord2::new(x, y)), expected);
        }
    }
    assert_eq!(map.get(Coord2::new(0, 0)), Tile::Wall);
    assert_eq!(map.get(Coord2::new(0, 1)), Tile::Floor);
    assert_eq!(map.get(Coord2::new(0, 2)), Tile::Monster);
}

#[test]
fn generated_all_wall_fixture_leaves_only_the_cross_open() {
    let tiles = vec![vec![Tile::Wall; 10]; 4];
    let map = WorldMap::from_generated(tiles, Coord2::new(2, 5)).unwrap();
    for x in 0..4u32 {
        for y in 0..10u32 {
            let expected = if x == 2 || y == 5 { Tile::Floor } else { Tile::Wall };
            assert_eq!(map.get(Coord2::new(x, y)), expected);
        }
    }
}

#[test]
fn from_grid_rejects_bad_shapes() {
    assert!(matches!(WorldMap::from_grid(vec![], Coord2::new(0, 0)), Err(MapError::InvalidDimensions)));
    assert!(matches!(
        WorldMap::from_grid(vec![vec![]], Coord2::new(0, 0)),
        Err(MapError::InvalidDimensions)
    ));
    assert!(matches!(
        WorldMap::from_grid(columns(&[&[F, F], &[F]]), Coord2::new(0, 0)),
        Err(MapError::InvalidDimensions)
    ));
    assert!(matches!(
        WorldMap::from_grid(columns(&[&[F, F], &[F, F]]), Coord2::new(2, 0)),
        Err(MapError::InvalidDimensions)
    ));
    assert!(WorldMap::from_grid(columns(&[&[F, F], &[F, F]]), Coord2::new(1, 1)).is_ok());
}

#[test]
fn get_takes_coordinates_modulo_the_size() {
    let map = WorldMap::from_grid(columns(&[&[F, W], &[M, F], &[W, M]]), Coord2::new(0, 0)).unwrap();
    assert_eq!(map.get(Coord2::new(2, 1)), Tile::Monster);
    assert_eq!(map.get(Coord2::new(5, 3)), Tile::Monster);
    assert_eq!(map.get(Coord2::new(4, 2)), Tile::Monster);
    assert_eq!(map.get(Coord2::new(u32::MAX, 0)), Tile::Floor);
}

#[test]
fn move_into_a_wall_is_blocked_and_changes_nothing() {
    let tiles = columns(&[&[F, W, F], &[M, F, W], &[F, F, F]]);
    let mut map = WorldMap::from_grid(tiles.clone(), Coord2::new(1, 1)).unwrap();
    let before = snapshot(&map);
    assert_eq!(map.move_with(CoordDiff2::down(), &vec![M, M, M]), Movement::Blocked);
    assert_eq!(map.move_down(), Movement::Blocked);
    assert_eq!(map.move_to(CoordDiff2::down()), Movement::Blocked);
    assert_eq!(snapshot(&map), before);
    assert_eq!(map.scroll_offset(), Coord2::new(0, 0));
    assert_eq!(snapshot(&map), tiles);
}

#[test]
fn move_down_scrolls_and_fills_the_bottom_row() {
    let tiles = columns(&[&[F, W, M], &[F, F, F], &[W, M, F]]);
    let mut map = WorldMap::from_grid(tiles, Coord2::new(1, 1)).unwrap();
    assert_eq!(map.move_with(CoordDiff2::down(), &vec![M, W, F]), Movement::Moved);
    assert_eq!(map.scroll_offset(), Coord2::new(0, 1));
    assert_eq!(snapshot(&map), columns(&[&[W, M, M], &[F, F, W], &[M, F, F]]));
}

#[test]
fn move_left_scrolls_and_fills_the_left_column() {
    let tiles = columns(&[&[F, F, M], &[F, F, F], &[W, M, F]]);
    let mut map = WorldMap::from_grid(tiles, Coord2::new(1, 1)).unwrap();
    assert_eq!(map.move_with(CoordDiff2::left(), &vec![M, M, W]), Movement::Moved);
    assert_eq!(map.scroll_offset(), Coord2::new(2, 0));
    assert_eq!(snapshot(&map), columns(&[&[M, M, W], &[F, F, M], &[F, F, F]]));
}

#[test]
fn full_lap_of_moves_restores_the_offset() {
    let mut map = WorldMap::from_grid(vec![vec![F; 3]; 5], Coord2::new(2, 1)).unwrap();
    let column = vec![F; 3];
    for step in 1..=5u32 {
        assert_eq!(map.move_with(CoordDiff2::right(), &column), Movement::Moved);
        assert!(map.scroll_offset().x < 5);
        assert_eq!(map.scroll_offset().x, step % 5);
    }
    assert_eq!(map.scroll_offset(), Coord2::new(0, 0));
    let row = vec![F; 5];
    for _ in 0..3 {
        assert_eq!(map.move_with(CoordDiff2::up(), &row), Movement::Moved);
        assert!(map.scroll_offset().y < 3);
    }
    assert_eq!(map.scroll_offset(), Coord2::new(0, 0));
}

#[test]
fn down_then_up_restores_the_offset() {
    let mut map = WorldMap::from_grid(vec![vec![F; 4]; 4], Coord2::new(1, 1)).unwrap();
    let row = vec![F; 4];
    assert_eq!(map.move_with(CoordDiff2::down(), &row), Movement::Moved);
    assert_eq!(map.move_with(CoordDiff2::down(), &row), Movement::Moved);
    let start = map.scroll_offset();
    assert_eq!(map.move_with(CoordDiff2::down(), &vec![F; 4]), Movement::Moved);
    assert_eq!(map.move_with(CoordDiff2::up(), &vec![F; 4]), Movement::Moved);
    assert_eq!(map.scroll_offset(), start);
    let column = vec![F; 4];
    let start = map.scroll_offset();
    assert_eq!(map.move_with(CoordDiff2::right(), &column), Movement::Moved);
    assert_eq!(map.move_with(CoordDiff2::left(), &column), Movement::Moved);
    assert_eq!(map.scroll_offset(), start);
}

#[test]
fn anchor_never_holds_a_wall_in_play() {
    macroquad::rand::srand(7);
    let mut map = WorldMap::new(Coord2::new(9, 7), Coord2::new(4, 3)).unwrap();
    let player = map.player();
    for k in 0..400u32 {
        match k % 5 {
            0 => {
                map.move_down();
            }
            1 => {
                map.move_right();
            }
            2 => {
                map.move_up();
            }
            3 => {
                map.move_left();
            }
            _ => map.advance(),
        }
        assert_ne!(map.get(player), Tile::Wall);
        assert!(map.scroll_offset().x < 9 && map.scroll_offset().y < 7);
    }
}
