use dream_maze::{Coord2, CoordDiff2, Movement, Tile, WorldMap};

const F: Tile = Tile::Floor;
const W: Tile = Tile::Wall;
const M: Tile = Tile::Monster;

/// A world one row high holding `row`, with the player on cell `player_x`.
fn one_row(row: &[Tile], player_x: u32) -> WorldMap {
    WorldMap::from_grid(row.iter().map(|t| vec![*t]).collect(), Coord2::new(player_x, 0)).unwrap()
}

fn row_of(map: &WorldMap) -> Vec<Tile> {
    (0..map.size().x).map(|x| map.get(Coord2::new(x, 0))).collect()
}

#[test]
fn wall_in_between_blocks_the_sight() {
    let mut map = one_row(&[M, F, W, F, F], 4);
    map.advance();
    assert_eq!(row_of(&map), vec![M, F, W, F, F]);
}

#[test]
fn clear_sight_moves_the_monster_one_cell() {
    let mut map = one_row(&[M, F, F, F], 3);
    map.advance();
    assert_eq!(row_of(&map), vec![F, M, F, F]);
    map.advance();
    assert_eq!(row_of(&map), vec![F, F, M, F]);
    map.advance();
    assert_eq!(row_of(&map), vec![F, F, F, M]);
}

#[test]
fn monster_right_of_the_player_moves_left() {
    let mut map = one_row(&[F, F, F, M], 0);
    map.advance();
    assert_eq!(row_of(&map), vec![F, F, M, F]);
}

#[test]
fn monster_in_the_player_column_moves_vertically() {
    let mut map = WorldMap::from_grid(vec![vec![M, F, F, F]], Coord2::new(0, 3)).unwrap();
    map.advance();
    let column: Vec<Tile> = (0..4).map(|y| map.get(Coord2::new(0, y))).collect();
    assert_eq!(column, vec![F, M, F, F]);
}

#[test]
fn occupied_destination_keeps_the_monster() {
    let mut map = one_row(&[M, M, F, F], 3);
    map.advance();
    assert_eq!(row_of(&map), vec![M, F, M, F]);
    let count = row_of(&map).iter().filter(|t| **t == M).count();
    assert_eq!(count, 2);
}

#[test]
fn wall_on_the_anchor_stops_an_adjacent_monster() {
    let mut map = one_row(&[M, W], 1);
    map.advance();
    assert_eq!(row_of(&map), vec![M, W]);
}

#[test]
fn off_axis_monsters_do_not_move() {
    let tiles = vec![vec![M, F, F], vec![F, F, F], vec![F, F, M]];
    let mut map = WorldMap::from_grid(tiles.clone(), Coord2::new(1, 1)).unwrap();
    map.advance();
    for x in 0..3u32 {
        for y in 0..3u32 {
            assert_eq!(map.get(Coord2::new(x, y)), tiles[x as usize][y as usize]);
        }
    }
}

#[test]
fn monster_on_the_anchor_stays() {
    let mut map = one_row(&[F, M, F], 1);
    map.advance();
    assert_eq!(row_of(&map), vec![F, M, F]);
}

#[test]
fn pursuit_follows_the_scrolled_view() {
    let tiles = vec![vec![F, F, F], vec![F, F, F], vec![F, F, F], vec![M, F, F]];
    let mut map = WorldMap::from_grid(tiles, Coord2::new(1, 1)).unwrap();
    map.advance();
    assert_eq!(map.get(Coord2::new(3, 0)), M);
    assert_eq!(map.move_with(CoordDiff2::up(), &vec![F, F, F, F]), Movement::Moved);
    assert_eq!(map.get(Coord2::new(3, 1)), M);
    map.advance();
    assert_eq!(map.get(Coord2::new(3, 1)), F);
    assert_eq!(map.get(Coord2::new(2, 1)), M);
}
