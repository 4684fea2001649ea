use vstd::prelude::*;

verus! {

/// What a cell of the world holds.
#[derive(Clone, Copy, PartialEq, Eq, Debug, Structural)]
pub enum Tile {
    Floor,
    Wall,
    Monster,
}

/// Out of every hundred rolls, those below this bound make a wall.
pub const WALL_ODDS: u32 = 49;

/// Out of every hundred rolls, those below this bound and not a wall make a floor;
/// the rest make a monster.
pub const FLOOR_ODDS: u32 = 98;

/// The tile that a roll of the random source produces.
pub open spec fn roll_tile(roll: u32) -> Tile {
    let r = roll % 100;
    if r < WALL_ODDS {
        Tile::Wall
    } else if r < FLOOR_ODDS {
        Tile::Floor
    } else {
        Tile::Monster
    }
}

/// Maps a roll of the random source to a tile: walls and floors 49 in a hundred
/// each, monsters the other two.
pub fn tile_for_roll(roll: u32) -> (t: Tile)
    ensures
        t == roll_tile(roll),
{
    let r: u32 = roll % 100;
    if r < WALL_ODDS {
        Tile::Wall
    } else if r < FLOOR_ODDS {
        Tile::Floor
    } else {
        Tile::Monster
    }
}

/// Relies on macroquad::rand::rand: the next number of the process-wide
/// pseudo-random generator, any `u32`.
#[verifier::external_body]
pub(crate) fn next_roll() -> (r: u32) {
    macroquad::rand::rand()
}

/// Draws one fresh tile from the generation distribution.
pub(crate) fn generate_tile() -> (t: Tile)
    ensures
        exists|roll: u32| t == roll_tile(roll),
{
    let roll = next_roll();
    tile_for_roll(roll)
}

} // verus!
