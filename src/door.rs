use vstd::prelude::*;
use crate::coord::{Coord2, CoordDiff2};
use crate::tile::next_roll;

verus! {

/// Where the door part numbered `i` (row-major over the viewport) lies, in the
/// player's accumulated displacement: `i % w` columns and `i / w` rows from the
/// viewport's corner, counted from the player's current spot.
pub open spec fn door_position(acc: CoordDiff2, player: Coord2, screen_tiles: Coord2, i: int) -> (
    int,
    int,
) {
    (
        i % (screen_tiles.x as int) - player.x + acc.x,
        i / (screen_tiles.x as int) - player.y + acc.y,
    )
}

/// Turns a cell index `i` of the viewport into a door position in accumulated
/// displacement.
pub fn scalar_to_around_accumulated_pos(
    accumulated_pos: CoordDiff2,
    player: Coord2,
    screen_tiles: Coord2,
    i: i32,
) -> (r: CoordDiff2)
    requires
        screen_tiles.x > 0,
        i >= 0,
        i32::MIN <= door_position(accumulated_pos, player, screen_tiles, i as int).0 <= i32::MAX,
        i32::MIN <= door_position(accumulated_pos, player, screen_tiles, i as int).1 <= i32::MAX,
    ensures
        r.x == door_position(accumulated_pos, player, screen_tiles, i as int).0,
        r.y == door_position(accumulated_pos, player, screen_tiles, i as int).1,
{
    let cell: u32 = i as u32;
    let column: u32 = cell % screen_tiles.x;
    let row: u32 = cell / screen_tiles.x;
    let x: i64 = column as i64 - player.x as i64 + accumulated_pos.x as i64;
    let y: i64 = row as i64 - player.y as i64 + accumulated_pos.y as i64;
    CoordDiff2::new(x as i32, y as i32)
}

/// Picks the next door part's position: a cell of the viewport drawn at random,
/// in accumulated displacement.
pub fn calculate_rand_accumulated_pos(
    accumulated_pos: CoordDiff2,
    player: Coord2,
    screen_tiles: Coord2,
) -> (r: CoordDiff2)
    requires
        screen_tiles.x > 0,
        screen_tiles.y > 0,
        screen_tiles.x * screen_tiles.y <= i32::MAX,
        i32::MIN <= accumulated_pos.x - player.x,
        accumulated_pos.x - player.x + screen_tiles.x - 1 <= i32::MAX,
        i32::MIN <= accumulated_pos.y - player.y,
        accumulated_pos.y - player.y + screen_tiles.y - 1 <= i32::MAX,
    ensures
        exists|i: int|
            0 <= i < screen_tiles.x * screen_tiles.y && (r.x as int, r.y as int) == #[trigger] door_position(
                accumulated_pos,
                player,
                screen_tiles,
                i,
            ),
{
    let area: u32 = screen_tiles.x * screen_tiles.y;
    proof {
        assert(area > 0) by (nonlinear_arith)
            requires
                area == screen_tiles.x * screen_tiles.y,
                screen_tiles.x > 0,
                screen_tiles.y > 0,
        ;
    }
    let i: u32 = next_roll() % area;
    proof {
        let w = screen_tiles.x as int;
        let h = screen_tiles.y as int;
        assert(0 <= (i as int) / w < h) by (nonlinear_arith)
            requires
                0 <= i < w * h,
                w > 0,
                h > 0,
        ;
        assert(0 <= (i as int) % w < w) by (nonlinear_arith)
            requires
                w > 0,
        ;
    }
    let r = scalar_to_around_accumulated_pos(accumulated_pos, player, screen_tiles, i as i32);
    proof {
        assert((r.x as int, r.y as int) == door_position(accumulated_pos, player, screen_tiles, i as int));
    }
    r
}

/// Where the door part at `next_door` shows in the viewport, if it does: the
/// player at `player` has moved by `accumulated_pos` so far.
pub fn door_on_screen(
    player: Coord2,
    screen_tiles: Coord2,
    accumulated_pos: CoordDiff2,
    next_door: CoordDiff2,
) -> (r: Option<Coord2>)
    ensures
        ({
            let x = next_door.x - accumulated_pos.x + player.x;
            let y = next_door.y - accumulated_pos.y + player.y;
            &&& r is Some <==> (0 <= x < screen_tiles.x && 0 <= y < screen_tiles.y)
            &&& r matches Some(c) ==> c.x == x && c.y == y
        }),
{
    let x: i64 = next_door.x as i64 - accumulated_pos.x as i64 + player.x as i64;
    let y: i64 = next_door.y as i64 - accumulated_pos.y as i64 + player.y as i64;
    if 0 <= x && x < screen_tiles.x as i64 && 0 <= y && y < screen_tiles.y as i64 {
        Some(Coord2::new(x as u32, y as u32))
    } else {
        None
    }
}

} // verus!
