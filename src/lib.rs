mod coord;
mod door;
mod game;
mod grid;
mod map;
mod pursuit;
mod tile;

pub use coord::{lemma_full_lap, lemma_move_back, offset_after, wrap_add, Coord2, CoordDiff2};
pub use door::{
    calculate_rand_accumulated_pos, door_on_screen, door_position,
    scalar_to_around_accumulated_pos,
};
pub use game::{
    is_pursuit_frame, next_frame_count, GameState, FRAME_CYCLE, MAX_HEALTH, PURSUIT_PERIOD,
    REQUIRED_DOORS,
};
pub use grid::{
    cross_cleared, grid_fits, grid_of, is_grid, on_fresh_edge, row_replaced, scrolled, set_cell,
};
pub use map::{MapError, Movement, WorldMap};
pub use pursuit::{
    aligned, all_in_view, candidates, clear_line, lemma_candidates_in_view,
    lemma_occupied_destination, lemma_only_aligned_monsters_move, lemma_pursue_adds_no_wall,
    lemma_pursue_keeps_unaligned, next_x, next_y, pursue, pursue_step, pursued,
};
pub use tile::{roll_tile, tile_for_roll, Tile, FLOOR_ODDS, WALL_ODDS};
