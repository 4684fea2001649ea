use vstd::prelude::*;
use crate::coord::Coord2;
use crate::map::{MapError, WorldMap};
use crate::pursuit::pursued;
use crate::tile::Tile;

verus! {

/// The health a player starts with.
pub const MAX_HEALTH: u32 = 5;

/// How many door parts win the game.
pub const REQUIRED_DOORS: u32 = 4;

/// The monsters take their turn once every this many frames.
pub const PURSUIT_PERIOD: u32 = 60;

/// The frame counter runs from zero up to below this bound, then starts over.
pub const FRAME_CYCLE: u32 = 10000;

/// One session of play: the world, the player's health and the door parts found.
pub struct GameState {
    pub player_health: u32,
    pub map: WorldMap,
    pub doors_parts_collected: u32,
}

impl GameState {
    /// Starts a session on a fresh world of `screen_tiles` with the player at
    /// `player`, full health and no door part found.
    pub fn new(screen_tiles: Coord2, player: Coord2) -> (r: Result<GameState, MapError>)
        requires
            screen_tiles.x > 0 && screen_tiles.y > 0 ==> player.x < screen_tiles.x && player.y
                < screen_tiles.y,
        ensures
            r is Err <==> screen_tiles.x == 0 || screen_tiles.y == 0,
            match r {
                Ok(g) => {
                    &&& g.player_health == MAX_HEALTH
                    &&& g.doors_parts_collected == 0
                    &&& g.map.wf()
                    &&& g.map.width() == screen_tiles.x
                    &&& g.map.height() == screen_tiles.y
                    &&& g.map.anchor() == player
                    &&& g.map.offset().x == 0
                    &&& g.map.offset().y == 0
                    &&& g.map.anchor_tile() == Tile::Floor
                },
                Err(e) => e == MapError::InvalidDimensions,
            },
    {
        match WorldMap::new(screen_tiles, player) {
            Ok(map) => Ok(GameState { player_health: MAX_HEALTH, map, doors_parts_collected: 0 }),
            Err(e) => Err(e),
        }
    }

    /// The monsters take their turn. If a monster stood on the player's cell before
    /// the turn, the player loses one health point, down to zero.
    pub fn pursuit_tick(&mut self)
        requires
            old(self).map.wf(),
        ensures
            final(self).map.wf(),
            final(self).map.width() == old(self).map.width(),
            final(self).map.height() == old(self).map.height(),
            final(self).map.offset() == old(self).map.offset(),
            final(self).map.anchor() == old(self).map.anchor(),
            final(self).map@ == pursued(old(self).map),
            final(self).player_health == if old(self).map.anchor_tile() == Tile::Monster
                && old(self).player_health > 0 {
                old(self).player_health - 1
            } else {
                old(self).player_health as int
            },
            final(self).doors_parts_collected == old(self).doors_parts_collected,
    {
        let player = self.map.player();
        let player_tile = self.map.get(player);
        proof {
            vstd::arithmetic::div_mod::lemma_small_mod(player.x as nat, self.map.width() as nat);
            vstd::arithmetic::div_mod::lemma_small_mod(player.y as nat, self.map.height() as nat);
        }
        self.map.advance();
        if player_tile == Tile::Monster && self.player_health > 0 {
            self.player_health = self.player_health - 1;
        }
    }

    /// Records one door part found, and says whether more remain to be found.
    pub fn collect_door_part(&mut self) -> (more: bool)
        ensures
            final(self).doors_parts_collected == if old(self).doors_parts_collected < u32::MAX {
                old(self).doors_parts_collected + 1
            } else {
                old(self).doors_parts_collected as int
            },
            more == (final(self).doors_parts_collected < REQUIRED_DOORS),
            final(self).player_health == old(self).player_health,
            final(self).map == old(self).map,
    {
        if self.doors_parts_collected < u32::MAX {
            self.doors_parts_collected = self.doors_parts_collected + 1;
        }
        self.doors_parts_collected < REQUIRED_DOORS
    }

    /// The player has no health left.
    pub fn is_dead(&self) -> (r: bool)
        ensures
            r == (self.player_health == 0),
    {
        self.player_health == 0
    }

    /// Enough door parts have been found to win.
    pub fn has_won(&self) -> (r: bool)
        ensures
            r == (self.doors_parts_collected >= REQUIRED_DOORS),
    {
        self.doors_parts_collected >= REQUIRED_DOORS
    }
}

/// Whether the monsters take their turn at the end of frame `frame`.
pub fn is_pursuit_frame(frame: u32) -> (r: bool)
    ensures
        r == ((frame + 1) % (PURSUIT_PERIOD as int) == 0),
{
    (frame as u64 + 1) % (PURSUIT_PERIOD as u64) == 0
}

/// The frame counter after frame `frame`.
pub fn next_frame_count(frame: u32) -> (r: u32)
    ensures
        r == (frame + 1) % (FRAME_CYCLE as int),
{
    ((frame as u64 + 1) % (FRAME_CYCLE as u64)) as u32
}

} // verus!
