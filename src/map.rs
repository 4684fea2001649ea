use vstd::prelude::*;
use crate::coord::{lemma_mod_lap, wrap_add, Coord2, CoordDiff2};
use crate::grid::{
    cross_cleared, grid_fits, grid_of, is_grid, row_replaced, scrolled, set_cell,
};
use crate::pursuit::{
    aligned, all_in_view, candidates, clear_line, column_candidates, lemma_candidates_in_view,
    lemma_pursue_adds_no_wall, logical_index, next_x, next_y, pursue, pursue_step, pursued,
    scan_candidates, sign_toward,
};
use crate::tile::{generate_tile, Tile};

verus! {

/// Why a world could not be built.
#[derive(Clone, Copy, PartialEq, Eq, Debug, Structural)]
pub enum MapError {
    /// A side of the world is empty, the columns differ in length, a side does not
    /// fit a `u32`, or the player anchor lies outside the world.
    InvalidDimensions,
}

/// What a move of the player came to.
#[derive(Clone, Copy, PartialEq, Eq, Debug, Structural)]
pub enum Movement {
    /// The viewport scrolled by one cell.
    Moved,
    /// A wall stood in the way; nothing changed.
    Blocked,
}

/// The fixed-size ring buffer of tiles that the viewport slides over.
///
/// Logical (viewport) coordinate `(x, y)` is stored at
/// `((x + offset.x) % width, (y + offset.y) % height)`.
pub struct WorldMap {
    tiles: Vec<Vec<Tile>>,
    size: Coord2,
    offset: Coord2,
    player: Coord2,
}

/// Index `i` of a ring of `n` cells, moved on by `o`; both `i` and `o` lie in `[0, n)`.
spec fn shift(i: int, o: int, n: int) -> int {
    if i + o < n {
        i + o
    } else {
        i + o - n
    }
}

/// Moving the offset by one cell shows what the next logical index showed before.
proof fn lemma_shift_step(i: int, o: int, d: int, n: int)
    requires
        0 <= i < n,
        0 <= o < n,
        -1 <= d <= 1,
    ensures
        0 <= (o + d) % n < n,
        0 <= (i + d) % n < n,
        shift(i, (o + d) % n, n) == shift((i + d) % n, o, n),
{
    lemma_step_mod(o, d, n);
    lemma_step_mod(i, d, n);
}

/// One step on a ring of `n` cells, written out without `%`.
pub proof fn lemma_step_mod(i: int, d: int, n: int)
    requires
        0 <= i < n,
        -1 <= d <= 1,
    ensures
        (i + d) % n == if i + d == n {
            0
        } else if i + d == -1 {
            n - 1
        } else {
            i + d
        },
{
    if i + d == n {
        lemma_mod_lap(i + d, n, 1, 0);
    } else if i + d == -1 {
        lemma_mod_lap(i + d, n, -1, n - 1);
    } else {
        lemma_mod_lap(i + d, n, 0, i + d);
    }
}

impl View for WorldMap {
    type V = Seq<Seq<Tile>>;

    /// The viewport as the player sees it: `self@[x][y]` is the tile at logical
    /// coordinate `(x, y)`.
    closed spec fn view(&self) -> Seq<Seq<Tile>> {
        Seq::new(
            self.size.x as nat,
            |x: int|
                Seq::new(
                    self.size.y as nat,
                    |y: int|
                        self.tiles@[shift(x, self.offset.x as int, self.size.x as int)]@[shift(
                            y,
                            self.offset.y as int,
                            self.size.y as int,
                        )],
                ),
        )
    }
}

impl WorldMap {
    /// The storage is a rectangle of `width` columns of `height` tiles.
    pub closed spec fn storage_ok(&self) -> bool {
        &&& self.size.x > 0
        &&& self.size.y > 0
        &&& self.tiles@.len() == self.size.x
        &&& forall|i: int| 0 <= i < self.tiles@.len() ==> #[trigger] self.tiles@[i]@.len() == self.size.y
        &&& self.offset.x < self.size.x
        &&& self.offset.y < self.size.y
    }

    /// The number of columns.
    pub closed spec fn width(&self) -> int {
        self.size.x as int
    }

    /// The number of rows.
    pub closed spec fn height(&self) -> int {
        self.size.y as int
    }

    /// How far the viewport has scrolled over the storage.
    pub closed spec fn offset(&self) -> Coord2 {
        self.offset
    }

    /// The player anchor: the logical coordinate where the player stands.
    pub closed spec fn anchor(&self) -> Coord2 {
        self.player
    }

    /// The player anchor.
    pub fn player(&self) -> (p: Coord2)
        ensures
            p == self.anchor(),
    {
        self.player
    }

    /// The player anchor stands off the viewport's border, so that the edge that a
    /// move brings into view never holds the anchor.
    pub open spec fn anchor_off_edge(&self) -> bool {
        &&& 0 < self.anchor().x < self.width() - 1
        &&& 0 < self.anchor().y < self.height() - 1
    }

    /// How far the viewport has scrolled over the storage.
    pub fn scroll_offset(&self) -> (r: Coord2)
        ensures
            r == self.offset(),
    {
        self.offset
    }

    /// The number of columns and rows of the world.
    pub fn size(&self) -> (r: Coord2)
        ensures
            r.x == self.width(),
            r.y == self.height(),
    {
        self.size
    }

    /// A well-formed world: a non-empty rectangle, the offset and the player anchor
    /// inside it.
    pub open spec fn wf(&self) -> bool {
        &&& self.storage_ok()
        &&& self.width() > 0
        &&& self.height() > 0
        &&& self.width() <= u32::MAX
        &&& self.height() <= u32::MAX
        &&& is_grid(self@, self.width(), self.height())
        &&& self.offset().x < self.width()
        &&& self.offset().y < self.height()
        &&& self.anchor().x < self.width()
        &&& self.anchor().y < self.height()
    }

    /// The tile that sits at the player anchor.
    pub open spec fn anchor_tile(&self) -> Tile {
        self@[self.anchor().x as int][self.anchor().y as int]
    }

    /// What the view shows, cell by cell, in terms of the storage.
    proof fn lemma_view(&self)
        requires
            self.storage_ok(),
        ensures
            (self.player.x < self.size.x && self.player.y < self.size.y) ==> self.wf(),
            is_grid(self@, self.width(), self.height()),
            forall|x: int, y: int|
                0 <= x < self.width() && 0 <= y < self.height() ==> #[trigger] self@[x][y]
                    == self.tiles@[shift(x, self.offset.x as int, self.size.x as int)]@[shift(
                    y,
                    self.offset.y as int,
                    self.size.y as int,
                )],
    {
    }

    /// Reads the tile at a logical coordinate; any coordinate is taken modulo the
    /// size of the world.
    pub fn get(&self, pos: Coord2) -> (t: Tile)
        requires
            self.wf(),
        ensures
            t == self@[pos.x as int % self.width()][pos.y as int % self.height()],
    {
        proof {
            self.lemma_view();
        }
        let (sx, sy) = self.storage_index(Coord2::new(pos.x % self.size.x, pos.y % self.size.y));
        self.tiles[sx][sy]
    }

    /// Where a logical coordinate of the viewport is stored.
    fn storage_index(&self, pos: Coord2) -> (r: (usize, usize))
        requires
            self.storage_ok(),
            pos.x < self.size.x,
            pos.y < self.size.y,
        ensures
            r.0 == shift(pos.x as int, self.offset.x as int, self.size.x as int),
            r.1 == shift(pos.y as int, self.offset.y as int, self.size.y as int),
            r.0 < self.tiles@.len(),
            r.1 < self.tiles@[r.0 as int]@.len(),
    {
        let sx: u64 = if (pos.x as u64) + (self.offset.x as u64) < self.size.x as u64 {
            pos.x as u64 + self.offset.x as u64
        } else {
            pos.x as u64 + self.offset.x as u64 - self.size.x as u64
        };
        let sy: u64 = if (pos.y as u64) + (self.offset.y as u64) < self.size.y as u64 {
            pos.y as u64 + self.offset.y as u64
        } else {
            pos.y as u64 + self.offset.y as u64 - self.size.y as u64
        };
        (sx as usize, sy as usize)
    }

    /// Writes the tile at a logical coordinate inside the viewport.
    fn set(&mut self, pos: Coord2, t: Tile)
        requires
            old(self).wf(),
            pos.x < old(self).width(),
            pos.y < old(self).height(),
        ensures
            final(self).wf(),
            final(self).width() == old(self).width(),
            final(self).height() == old(self).height(),
            final(self).offset() == old(self).offset(),
            final(self).anchor() == old(self).anchor(),
            final(self)@ == set_cell(old(self)@, pos.x as int, pos.y as int, t),
    {
        proof {
            self.lemma_view();
        }
        let (sx, sy) = self.storage_index(pos);
        self.tiles[sx][sy] = t;
        proof {
            self.lemma_view();
            assert(self@ =~~= set_cell(old(self)@, pos.x as int, pos.y as int, t));
        }
    }

    /// Builds a world that shows exactly `tiles` (`tiles[x][y]` at logical
    /// coordinate `(x, y)`), with the player anchor at `player` and no scroll yet.
    pub fn from_grid(tiles: Vec<Vec<Tile>>, player: Coord2) -> (r: Result<WorldMap, MapError>)
        ensures
            r is Ok <==> grid_fits(grid_of(tiles@), player),
            match r {
                Ok(m) => {
                    &&& m.wf()
                    &&& m@ == grid_of(tiles@)
                    &&& m.width() == tiles@.len()
                    &&& m.height() == tiles@[0]@.len()
                    &&& m.anchor() == player
                    &&& m.offset().x == 0
                    &&& m.offset().y == 0
                },
                Err(e) => e == MapError::InvalidDimensions,
            },
    {
        let w: usize = tiles.len();
        if w == 0 || w > u32::MAX as usize {
            return Err(MapError::InvalidDimensions);
        }
        let h: usize = tiles[0].len();
        if h == 0 || h > u32::MAX as usize {
            return Err(MapError::InvalidDimensions);
        }
        let mut i: usize = 0;
        while i < w
            invariant
                w == tiles@.len(),
                h == tiles@[0]@.len(),
                0 < w <= u32::MAX,
                0 < h <= u32::MAX,
                i <= w,
                forall|j: int| 0 <= j < i ==> (#[trigger] tiles@[j])@.len() == h,
            decreases w - i,
        {
            if tiles[i].len() != h {
                proof {
                    assert(grid_of(tiles@)[i as int].len() != h);
                }
                return Err(MapError::InvalidDimensions);
            }
            i = i + 1;
        }
        if player.x as usize >= w || player.y as usize >= h {
            return Err(MapError::InvalidDimensions);
        }
        let m = WorldMap {
            tiles,
            size: Coord2::new(w as u32, h as u32),
            offset: Coord2::new(0, 0),
            player,
        };
        proof {
            m.lemma_view();
            assert(m@ =~~= grid_of(m.tiles@));
        }
        Ok(m)
    }

    /// Turns the whole row and the whole column through the player anchor to floor.
    fn clear_cross(&mut self)
        requires
            old(self).wf(),
        ensures
            final(self).wf(),
            final(self).width() == old(self).width(),
            final(self).height() == old(self).height(),
            final(self).offset() == old(self).offset(),
            final(self).anchor() == old(self).anchor(),
            final(self)@ == cross_cleared(old(self)@, old(self).anchor()),
    {
        let ghost g = self@;
        let ghost w = self.width();
        let ghost h = self.height();
        let p = self.player;
        let mut i: u32 = 0;
        while i < self.size.x
            invariant
                self.wf(),
                self.width() == w,
                self.height() == h,
                self.offset() == old(self).offset(),
                self.anchor() == p,
                p == old(self).anchor(),
                g == old(self)@,
                i <= w,
                forall|x: int, y: int|
                    0 <= x < w && 0 <= y < h ==> #[trigger] self@[x][y] == if x < i && y == p.y {
                        Tile::Floor
                    } else {
                        g[x][y]
                    },
            decreases w - i,
        {
            self.set(Coord2::new(i, p.y), Tile::Floor);
            i = i + 1;
        }
        let mut j: u32 = 0;
        while j < self.size.y
            invariant
                self.wf(),
                self.width() == w,
                self.height() == h,
                self.offset() == old(self).offset(),
                self.anchor() == p,
                p == old(self).anchor(),
                g == old(self)@,
                j <= h,
                forall|x: int, y: int|
                    0 <= x < w && 0 <= y < h ==> #[trigger] self@[x][y] == if y == p.y || (x
                        == p.x && y < j) {
                        Tile::Floor
                    } else {
                        g[x][y]
                    },
            decreases h - j,
        {
            self.set(Coord2::new(p.x, j), Tile::Floor);
            j = j + 1;
        }
        assert(self@ =~~= cross_cleared(g, p));
    }

    /// Builds a world from freshly generated tiles (`tiles[x][y]` at logical
    /// coordinate `(x, y)`), then clears the player's row and column to floor.
    pub fn from_generated(tiles: Vec<Vec<Tile>>, player: Coord2) -> (r: Result<
        WorldMap,
        MapError,
    >)
        ensures
            r is Ok <==> grid_fits(grid_of(tiles@), player),
            match r {
                Ok(m) => {
                    &&& m.wf()
                    &&& m@ == cross_cleared(grid_of(tiles@), player)
                    &&& m.width() == tiles@.len()
                    &&& m.height() == tiles@[0]@.len()
                    &&& m.anchor() == player
                    &&& m.offset().x == 0
                    &&& m.offset().y == 0
                },
                Err(e) => e == MapError::InvalidDimensions,
            },
    {
        match WorldMap::from_grid(tiles, player) {
            Ok(m) => {
                let mut m = m;
                m.clear_cross();
                Ok(m)
            },
            Err(e) => Err(e),
        }
    }

    /// Builds a world of `screen_tiles.x` by `screen_tiles.y` tiles, each drawn from
    /// the generation distribution, with the player's row and column cleared to
    /// floor and no scroll yet.
    pub fn new(screen_tiles: Coord2, player: Coord2) -> (r: Result<WorldMap, MapError>)
        requires
            screen_tiles.x > 0 && screen_tiles.y > 0 ==> player.x < screen_tiles.x && player.y
                < screen_tiles.y,
        ensures
            r is Err <==> screen_tiles.x == 0 || screen_tiles.y == 0,
            match r {
                Ok(m) => {
                    &&& m.wf()
                    &&& m.width() == screen_tiles.x
                    &&& m.height() == screen_tiles.y
                    &&& m.anchor() == player
                    &&& m.offset().x == 0
                    &&& m.offset().y == 0
                    &&& m.anchor_tile() == Tile::Floor
                    &&& forall|x: int| 0 <= x < m.width() ==> #[trigger] m@[x][player.y as int]
                        == Tile::Floor
                    &&& forall|y: int| 0 <= y < m.height() ==> #[trigger] m@[player.x as int][y]
                        == Tile::Floor
                },
                Err(e) => e == MapError::InvalidDimensions,
            },
    {
        if screen_tiles.x == 0 || screen_tiles.y == 0 {
            return Err(MapError::InvalidDimensions);
        }
        let mut tiles: Vec<Vec<Tile>> = Vec::new();
        let mut i: u32 = 0;
        while i < screen_tiles.x
            invariant
                i <= screen_tiles.x,
                tiles@.len() == i,
                forall|k: int| 0 <= k < i ==> (#[trigger] tiles@[k])@.len() == screen_tiles.y,
            decreases screen_tiles.x - i,
        {
            let mut column: Vec<Tile> = Vec::new();
            let mut j: u32 = 0;
            while j < screen_tiles.y
                invariant
                    j <= screen_tiles.y,
                    column@.len() == j,
                decreases screen_tiles.y - j,
            {
                column.push(generate_tile());
                j = j + 1;
            }
            tiles.push(column);
            i = i + 1;
        }
        proof {
            let g = grid_of(tiles@);
            assert(is_grid(g, g.len() as int, g[0].len() as int));
        }
        WorldMap::from_generated(tiles, player)
    }

    /// Adds a displacement to a logical coordinate, wrapping around the world.
    fn add_coord(&self, pos: Coord2, diff: CoordDiff2) -> (r: Coord2)
        requires
            self.wf(),
        ensures
            r.x == (pos.x + diff.x) % self.width(),
            r.y == (pos.y + diff.y) % self.height(),
    {
        Coord2::new(wrap_add(pos.x, diff.x, self.size.x), wrap_add(pos.y, diff.y, self.size.y))
    }

    /// Redraws logical row `i_y` from `fresh`, one tile per column.
    fn replace_row(&mut self, i_y: u32, fresh: &Vec<Tile>)
        requires
            old(self).wf(),
            i_y < old(self).height(),
            fresh@.len() == old(self).width(),
        ensures
            final(self).wf(),
            final(self).size == old(self).size,
            final(self).offset == old(self).offset,
            final(self).player == old(self).player,
            final(self)@ == row_replaced(old(self)@, i_y as int, fresh@),
    {
        let ghost g = self@;
        let ghost w = self.width();
        let ghost h = self.height();
        let mut i: u32 = 0;
        while i < self.size.x
            invariant
                self.wf(),
                self.size == old(self).size,
                self.offset == old(self).offset,
                self.player == old(self).player,
                g == old(self)@,
                w == self.width(),
                h == self.height(),
                fresh@.len() == w,
                i_y < h,
                i <= w,
                forall|x: int, y: int|
                    0 <= x < w && 0 <= y < h ==> #[trigger] self@[x][y] == if x < i && y == i_y {
                        fresh@[x]
                    } else {
                        g[x][y]
                    },
            decreases w - i,
        {
            self.set(Coord2::new(i, i_y), fresh[i as usize]);
            i = i + 1;
        }
        assert(self@ =~~= row_replaced(g, i_y as int, fresh@));
    }

    /// Redraws logical column `i_x` from `fresh`, one tile per row.
    fn replace_column(&mut self, i_x: u32, fresh: &Vec<Tile>)
        requires
            old(self).wf(),
            i_x < old(self).width(),
            fresh@.len() == old(self).height(),
        ensures
            final(self).wf(),
            final(self).size == old(self).size,
            final(self).offset == old(self).offset,
            final(self).player == old(self).player,
            final(self)@ == old(self)@.update(i_x as int, fresh@),
    {
        let ghost g = self@;
        let ghost w = self.width();
        let ghost h = self.height();
        let mut j: u32 = 0;
        while j < self.size.y
            invariant
                self.wf(),
                self.size == old(self).size,
                self.offset == old(self).offset,
                self.player == old(self).player,
                g == old(self)@,
                w == self.width(),
                h == self.height(),
                fresh@.len() == h,
                i_x < w,
                j <= h,
                forall|x: int, y: int|
                    0 <= x < w && 0 <= y < h ==> #[trigger] self@[x][y] == if x == i_x && y < j {
                        fresh@[y]
                    } else {
                        g[x][y]
                    },
            decreases h - j,
        {
            self.set(Coord2::new(i_x, j), fresh[j as usize]);
            j = j + 1;
        }
        assert(self@ =~~= g.update(i_x as int, fresh@));
    }

    /// Moving the offset by at most one cell on each axis shifts the view by as much.
    proof fn lemma_offset_step(a: &WorldMap, b: &WorldMap, dx: int, dy: int)
        requires
            a.wf(),
            b.tiles == a.tiles,
            b.size == a.size,
            b.player == a.player,
            -1 <= dx <= 1,
            -1 <= dy <= 1,
            b.offset.x == (a.offset.x + dx) % a.width(),
            b.offset.y == (a.offset.y + dy) % a.height(),
        ensures
            b.wf(),
            forall|x: int, y: int|
                0 <= x < a.width() && 0 <= y < a.height() ==> #[trigger] b@[x][y] == a@[(x + dx)
                    % a.width()][(y + dy) % a.height()],
    {
        lemma_step_mod(a.offset.x as int, dx, a.width());
        lemma_step_mod(a.offset.y as int, dy, a.height());
        b.lemma_view();
        a.lemma_view();
        assert forall|x: int, y: int|
            0 <= x < a.width() && 0 <= y < a.height() implies #[trigger] b@[x][y] == a@[(x + dx)
                % a.width()][(y + dy) % a.height()] by {
            lemma_shift_step(x, a.offset.x as int, dx, a.width());
            lemma_shift_step(y, a.offset.y as int, dy, a.height());
        }
    }

    /// Moves the viewport one cell by `diff`, unless the cell next to the player in
    /// that direction is a wall; the edge that comes into view shows `fresh`.
    pub fn move_with(&mut self, diff: CoordDiff2, fresh: &Vec<Tile>) -> (r: Movement)
        requires
            old(self).wf(),
            diff.is_step(),
            fresh@.len() == if diff.y != 0 {
                old(self).width()
            } else {
                old(self).height()
            },
        ensures
            final(self).wf(),
            final(self).width() == old(self).width(),
            final(self).height() == old(self).height(),
            final(self).anchor() == old(self).anchor(),
            (r == Movement::Blocked) == (old(self)@[(old(self).anchor().x + diff.x) % old(
                self,
            ).width()][(old(self).anchor().y + diff.y) % old(self).height()] == Tile::Wall),
            r == Movement::Blocked ==> *final(self) == *old(self),
            old(self).anchor_off_edge() && old(self).anchor_tile() != Tile::Wall
                ==> final(self).anchor_tile() != Tile::Wall,
            r == Movement::Moved ==> {
                &&& final(self).offset().x == (old(self).offset().x + diff.x) % old(self).width()
                &&& final(self).offset().y == (old(self).offset().y + diff.y) % old(
                    self,
                ).height()
                &&& final(self)@ == scrolled(
                    old(self)@,
                    old(self).width(),
                    old(self).height(),
                    diff.x as int,
                    diff.y as int,
                    fresh@,
                )
            },
    {
        let target = self.add_coord(self.player, diff);
        proof {
            lemma_step_mod(self.player.x as int, diff.x as int, self.width());
            lemma_step_mod(self.player.y as int, diff.y as int, self.height());
            lemma_mod_lap(target.x as int, self.width(), 0, target.x as int);
            lemma_mod_lap(target.y as int, self.height(), 0, target.y as int);
        }
        if self.get(target) == Tile::Wall {
            return Movement::Blocked;
        }
        let ghost g = self@;
        let ghost w = self.width();
        let ghost h = self.height();
        if diff.y == 1 {
            self.replace_row(0, fresh);
        } else if diff.y == -1 {
            self.replace_row(self.size.y - 1, fresh);
        } else if diff.x == 1 {
            self.replace_column(0, fresh);
        } else {
            self.replace_column(self.size.x - 1, fresh);
        }
        let ghost mid = *self;
        let ghost mid_view = self@;
        self.offset = self.add_coord(self.offset, diff);
        proof {
            lemma_step_mod(self.player.x as int, diff.x as int, w);
            lemma_step_mod(self.player.y as int, diff.y as int, h);
            WorldMap::lemma_offset_step(&mid, self, diff.x as int, diff.y as int);
            assert forall|x: int, y: int| 0 <= x < w && 0 <= y < h implies #[trigger] self@[x][y]
                == scrolled(g, w, h, diff.x as int, diff.y as int, fresh@)[x][y] by {
                lemma_step_mod(x, diff.x as int, w);
                lemma_step_mod(y, diff.y as int, h);
            }
            assert(self@ =~~= scrolled(g, w, h, diff.x as int, diff.y as int, fresh@));
        }
        Movement::Moved
    }

    /// Moves the viewport one cell by `diff`, unless the cell next to the player in
    /// that direction is a wall; the edge that comes into view is drawn afresh from
    /// the generation distribution.
    pub fn move_to(&mut self, diff: CoordDiff2) -> (r: Movement)
        requires
            old(self).wf(),
            diff.is_step(),
        ensures
            final(self).wf(),
            final(self).width() == old(self).width(),
            final(self).height() == old(self).height(),
            final(self).anchor() == old(self).anchor(),
            (r == Movement::Blocked) == (old(self)@[(old(self).anchor().x + diff.x) % old(
                self,
            ).width()][(old(self).anchor().y + diff.y) % old(self).height()] == Tile::Wall),
            r == Movement::Blocked ==> *final(self) == *old(self),
            old(self).anchor_off_edge() && old(self).anchor_tile() != Tile::Wall
                ==> final(self).anchor_tile() != Tile::Wall,
            r == Movement::Moved ==> {
                &&& final(self).offset().x == (old(self).offset().x + diff.x) % old(self).width()
                &&& final(self).offset().y == (old(self).offset().y + diff.y) % old(
                    self,
                ).height()
                &&& exists|fresh: Seq<Tile>|
                    #[trigger] scrolled(
                        old(self)@,
                        old(self).width(),
                        old(self).height(),
                        diff.x as int,
                        diff.y as int,
                        fresh,
                    ) == final(self)@
            },
    {
        let target = self.add_coord(self.player, diff);
        proof {
            lemma_step_mod(self.player.x as int, diff.x as int, self.width());
            lemma_step_mod(self.player.y as int, diff.y as int, self.height());
            lemma_mod_lap(target.x as int, self.width(), 0, target.x as int);
            lemma_mod_lap(target.y as int, self.height(), 0, target.y as int);
        }
        if self.get(target) == Tile::Wall {
            return Movement::Blocked;
        }
        let n: u32 = if diff.y != 0 {
            self.size.x
        } else {
            self.size.y
        };
        let mut fresh: Vec<Tile> = Vec::new();
        let mut k: u32 = 0;
        while k < n
            invariant
                k <= n,
                fresh@.len() == k,
            decreases n - k,
        {
            fresh.push(generate_tile());
            k = k + 1;
        }
        let r = self.move_with(diff, &fresh);
        proof {
            lemma_step_mod(old(self).anchor().x as int, diff.x as int, old(self).width());
            lemma_step_mod(old(self).anchor().y as int, diff.y as int, old(self).height());
        }
        r
    }

    /// Moves the viewport one cell down; see `move_to`.
    pub fn move_down(&mut self) -> (r: Movement)
        requires
            old(self).wf(),
        ensures
            final(self).wf(),
            final(self).width() == old(self).width(),
            final(self).height() == old(self).height(),
            final(self).anchor() == old(self).anchor(),
            (r == Movement::Blocked) == (old(self)@[old(self).anchor().x as int][(old(
                self,
            ).anchor().y + 1) % old(self).height()] == Tile::Wall),
            r == Movement::Blocked ==> *final(self) == *old(self),
            old(self).anchor_off_edge() && old(self).anchor_tile() != Tile::Wall
                ==> final(self).anchor_tile() != Tile::Wall,
            r == Movement::Moved ==> {
                &&& final(self).offset().x == old(self).offset().x
                &&& final(self).offset().y == (old(self).offset().y + 1) % old(self).height()
                &&& exists|fresh: Seq<Tile>|
                    #[trigger] scrolled(
                        old(self)@,
                        old(self).width(),
                        old(self).height(),
                        0,
                        1,
                        fresh,
                    ) == final(self)@
            },
    {
        proof {
            lemma_step_mod(old(self).anchor().x as int, 0, old(self).width());
            lemma_step_mod(old(self).offset().x as int, 0, old(self).width());
        }
        self.move_to(CoordDiff2::down())
    }

    /// Moves the viewport one cell up; see `move_to`.
    pub fn move_up(&mut self) -> (r: Movement)
        requires
            old(self).wf(),
        ensures
            final(self).wf(),
            final(self).width() == old(self).width(),
            final(self).height() == old(self).height(),
            final(self).anchor() == old(self).anchor(),
            (r == Movement::Blocked) == (old(self)@[old(self).anchor().x as int][(old(
                self,
            ).anchor().y - 1) % old(self).height()] == Tile::Wall),
            r == Movement::Blocked ==> *final(self) == *old(self),
            old(self).anchor_off_edge() && old(self).anchor_tile() != Tile::Wall
                ==> final(self).anchor_tile() != Tile::Wall,
            r == Movement::Moved ==> {
                &&& final(self).offset().x == old(self).offset().x
                &&& final(self).offset().y == (old(self).offset().y - 1) % old(self).height()
                &&& exists|fresh: Seq<Tile>|
                    #[trigger] scrolled(
                        old(self)@,
                        old(self).width(),
                        old(self).height(),
                        0,
                        -1,
                        fresh,
                    ) == final(self)@
            },
    {
        proof {
            lemma_step_mod(old(self).anchor().x as int, 0, old(self).width());
            lemma_step_mod(old(self).offset().x as int, 0, old(self).width());
        }
        self.move_to(CoordDiff2::up())
    }

    /// Moves the viewport one cell right; see `move_to`.
    pub fn move_right(&mut self) -> (r: Movement)
        requires
            old(self).wf(),
        ensures
            final(self).wf(),
            final(self).width() == old(self).width(),
            final(self).height() == old(self).height(),
            final(self).anchor() == old(self).anchor(),
            (r == Movement::Blocked) == (old(self)@[(old(self).anchor().x + 1) % old(
                self,
            ).width()][old(self).anchor().y as int] == Tile::Wall),
            r == Movement::Blocked ==> *final(self) == *old(self),
            old(self).anchor_off_edge() && old(self).anchor_tile() != Tile::Wall
                ==> final(self).anchor_tile() != Tile::Wall,
            r == Movement::Moved ==> {
                &&& final(self).offset().x == (old(self).offset().x + 1) % old(self).width()
                &&& final(self).offset().y == old(self).offset().y
                &&& exists|fresh: Seq<Tile>|
                    #[trigger] scrolled(
                        old(self)@,
                        old(self).width(),
                        old(self).height(),
                        1,
                        0,
                        fresh,
                    ) == final(self)@
            },
    {
        proof {
            lemma_step_mod(old(self).anchor().y as int, 0, old(self).height());
            lemma_step_mod(old(self).offset().y as int, 0, old(self).height());
        }
        self.move_to(CoordDiff2::right())
    }

    /// Moves the viewport one cell left; see `move_to`.
    pub fn move_left(&mut self) -> (r: Movement)
        requires
            old(self).wf(),
        ensures
            final(self).wf(),
            final(self).width() == old(self).width(),
            final(self).height() == old(self).height(),
            final(self).anchor() == old(self).anchor(),
            (r == Movement::Blocked) == (old(self)@[(old(self).anchor().x - 1) % old(
                self,
            ).width()][old(self).anchor().y as int] == Tile::Wall),
            r == Movement::Blocked ==> *final(self) == *old(self),
            old(self).anchor_off_edge() && old(self).anchor_tile() != Tile::Wall
                ==> final(self).anchor_tile() != Tile::Wall,
            r == Movement::Moved ==> {
                &&& final(self).offset().x == (old(self).offset().x - 1) % old(self).width()
                &&& final(self).offset().y == old(self).offset().y
                &&& exists|fresh: Seq<Tile>|
                    #[trigger] scrolled(
                        old(self)@,
                        old(self).width(),
                        old(self).height(),
                        -1,
                        0,
                        fresh,
                    ) == final(self)@
            },
    {
        proof {
            lemma_step_mod(old(self).anchor().y as int, 0, old(self).height());
            lemma_step_mod(old(self).offset().y as int, 0, old(self).height());
        }
        self.move_to(CoordDiff2::left())
    }

    /// Reads the tile at a logical coordinate inside the viewport.
    fn get_in_view(&self, pos: Coord2) -> (t: Tile)
        requires
            self.wf(),
            pos.x < self.width(),
            pos.y < self.height(),
        ensures
            t == self@[pos.x as int][pos.y as int],
    {
        proof {
            lemma_mod_lap(pos.x as int, self.width(), 0, pos.x as int);
            lemma_mod_lap(pos.y as int, self.height(), 0, pos.y as int);
        }
        self.get(pos)
    }

    /// The direction from `pos` toward `target` along the line that they share, and
    /// whether no wall stands strictly between them.
    fn can_view(&self, pos: Coord2, target: Coord2) -> (r: (CoordDiff2, bool))
        requires
            self.wf(),
            aligned(pos, target),
            pos.x < self.width(),
            pos.y < self.height(),
            target.x < self.width(),
            target.y < self.height(),
        ensures
            r.0.x == sign_toward(pos.x as int, target.x as int),
            r.0.y == sign_toward(pos.y as int, target.y as int),
            r.1 == clear_line(self@, pos, target),
    {
        if pos.x == target.x {
            let dir = if target.y > pos.y {
                CoordDiff2::down()
            } else {
                CoordDiff2::up()
            };
            let (lo, hi) = if pos.y < target.y {
                (pos.y, target.y)
            } else {
                (target.y, pos.y)
            };
            let mut y: u32 = lo + 1;
            while y < hi
                invariant
                    self.wf(),
                    lo < y <= hi,
                    aligned(pos, target),
                    dir.x == sign_toward(pos.x as int, target.x as int),
                    dir.y == sign_toward(pos.y as int, target.y as int),
                    hi < self.height(),
                    pos.x < self.width(),
                    (lo == pos.y && hi == target.y) || (lo == target.y && hi == pos.y),
                    forall|k: int| lo < k < y ==> #[trigger] self@[pos.x as int][k] != Tile::Wall,
                decreases hi - y,
            {
                if self.get_in_view(Coord2::new(pos.x, y)) == Tile::Wall {
                    proof {
                        assert(self@[pos.x as int][y as int] == Tile::Wall);
                    }
                    return (dir, false);
                }
                y = y + 1;
            }
            (dir, true)
        } else {
            let dir = if target.x > pos.x {
                CoordDiff2::right()
            } else {
                CoordDiff2::left()
            };
            let (lo, hi) = if pos.x < target.x {
                (pos.x, target.x)
            } else {
                (target.x, pos.x)
            };
            let mut x: u32 = lo + 1;
            while x < hi
                invariant
                    self.wf(),
                    lo < x <= hi,
                    aligned(pos, target),
                    dir.x == sign_toward(pos.x as int, target.x as int),
                    dir.y == sign_toward(pos.y as int, target.y as int),
                    hi < self.width(),
                    pos.y < self.height(),
                    (lo == pos.x && hi == target.x) || (lo == target.x && hi == pos.x),
                    forall|k: int| lo < k < x ==> #[trigger] self@[k][pos.y as int] != Tile::Wall,
                decreases hi - x,
            {
                if self.get_in_view(Coord2::new(x, pos.y)) == Tile::Wall {
                    proof {
                        assert(self@[x as int][pos.y as int] == Tile::Wall);
                    }
                    return (dir, false);
                }
                x = x + 1;
            }
            (dir, true)
        }
    }

    /// The logical index that storage index `s` shows on a ring of `n` cells under
    /// offset `o`.
    fn logical(s: u32, o: u32, n: u32) -> (r: u32)
        requires
            s < n,
            o < n,
        ensures
            r == logical_index(s as int, o as int, n as int),
            r < n,
            shift(r as int, o as int, n as int) == s,
    {
        if s >= o {
            proof {
                lemma_mod_lap(s - o, n as int, 0, s - o);
            }
            s - o
        } else {
            proof {
                lemma_mod_lap(s - o, n as int, -1, s + (n - o));
            }
            s + (n - o)
        }
    }

    /// One pursuit pass: every monster that stands on the player's row or column,
    /// taken in storage order, steps one cell toward the player if it sees the
    /// player along a line with no wall and the cell ahead is floor.
    pub fn advance(&mut self)
        requires
            old(self).wf(),
        ensures
            final(self).wf(),
            final(self).width() == old(self).width(),
            final(self).height() == old(self).height(),
            final(self).offset() == old(self).offset(),
            final(self).anchor() == old(self).anchor(),
            final(self)@ == pursued(*old(self)),
            old(self).anchor_tile() != Tile::Wall ==> final(self).anchor_tile() != Tile::Wall,
    {
        let ghost m0 = *self;
        let w = self.size.x;
        let h = self.size.y;
        let ox = self.offset.x;
        let oy = self.offset.y;
        let p = self.player;
        let mut staring: Vec<Coord2> = Vec::new();
        proof {
            self.lemma_view();
        }
        let mut i: u32 = 0;
        while i < w
            invariant
                *self == m0,
                m0.wf(),
                w == m0.width(),
                h == m0.height(),
                ox == m0.offset().x,
                oy == m0.offset().y,
                p == m0.anchor(),
                i <= w,
                staring@ == scan_candidates(m0, i as int),
            decreases w - i,
        {
            let mut j: u32 = 0;
            while j < h
                invariant
                    *self == m0,
                    m0.wf(),
                    w == m0.width(),
                    h == m0.height(),
                    ox == m0.offset().x,
                    oy == m0.offset().y,
                    p == m0.anchor(),
                    i < w,
                    j <= h,
                    staring@ == scan_candidates(m0, i as int) + column_candidates(m0, i as int, j as int),
                decreases h - j,
            {
                let lx = WorldMap::logical(i, ox, w);
                let ly = WorldMap::logical(j, oy, h);
                let tile = self.tiles[i as usize][j as usize];
                proof {
                    self.lemma_view();
                    assert(tile == m0@[lx as int][ly as int]);
                }
                let ghost before = staring@;
                if tile == Tile::Monster && ((p.x == lx) != (p.y == ly)) {
                    staring.push(Coord2::new(lx, ly));
                    proof {
                        assert(scan_candidates(m0, i as int) + column_candidates(m0, i as int, j + 1)
                            =~= before.push(Coord2 { x: lx, y: ly }));
                    }
                }
                j = j + 1;
            }
            proof {
                assert(scan_candidates(m0, i + 1) == scan_candidates(m0, i as int) + column_candidates(m0, i as int, h as int));
            }
            i = i + 1;
        }
        proof {
            lemma_candidates_in_view(m0);
        }
        let mut k: usize = 0;
        while k < staring.len()
            invariant
                self.wf(),
                m0.wf(),
                self.width() == m0.width(),
                self.height() == m0.height(),
                self.offset() == m0.offset(),
                self.anchor() == m0.anchor(),
                p == m0.anchor(),
                staring@ == candidates(m0),
                all_in_view(staring@, p, m0.width(), m0.height()),
                k <= staring@.len(),
                self@ == pursue(m0@, staring@.take(k as int), p),
            decreases staring@.len() - k,
        {
            let c = staring[k];
            let ghost g = self@;
            let (dir, visible) = self.can_view(c, p);
            if visible {
                let dest = self.add_coord(c, dir);
                proof {
                    lemma_mod_lap(next_x(c, p), self.width(), 0, next_x(c, p));
                    lemma_mod_lap(next_y(c, p), self.height(), 0, next_y(c, p));
                }
                if self.get_in_view(dest) == Tile::Floor {
                    self.set(dest, Tile::Monster);
                    self.set(c, Tile::Floor);
                }
            }
            proof {
                assert(staring@.take(k + 1).drop_last() =~= staring@.take(k as int));
                assert(pursue_step(g, c, p) == self@);
            }
            k = k + 1;
        }
        proof {
            assert(staring@.take(staring@.len() as int) =~= staring@);
            lemma_pursue_adds_no_wall(m0@, candidates(m0), p, m0.width(), m0.height());
        }
    }
}

} // verus!
