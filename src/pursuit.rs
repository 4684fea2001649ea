use vstd::prelude::*;
use crate::coord::Coord2;
use crate::grid::{is_grid, set_cell};
use crate::map::WorldMap;
use crate::tile::Tile;

verus! {

/// `c` shares exactly one coordinate with `p`: it stands on the player's row or
/// column, but not on the player's cell.
pub open spec fn aligned(c: Coord2, p: Coord2) -> bool {
    (c.x == p.x) != (c.y == p.y)
}

/// The sign of `b - a`.
pub open spec fn sign_toward(a: int, b: int) -> int {
    if b > a {
        1
    } else if b < a {
        -1
    } else {
        0
    }
}

/// The x of the cell one step from `c` toward `p`.
pub open spec fn next_x(c: Coord2, p: Coord2) -> int {
    c.x + sign_toward(c.x as int, p.x as int)
}

/// The y of the cell one step from `c` toward `p`.
pub open spec fn next_y(c: Coord2, p: Coord2) -> int {
    c.y + sign_toward(c.y as int, p.y as int)
}

/// No wall stands strictly between `c` and `p` on the line that they share.
pub open spec fn clear_line(g: Seq<Seq<Tile>>, c: Coord2, p: Coord2) -> bool {
    if c.x == p.x {
        forall|y: int|
            (c.y < y < p.y || p.y < y < c.y) ==> #[trigger] g[c.x as int][y] != Tile::Wall
    } else {
        forall|x: int|
            (c.x < x < p.x || p.x < x < c.x) ==> #[trigger] g[x][c.y as int] != Tile::Wall
    }
}

/// One monster's turn: the monster at `c` sees the player at `p` along a clear
/// line and steps onto the next cell toward the player if that cell is floor.
pub open spec fn pursue_step(g: Seq<Seq<Tile>>, c: Coord2, p: Coord2) -> Seq<Seq<Tile>> {
    if clear_line(g, c, p) && g[next_x(c, p)][next_y(c, p)] == Tile::Floor {
        set_cell(set_cell(g, next_x(c, p), next_y(c, p), Tile::Monster), c.x as int, c.y as int, Tile::Floor)
    } else {
        g
    }
}

/// The turns of the monsters at `cs`, taken in order on the same grid.
pub open spec fn pursue(g: Seq<Seq<Tile>>, cs: Seq<Coord2>, p: Coord2) -> Seq<Seq<Tile>>
    decreases cs.len(),
{
    if cs.len() == 0 {
        g
    } else {
        pursue_step(pursue(g, cs.drop_last(), p), cs.last(), p)
    }
}

/// The logical index that storage index `s` of a ring of `n` cells shows under
/// offset `o`.
pub open spec fn logical_index(s: int, o: int, n: int) -> int {
    (s - o) % n
}

/// The logical cell that storage cell `(sx, sy)` of `m` shows.
pub open spec fn shown_at(m: WorldMap, sx: int, sy: int) -> Coord2 {
    Coord2 {
        x: logical_index(sx, m.offset().x as int, m.width()) as u32,
        y: logical_index(sy, m.offset().y as int, m.height()) as u32,
    }
}

/// Whether storage cell `(sx, sy)` of `m` holds a monster aligned with the player.
pub open spec fn is_candidate(m: WorldMap, sx: int, sy: int) -> bool {
    let c = shown_at(m, sx, sy);
    m@[c.x as int][c.y as int] == Tile::Monster && aligned(c, m.anchor())
}

/// The aligned monsters among the first `k` cells of storage column `sx`.
pub open spec fn column_candidates(m: WorldMap, sx: int, k: int) -> Seq<Coord2>
    decreases k,
{
    if k <= 0 {
        Seq::empty()
    } else if is_candidate(m, sx, k - 1) {
        column_candidates(m, sx, k - 1).push(shown_at(m, sx, k - 1))
    } else {
        column_candidates(m, sx, k - 1)
    }
}

/// The aligned monsters among the first `k` storage columns, column by column.
pub open spec fn scan_candidates(m: WorldMap, k: int) -> Seq<Coord2>
    decreases k,
{
    if k <= 0 {
        Seq::empty()
    } else {
        scan_candidates(m, k - 1) + column_candidates(m, k - 1, m.height())
    }
}

/// The monsters that take a turn in a pursuit pass over `m`, in storage order.
pub open spec fn candidates(m: WorldMap) -> Seq<Coord2> {
    scan_candidates(m, m.width())
}

/// The viewport after one pursuit pass over `m`.
pub open spec fn pursued(m: WorldMap) -> Seq<Seq<Tile>> {
    pursue(m@, candidates(m), m.anchor())
}

/// Every monster that takes a turn in a pursuit pass over `m` stands inside the
/// viewport, on the player's row or column.
pub proof fn lemma_candidates_in_view(m: WorldMap)
    requires
        m.wf(),
    ensures
        all_in_view(candidates(m), m.anchor(), m.width(), m.height()),
{
    lemma_scan_in_view(m, m.width());
}

proof fn lemma_scan_in_view(m: WorldMap, k: int)
    requires
        m.wf(),
        0 <= k <= m.width(),
    ensures
        forall|n: int|
            0 <= n < scan_candidates(m, k).len() ==> {
                &&& aligned(#[trigger] scan_candidates(m, k)[n], m.anchor())
                &&& scan_candidates(m, k)[n].x < m.width()
                &&& scan_candidates(m, k)[n].y < m.height()
            },
    decreases k,
{
    if k > 0 {
        lemma_scan_in_view(m, k - 1);
        lemma_column_in_view(m, k - 1, m.height());
        let a = scan_candidates(m, k - 1);
        let b = column_candidates(m, k - 1, m.height());
        assert forall|n: int| 0 <= n < (a + b).len() implies {
            &&& aligned(#[trigger] (a + b)[n], m.anchor())
            &&& (a + b)[n].x < m.width()
            &&& (a + b)[n].y < m.height()
        } by {
            if n < a.len() {
                assert((a + b)[n] == a[n]);
            } else {
                assert((a + b)[n] == b[n - a.len()]);
            }
        }
    }
}

proof fn lemma_column_in_view(m: WorldMap, sx: int, k: int)
    requires
        m.wf(),
        0 <= sx < m.width(),
        0 <= k <= m.height(),
    ensures
        forall|n: int|
            0 <= n < column_candidates(m, sx, k).len() ==> {
                &&& aligned(#[trigger] column_candidates(m, sx, k)[n], m.anchor())
                &&& column_candidates(m, sx, k)[n].x < m.width()
                &&& column_candidates(m, sx, k)[n].y < m.height()
            },
    decreases k,
{
    if k > 0 {
        lemma_column_in_view(m, sx, k - 1);
        let prev = column_candidates(m, sx, k - 1);
        let c = shown_at(m, sx, k - 1);
        assert(0 <= logical_index(sx, m.offset().x as int, m.width()) < m.width());
        assert(0 <= logical_index(k - 1, m.offset().y as int, m.height()) < m.height());
        if is_candidate(m, sx, k - 1) {
            assert forall|n: int| 0 <= n < prev.push(c).len() implies {
                &&& aligned(#[trigger] prev.push(c)[n], m.anchor())
                &&& prev.push(c)[n].x < m.width()
                &&& prev.push(c)[n].y < m.height()
            } by {
                if n < prev.len() {
                    assert(prev.push(c)[n] == prev[n]);
                }
            }
        }
    }
}

/// Every monster in `cs` stands inside a `w` by `h` viewport, on the row or the
/// column of `p`.
pub open spec fn all_in_view(cs: Seq<Coord2>, p: Coord2, w: int, h: int) -> bool {
    forall|n: int|
        0 <= n < cs.len() ==> {
            &&& aligned(#[trigger] cs[n], p)
            &&& cs[n].x < w
            &&& cs[n].y < h
        }
}

/// One monster's turn keeps the grid's shape and turns no cell into a wall.
proof fn lemma_step_shape(g: Seq<Seq<Tile>>, c: Coord2, p: Coord2, w: int, h: int)
    requires
        is_grid(g, w, h),
        aligned(c, p),
        c.x < w,
        c.y < h,
        p.x < w,
        p.y < h,
    ensures
        is_grid(pursue_step(g, c, p), w, h),
        forall|x: int, y: int|
            0 <= x < w && 0 <= y < h && g[x][y] != Tile::Wall ==> #[trigger] pursue_step(
                g,
                c,
                p,
            )[x][y] != Tile::Wall,
{
}

/// A pursuit pass keeps the grid's shape and turns no cell into a wall: monsters
/// step only onto floor and leave floor behind.
pub proof fn lemma_pursue_adds_no_wall(g: Seq<Seq<Tile>>, cs: Seq<Coord2>, p: Coord2, w: int, h: int)
    requires
        is_grid(g, w, h),
        all_in_view(cs, p, w, h),
        p.x < w,
        p.y < h,
    ensures
        is_grid(pursue(g, cs, p), w, h),
        forall|x: int, y: int|
            0 <= x < w && 0 <= y < h && g[x][y] != Tile::Wall ==> #[trigger] pursue(g, cs, p)[x][y]
                != Tile::Wall,
    decreases cs.len(),
{
    if cs.len() > 0 {
        lemma_pursue_adds_no_wall(g, cs.drop_last(), p, w, h);
        assert(cs.last() == cs[cs.len() - 1]);
        lemma_step_shape(pursue(g, cs.drop_last(), p), cs.last(), p, w, h);
    }
}

/// One monster's turn leaves every cell off the player's row and column as it
/// was, and keeps every monster that is not on the player's row or column.
proof fn lemma_step_keeps_unaligned(g: Seq<Seq<Tile>>, c: Coord2, p: Coord2, w: int, h: int)
    requires
        is_grid(g, w, h),
        aligned(c, p),
        c.x < w,
        c.y < h,
        p.x < w,
        p.y < h,
    ensures
        forall|x: int, y: int|
            0 <= x < w && 0 <= y < h && (x == p.x) == (y == p.y) ==> {
                &&& g[x][y] == Tile::Monster ==> #[trigger] pursue_step(g, c, p)[x][y]
                    == Tile::Monster
                &&& x != p.x ==> pursue_step(g, c, p)[x][y] == g[x][y]
            },
{
}

/// A pursuit pass moves only monsters that stood, when it began, on the player's
/// row or column: every other monster stays where it is, one on the player's own
/// cell included, and every cell off the player's row and column is left as it was.
pub proof fn lemma_pursue_keeps_unaligned(
    g: Seq<Seq<Tile>>,
    cs: Seq<Coord2>,
    p: Coord2,
    w: int,
    h: int,
)
    requires
        is_grid(g, w, h),
        all_in_view(cs, p, w, h),
        p.x < w,
        p.y < h,
    ensures
        forall|x: int, y: int|
            0 <= x < w && 0 <= y < h && (x == p.x) == (y == p.y) ==> {
                &&& g[x][y] == Tile::Monster ==> #[trigger] pursue(g, cs, p)[x][y]
                    == Tile::Monster
                &&& x != p.x ==> pursue(g, cs, p)[x][y] == g[x][y]
            },
    decreases cs.len(),
{
    if cs.len() > 0 {
        let rest = cs.drop_last();
        assert(all_in_view(rest, p, w, h)) by {
            assert forall|n: int| 0 <= n < rest.len() implies {
                &&& aligned(#[trigger] rest[n], p)
                &&& rest[n].x < w
                &&& rest[n].y < h
            } by {
                assert(rest[n] == cs[n]);
            }
        }
        lemma_pursue_keeps_unaligned(g, rest, p, w, h);
        lemma_pursue_adds_no_wall(g, rest, p, w, h);
        assert(cs.last() == cs[cs.len() - 1]);
        lemma_step_keeps_unaligned(pursue(g, rest, p), cs.last(), p, w, h);
    }
}

/// A pursuit pass over a world moves only monsters that stand on the player's row
/// or column: a monster anywhere else stays, and every cell off the player's row
/// and column keeps its tile.
pub proof fn lemma_only_aligned_monsters_move(m: WorldMap)
    requires
        m.wf(),
    ensures
        forall|x: int, y: int|
            0 <= x < m.width() && 0 <= y < m.height() && (x == m.anchor().x) == (y
                == m.anchor().y) ==> {
                &&& m@[x][y] == Tile::Monster ==> #[trigger] pursued(m)[x][y] == Tile::Monster
                &&& x != m.anchor().x ==> pursued(m)[x][y] == m@[x][y]
            },
{
    lemma_candidates_in_view(m);
    lemma_pursue_keeps_unaligned(m@, candidates(m), m.anchor(), m.width(), m.height());
}

/// A monster whose next cell toward the player holds a wall or another monster
/// does not move on its turn, and the grid is left exactly as it was: the monster
/// neither vanishes nor is duplicated.
pub proof fn lemma_occupied_destination(g: Seq<Seq<Tile>>, c: Coord2, p: Coord2)
    requires
        g[next_x(c, p)][next_y(c, p)] == Tile::Wall || g[next_x(c, p)][next_y(c, p)]
            == Tile::Monster,
    ensures
        pursue_step(g, c, p) == g,
{
}

} // verus!
