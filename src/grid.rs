use vstd::prelude::*;
use crate::coord::Coord2;
use crate::tile::Tile;

verus! {

/// `g` is a rectangle of `w` columns of `h` tiles, indexed `g[x][y]`.
pub open spec fn is_grid(g: Seq<Seq<Tile>>, w: int, h: int) -> bool {
    &&& g.len() == w
    &&& forall|x: int| 0 <= x < w ==> (#[trigger] g[x]).len() == h
}

/// The tiles that a vector of columns holds.
pub open spec fn grid_of(v: Seq<Vec<Tile>>) -> Seq<Seq<Tile>> {
    v.map_values(|c: Vec<Tile>| c@)
}

/// `g` with the tile at `(x, y)` replaced by `t`.
pub open spec fn set_cell(g: Seq<Seq<Tile>>, x: int, y: int, t: Tile) -> Seq<Seq<Tile>> {
    g.update(x, g[x].update(y, t))
}

/// `g` fits a world with the player anchor at `p`: a non-empty rectangle whose
/// sides fit a `u32`, with `p` inside it.
pub open spec fn grid_fits(g: Seq<Seq<Tile>>, p: Coord2) -> bool {
    &&& 0 < g.len() <= u32::MAX
    &&& 0 < g[0].len() <= u32::MAX
    &&& is_grid(g, g.len() as int, g[0].len() as int)
    &&& p.x < g.len()
    &&& p.y < g[0].len()
}

/// `g` with the whole row and the whole column through `p` turned to floor.
pub open spec fn cross_cleared(g: Seq<Seq<Tile>>, p: Coord2) -> Seq<Seq<Tile>> {
    Seq::new(
        g.len(),
        |x: int|
            Seq::new(
                g[x].len(),
                |y: int|
                    if x == p.x || y == p.y {
                        Tile::Floor
                    } else {
                        g[x][y]
                    },
            ),
    )
}

/// `g` with row `y` replaced, column by column, by `fresh`.
pub open spec fn row_replaced(g: Seq<Seq<Tile>>, y: int, fresh: Seq<Tile>) -> Seq<Seq<Tile>> {
    Seq::new(g.len(), |x: int| g[x].update(y, fresh[x]))
}

/// Whether logical cell `(x, y)` of a `w` by `h` viewport lies on the edge that a
/// one-cell move by `(dx, dy)` brings into view.
pub open spec fn on_fresh_edge(x: int, y: int, w: int, h: int, dx: int, dy: int) -> bool {
    ||| dy == 1 && y == h - 1
    ||| dy == -1 && y == 0
    ||| dx == 1 && x == w - 1
    ||| dx == -1 && x == 0
}

/// The viewport after a one-cell move by `(dx, dy)`: every cell shows what its
/// neighbour in the direction of the move showed before, and the edge that comes
/// into view shows `fresh`, indexed along that edge.
pub open spec fn scrolled(
    g: Seq<Seq<Tile>>,
    w: int,
    h: int,
    dx: int,
    dy: int,
    fresh: Seq<Tile>,
) -> Seq<Seq<Tile>> {
    Seq::new(
        w as nat,
        |x: int|
            Seq::new(
                h as nat,
                |y: int|
                    if on_fresh_edge(x, y, w, h, dx, dy) {
                        if dy != 0 {
                            fresh[x]
                        } else {
                            fresh[y]
                        }
                    } else {
                        g[x + dx][y + dy]
                    },
            ),
    )
}

} // verus!
