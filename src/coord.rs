use vstd::prelude::*;
use vstd::arithmetic::div_mod::{
    lemma_fundamental_div_mod,
    lemma_fundamental_div_mod_converse_mod,
    lemma_add_mod_noop_right,
    lemma_mod_multiples_vanish,
};

verus! {

/// An unsigned grid coordinate, `x` along the columns and `y` along the rows.
#[derive(Clone, Copy, PartialEq, Eq, Debug, Structural)]
pub struct Coord2 {
    pub x: u32,
    pub y: u32,
}

impl Coord2 {
    pub fn new(x: u32, y: u32) -> (r: Coord2)
        ensures
            r.x == x,
            r.y == y,
    {
        Coord2 { x, y }
    }
}

/// A signed displacement between two grid coordinates.
#[derive(Clone, Copy, PartialEq, Eq, Debug, Structural)]
pub struct CoordDiff2 {
    pub x: i32,
    pub y: i32,
}

impl CoordDiff2 {
    /// One cell along exactly one axis: the four cardinal directions.
    pub open spec fn is_step(self) -> bool {
        (self.x == 0 && (self.y == 1 || self.y == -1)) || (self.y == 0 && (self.x == 1
            || self.x == -1))
    }

    pub fn new(x: i32, y: i32) -> (r: CoordDiff2)
        ensures
            r.x == x,
            r.y == y,
    {
        CoordDiff2 { x, y }
    }

    pub fn down() -> (r: CoordDiff2)
        ensures
            r.x == 0,
            r.y == 1,
    {
        CoordDiff2 { x: 0, y: 1 }
    }

    pub fn up() -> (r: CoordDiff2)
        ensures
            r.x == 0,
            r.y == -1,
    {
        CoordDiff2 { x: 0, y: -1 }
    }

    pub fn left() -> (r: CoordDiff2)
        ensures
            r.x == -1,
            r.y == 0,
    {
        CoordDiff2 { x: -1, y: 0 }
    }

    pub fn right() -> (r: CoordDiff2)
        ensures
            r.x == 1,
            r.y == 0,
    {
        CoordDiff2 { x: 1, y: 0 }
    }
}

/// `x % n == r` whenever `x` lies `q` whole laps of `n` away from `r` in `[0, n)`.
pub proof fn lemma_mod_lap(x: int, n: int, q: int, r: int)
    requires
        n > 0,
        0 <= r < n,
        x == q * n + r,
    ensures
        x % n == r,
{
    lemma_fundamental_div_mod_converse_mod(x, n, q, r);
}

/// Adds a signed displacement to an unsigned coordinate on a ring of `size` cells.
pub fn wrap_add(pos: u32, diff: i32, size: u32) -> (r: u32)
    requires
        size > 0,
    ensures
        r == (pos + diff) % (size as int),
{
    let n: u64 = size as u64;
    let p: u64 = pos as u64 % n;
    proof {
        lemma_fundamental_div_mod(pos as int, n as int);
    }
    if diff >= 0 {
        let m: u64 = diff as u64 % n;
        let v: u64 = p + m;
        proof {
            lemma_fundamental_div_mod(diff as int, n as int);
            let q: int = pos as int / n as int + diff as int / n as int;
            assert(pos + diff == n * q + v) by (nonlinear_arith)
                requires
                    pos == n * (pos as int / n as int) + p,
                    diff == n * (diff as int / n as int) + m,
                    q == pos as int / n as int + diff as int / n as int,
                    v == p + m,
            ;
            lemma_mod_multiples_vanish(q, v as int, n as int);
        }
        (v % n) as u32
    } else {
        let big: u64 = (0i64 - diff as i64) as u64;
        let m: u64 = big % n;
        let v: u64 = p + (n - m);
        proof {
            lemma_fundamental_div_mod(big as int, n as int);
            let q: int = pos as int / n as int - big as int / n as int - 1;
            assert(pos + diff == n * q + v) by (nonlinear_arith)
                requires
                    pos == n * (pos as int / n as int) + p,
                    big == n * (big as int / n as int) + m,
                    diff == -big,
                    q == pos as int / n as int - big as int / n as int - 1,
                    v == p + (n - m),
            ;
            lemma_mod_multiples_vanish(q, v as int, n as int);
        }
        (v % n) as u32
    }
}

/// Where `k` one-cell moves by `d` take an offset `o` on a ring of `n` cells.
pub open spec fn offset_after(o: int, d: int, n: int, k: nat) -> int
    decreases k,
{
    if k == 0 {
        o
    } else {
        (offset_after(o, d, n, (k - 1) as nat) + d) % n
    }
}

/// `k` moves by `d` land where one jump by `k * d` would.
pub proof fn lemma_offset_after(o: int, d: int, n: int, k: nat)
    requires
        n > 0,
        0 <= o < n,
    ensures
        offset_after(o, d, n, k) == (o + k * d) % n,
        0 <= offset_after(o, d, n, k) < n,
    decreases k,
{
    if k == 0 {
        lemma_mod_lap(o, n, 0, o);
    } else {
        lemma_offset_after(o, d, n, (k - 1) as nat);
        lemma_add_mod_noop_right(d, o + (k - 1) * d, n);
        assert(d + (o + (k - 1) * d) == o + k * d) by (nonlinear_arith);
    }
}

/// The offset never leaves the ring, and `n` same-direction moves on a ring of `n`
/// cells bring it back to where it started.
pub proof fn lemma_full_lap(o: int, d: int, n: int)
    requires
        n > 0,
        0 <= o < n,
        d == 1 || d == -1,
    ensures
        forall|k: nat| 0 <= #[trigger] offset_after(o, d, n, k) < n,
        offset_after(o, d, n, n as nat) == o,
{
    assert forall|k: nat| 0 <= #[trigger] offset_after(o, d, n, k) < n by {
        lemma_offset_after(o, d, n, k);
    }
    lemma_offset_after(o, d, n, n as nat);
    lemma_mod_multiples_vanish(d, o, n);
    assert(o + n * d == n * d + o);
    lemma_mod_lap(o, n, 0, o);
}

/// A move and the opposite move leave the offset where it was: moving down then
/// up, or right then left, restores it.
pub proof fn lemma_move_back(o: int, d: int, n: int)
    requires
        n > 0,
        0 <= o < n,
        d == 1 || d == -1,
    ensures
        ((o + d) % n - d) % n == o,
{
    lemma_offset_after(o, d, n, 1);
    let once = (o + d) % n;
    lemma_add_mod_noop_right(-d, o + d, n);
    assert(-d + once == once - d);
    lemma_mod_lap(o, n, 0, o);
}

} // verus!
