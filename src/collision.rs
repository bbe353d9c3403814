use vstd::prelude::*;
use vstd::arithmetic::div_mod::{lemma_fundamental_div_mod, lemma_fundamental_div_mod_converse_div};
use crate::grid::{ArenaGrid, TileType, in_bounds, cell_before, row_major};

verus! {

/// A point or an extent in world space, in whole world units.
#[derive(Debug, Clone, Copy, PartialEq, Eq, Structural)]
pub struct Vec2 {
    pub x: i64,
    pub y: i64,
}

impl Vec2 {
    /// The point or extent (x, y).
    pub fn new(x: i64, y: i64) -> (r: Vec2)
        ensures
            r.x == x,
            r.y == y,
    {
        Vec2 { x, y }
    }
}

/// Open intervals (lo1, hi1) and (lo2, hi2) share a point: touching ends do
/// not count.
pub open spec fn spans_overlap(lo1: int, hi1: int, lo2: int, hi2: int) -> bool {
    lo1 < hi2 && hi1 > lo2
}

/// Two boxes given by centre and full size overlap with positive area.
/// Coordinates are doubled so that half sizes stay whole.
pub open spec fn boxes_overlap(p1: Vec2, s1: Vec2, p2: Vec2, s2: Vec2) -> bool {
    &&& spans_overlap(2 * p1.x - s1.x, 2 * p1.x + s1.x, 2 * p2.x - s2.x, 2 * p2.x + s2.x)
    &&& spans_overlap(2 * p1.y - s1.y, 2 * p1.y + s1.y, 2 * p2.y - s2.y, 2 * p2.y + s2.y)
}

/// Whether the boxes centred at `pos1` and `pos2` with full sizes `size1`
/// and `size2` overlap with positive area; boxes that only touch do not.
pub fn check_aabb_collision(pos1: Vec2, size1: Vec2, pos2: Vec2, size2: Vec2) -> (r: bool)
    ensures
        r == boxes_overlap(pos1, size1, pos2, size2),
{
    let min1x = 2 * (pos1.x as i128) - size1.x as i128;
    let max1x = 2 * (pos1.x as i128) + size1.x as i128;
    let min2x = 2 * (pos2.x as i128) - size2.x as i128;
    let max2x = 2 * (pos2.x as i128) + size2.x as i128;
    let min1y = 2 * (pos1.y as i128) - size1.y as i128;
    let max1y = 2 * (pos1.y as i128) + size1.y as i128;
    let min2y = 2 * (pos2.y as i128) - size2.y as i128;
    let max2y = 2 * (pos2.y as i128) + size2.y as i128;
    (min1x < max2x && max1x > min2x) && (min1y < max2y && max1y > min2y)
}

/// Boxes that share an edge, left against right or bottom against top,
/// touch with zero area and do not collide.
pub proof fn lemma_touching_boxes_do_not_collide(p1: Vec2, s1: Vec2, p2: Vec2, s2: Vec2)
    requires
        2 * p1.x + s1.x == 2 * p2.x - s2.x || 2 * p1.y + s1.y == 2 * p2.y - s2.y
            || 2 * p2.x + s2.x == 2 * p1.x - s1.x || 2 * p2.y + s2.y == 2 * p1.y - s1.y,
    ensures
        !boxes_overlap(p1, s1, p2, s2),
{
}

/// Boxes of positive size collide exactly when their intersection has
/// positive width and positive height (coordinates doubled).
pub proof fn lemma_collision_is_positive_area(p1: Vec2, s1: Vec2, p2: Vec2, s2: Vec2)
    requires
        s1.x > 0 && s1.y > 0 && s2.x > 0 && s2.y > 0,
    ensures
        boxes_overlap(p1, s1, p2, s2) <==> ({
            let lo_x = if 2 * p1.x - s1.x > 2 * p2.x - s2.x { 2 * p1.x - s1.x } else { 2 * p2.x - s2.x };
            let hi_x = if 2 * p1.x + s1.x < 2 * p2.x + s2.x { 2 * p1.x + s1.x } else { 2 * p2.x + s2.x };
            let lo_y = if 2 * p1.y - s1.y > 2 * p2.y - s2.y { 2 * p1.y - s1.y } else { 2 * p2.y - s2.y };
            let hi_y = if 2 * p1.y + s1.y < 2 * p2.y + s2.y { 2 * p1.y + s1.y } else { 2 * p2.y + s2.y };
            hi_x - lo_x > 0 && hi_y - lo_y > 0
        }),
{
}

/// Doubled world coordinate of the low edge of tile `i` on an axis of `dim`
/// tiles of edge `ts`; the grid is centred on the world origin.
pub open spec fn tile_lo(i: int, dim: int, ts: int) -> int {
    (2 * i - dim) * ts
}

/// Doubled world coordinate of the high edge of tile `i`.
pub open spec fn tile_hi(i: int, dim: int, ts: int) -> int {
    (2 * i + 2 - dim) * ts
}

/// The body centred at `c` with extent `s` overlaps tile `i` along one axis.
pub open spec fn axis_hits(c: int, s: int, i: int, dim: int, ts: int) -> bool {
    spans_overlap(2 * c - s, 2 * c + s, tile_lo(i, dim, ts), tile_hi(i, dim, ts))
}

/// The body at `pos` of size `size` overlaps tile (gx, gy) with positive area.
pub open spec fn hits_tile(width: int, height: int, ts: int, pos: Vec2, size: Vec2, gx: int, gy: int) -> bool {
    axis_hits(pos.x as int, size.x as int, gx, width, ts) && axis_hits(pos.y as int, size.y as int, gy, height, ts)
}

/// The body at `pos` overlaps some wall of the grid.
pub open spec fn overlaps_wall(g: ArenaGrid, ts: int, pos: Vec2, size: Vec2) -> bool {
    exists|gx: int, gy: int|
        in_bounds(g.width as int, g.height as int, gx, gy) && g.tile(gx, gy) == TileType::Wall
            && #[trigger] hits_tile(g.width as int, g.height as int, ts, pos, size, gx, gy)
}

/// First tile index of the query window on one axis (before clamping): the
/// body's extent widened by half a tile on each side, mapped to tile indices
/// and rounded down.
pub open spec fn window_lo(c: int, s: int, dim: int, ts: int) -> int {
    (2 * c - s - ts + dim * ts) / (2 * ts)
}

/// Last tile index of the query window on one axis (before clamping),
/// rounded up.
pub open spec fn window_hi(c: int, s: int, dim: int, ts: int) -> int {
    -((-(2 * c + s + ts + dim * ts)) / (2 * ts))
}

/// Tile `i` lies on the grid and inside the clamped query window.
pub open spec fn in_window(c: int, s: int, dim: int, ts: int, i: int) -> bool {
    0 <= i < dim && window_lo(c, s, dim, ts) <= i <= window_hi(c, s, dim, ts)
}

/// A grid offset times a tile size stays far inside `i128`.
proof fn lemma_product_bound(a: int, t: int)
    requires
        -0x4_0000_0000_0000_0000 <= a <= 0x4_0000_0000_0000_0000,
        0 <= t <= 0xffff_ffff,
    ensures
        -0x4_0000_0000_0000_0000_0000_0000 <= a * t <= 0x4_0000_0000_0000_0000_0000_0000,
{
    assert(-0x4_0000_0000_0000_0000 * t <= a * t <= 0x4_0000_0000_0000_0000 * t) by (nonlinear_arith)
        requires -0x4_0000_0000_0000_0000 <= a <= 0x4_0000_0000_0000_0000, 0 <= t;
}

/// Rounds `n / d` down.
fn floor_div(n: i128, d: i128) -> (r: i128)
    requires
        d > 0,
        n > i128::MIN,
    ensures
        r == n as int / d as int,
        n >= 0 ==> 0 <= r <= n,
        n < 0 ==> n <= r < 0,
{
    if n >= 0 {
        proof {
            lemma_fundamental_div_mod(n as int, d as int);
            let ni = n as int;
            let di = d as int;
            let q = ni / di;
            let rr = ni % di;
            assert(0 <= q <= ni) by (nonlinear_arith)
                requires ni == di * q + rr, 0 <= rr, rr < di, di > 0, ni >= 0;
        }
        n / d
    } else {
        let m = -n;
        let q = m / d;
        let rem = m % d;
        proof {
            lemma_fundamental_div_mod(m as int, d as int);
            assert(0 <= q <= m) by (nonlinear_arith)
                requires m == d * q + rem, 0 <= rem < d, d > 0, m > 0;
            assert(rem != 0 ==> q < m) by (nonlinear_arith)
                requires m == d * q + rem, 0 <= rem < d, d > 0, m > 0;
            if rem == 0 {
                assert(n == (-q) * d + 0) by (nonlinear_arith)
                    requires m == d * q + rem, rem == 0, n == -m;
                lemma_fundamental_div_mod_converse_div(n as int, d as int, -q as int, 0);
            } else {
                assert(n == (-q - 1) * d + (d - rem)) by (nonlinear_arith)
                    requires m == d * q + rem, n == -m;
                lemma_fundamental_div_mod_converse_div(n as int, d as int, -q - 1, d - rem);
            }
        }
        if rem == 0 { -q } else { -q - 1 }
    }
}

/// On a positive divisor, what lies below `(k + 1) * d` divides to at most `k`.
proof fn lemma_div_below(a: int, d: int, k: int)
    requires
        d > 0,
        a < (k + 1) * d,
    ensures
        a / d <= k,
{
    lemma_fundamental_div_mod(a, d);
    let q = a / d;
    assert(d * q <= a);
    assert(q <= k) by (nonlinear_arith)
        requires d * q <= a, a < (k + 1) * d, d > 0;
}

/// Along one axis, every tile that the body overlaps lies in the window.
proof fn lemma_hit_in_window(c: int, s: int, i: int, dim: int, ts: int)
    requires
        ts > 0,
        s >= 0,
        axis_hits(c, s, i, dim, ts),
    ensures
        window_lo(c, s, dim, ts) <= i <= window_hi(c, s, dim, ts),
{
    let a = 2 * c - s - ts + dim * ts;
    assert(a < (i + 1) * (2 * ts)) by (nonlinear_arith)
        requires 2 * c - s < (2 * i + 2 - dim) * ts, a == 2 * c - s - ts + dim * ts, ts > 0;
    lemma_div_below(a, 2 * ts, i);
    let b = 2 * c + s + ts + dim * ts;
    assert(-b < (-i) * (2 * ts)) by (nonlinear_arith)
        requires 2 * c + s > (2 * i - dim) * ts, b == 2 * c + s + ts + dim * ts, ts > 0;
    lemma_div_below(-b, 2 * ts, -i - 1);
}


/// The clamped query window on one axis: `None` when no tile of the axis
/// lies in it, else its first and last tile index.
fn axis_window(c: i64, s: i64, dim: usize, ts: u32) -> (r: Option<(usize, usize)>)
    requires
        ts > 0,
    ensures
        r is None ==> forall|i: int| !#[trigger] in_window(c as int, s as int, dim as int, ts as int, i),
        r matches Some((lo, hi)) ==> lo <= hi < dim && forall|i: int|
            #[trigger] in_window(c as int, s as int, dim as int, ts as int, i) <==> lo <= i <= hi,
{
    let d: i128 = 2 * (ts as i128);
    proof {
        lemma_product_bound(dim as int, ts as int);
    }
    let span: i128 = (dim as i128) * (ts as i128);
    let a: i128 = 2 * (c as i128) - (s as i128) - (ts as i128) + span;
    let b: i128 = 2 * (c as i128) + (s as i128) + (ts as i128) + span;
    let lo = floor_div(a, d);
    let hi = -floor_div(-b, d);
    proof {
        assert(span == dim as int * ts as int);
        assert(lo == window_lo(c as int, s as int, dim as int, ts as int));
        assert(hi == window_hi(c as int, s as int, dim as int, ts as int));
    }
    let start: i128 = if lo < 0 { 0 } else { lo };
    let end: i128 = if hi > dim as i128 - 1 { dim as i128 - 1 } else { hi };
    if start > end {
        None
    } else {
        Some((start as usize, end as usize))
    }
}

/// Whether the body at `pos` of size `size` overlaps tile (gx, gy).
fn hits_tile_exec(width: usize, height: usize, ts: u32, pos: Vec2, size: Vec2, gx: usize, gy: usize) -> (r: bool)
    ensures
        r == hits_tile(width as int, height as int, ts as int, pos, size, gx as int, gy as int),
{
    let t = ts as i128;
    proof {
        lemma_product_bound(2 * gx - width, ts as int);
        lemma_product_bound(2 * gx + 2 - width, ts as int);
        lemma_product_bound(2 * gy - height, ts as int);
        lemma_product_bound(2 * gy + 2 - height, ts as int);
    }
    let x_lo = (2 * (gx as i128) - width as i128) * t;
    let x_hi = (2 * (gx as i128) + 2 - width as i128) * t;
    let y_lo = (2 * (gy as i128) - height as i128) * t;
    let y_hi = (2 * (gy as i128) + 2 - height as i128) * t;
    let bx_lo = 2 * (pos.x as i128) - size.x as i128;
    let bx_hi = 2 * (pos.x as i128) + size.x as i128;
    let by_lo = 2 * (pos.y as i128) - size.y as i128;
    let by_hi = 2 * (pos.y as i128) + size.y as i128;
    (bx_lo < x_hi && bx_hi > x_lo) && (by_lo < y_hi && by_hi > y_lo)
}

/// The wall tiles of the query window around a body: its extent widened by
/// half a tile on each side, clamped to the grid. Each tile is given as
/// (column, row), once, in row-major order. Only that window of the grid is
/// read.
pub fn nearby_wall_tiles(grid: &ArenaGrid, tile_size: u32, pos: Vec2, size: Vec2) -> (r: Vec<(usize, usize)>)
    requires
        grid.wf(),
        tile_size > 0,
    ensures
        forall|k: int| 0 <= k < r@.len() ==> {
            let (gx, gy) = #[trigger] r@[k];
            &&& in_window(pos.x as int, size.x as int, grid.width as int, tile_size as int, gx as int)
            &&& in_window(pos.y as int, size.y as int, grid.height as int, tile_size as int, gy as int)
            &&& grid.tile(gx as int, gy as int) == TileType::Wall
        },
        forall|gx: int, gy: int|
            in_window(pos.x as int, size.x as int, grid.width as int, tile_size as int, gx)
                && in_window(pos.y as int, size.y as int, grid.height as int, tile_size as int, gy)
                && #[trigger] grid.tile(gx, gy) == TileType::Wall
                ==> exists|k: int| 0 <= k < r@.len() && r@[k] == (gx as usize, gy as usize),
        row_major(r@),
{
    let mut found: Vec<(usize, usize)> = Vec::new();
    let wx = axis_window(pos.x, size.x, grid.width, tile_size);
    let wy = axis_window(pos.y, size.y, grid.height, tile_size);
    let ghost inx = |i: int| in_window(pos.x as int, size.x as int, grid.width as int, tile_size as int, i);
    let ghost iny = |i: int| in_window(pos.y as int, size.y as int, grid.height as int, tile_size as int, i);
    match (wx, wy) {
        (Some((x0, x1)), Some((y0, y1))) => {
            let mut gy = y0;
            while gy <= y1
                invariant
                    grid.wf(),
                    x0 <= x1 < grid.width,
                    y0 <= y1 < grid.height,
                    y0 <= gy <= y1 + 1,
                    forall|i: int| #[trigger] inx(i) <==> x0 <= i <= x1,
                    forall|i: int| #[trigger] iny(i) <==> y0 <= i <= y1,
                    forall|k: int| 0 <= k < found@.len() ==> {
                        let (gx, gy) = #[trigger] found@[k];
                        &&& inx(gx as int) && iny(gy as int)
                        &&& grid.tile(gx as int, gy as int) == TileType::Wall
                    },
                    forall|a: int, b: int|
                        inx(a) && y0 <= b < gy && #[trigger] grid.tile(a, b) == TileType::Wall
                            ==> exists|k: int| 0 <= k < found@.len() && found@[k] == (a as usize, b as usize),
                    row_major(found@),
                    forall|k: int| 0 <= k < found@.len() ==> (#[trigger] found@[k]).1 < gy,
                decreases y1 + 1 - gy,
            {
                let mut gx = x0;
                while gx <= x1
                    invariant
                        grid.wf(),
                        x0 <= x1 < grid.width,
                        y0 <= gy <= y1,
                        y1 < grid.height,
                        x0 <= gx <= x1 + 1,
                        forall|i: int| #[trigger] inx(i) <==> x0 <= i <= x1,
                        forall|i: int| #[trigger] iny(i) <==> y0 <= i <= y1,
                        forall|k: int| 0 <= k < found@.len() ==> {
                            let (gx, gy) = #[trigger] found@[k];
                            &&& inx(gx as int) && iny(gy as int)
                            &&& grid.tile(gx as int, gy as int) == TileType::Wall
                        },
                        forall|a: int, b: int|
                            inx(a) && (y0 <= b < gy || (b == gy && a < gx)) && #[trigger] grid.tile(a, b)
                                == TileType::Wall
                                ==> exists|k: int| 0 <= k < found@.len() && found@[k] == (a as usize, b as usize),
                        row_major(found@),
                        forall|k: int| 0 <= k < found@.len() ==> cell_before(#[trigger] found@[k], (gx, gy)),
                    decreases x1 + 1 - gx,
                {
                    if grid.is_wall(gx, gy) {
                        let ghost before = found@;
                        found.push((gx, gy));
                        proof {
                            assert forall|a: int, b: int|
                                inx(a) && (y0 <= b < gy || (b == gy && a < gx + 1)) && #[trigger] grid.tile(a, b)
                                    == TileType::Wall
                                    implies exists|k: int| 0 <= k < found@.len() && found@[k] == (a as usize, b as usize) by {
                                if b == gy && a == gx {
                                    assert(found@[before.len() as int] == (a as usize, b as usize));
                                } else {
                                    let k = choose|k: int| 0 <= k < before.len() && before[k] == (a as usize, b as usize);
                                    assert(found@[k] == before[k]);
                                }
                            }
                            assert forall|i: int, j: int| 0 <= i < j < found@.len() implies cell_before(
                                #[trigger] found@[i], #[trigger] found@[j]) by {
                                assert(found@[i] == before[i]);
                                if j < before.len() {
                                    assert(found@[j] == before[j]);
                                }
                            }
                            assert forall|k: int| 0 <= k < found@.len() implies cell_before(
                                #[trigger] found@[k], ((gx + 1) as usize, gy)) by {
                                if k < before.len() {
                                    assert(found@[k] == before[k]);
                                }
                            }
                        }
                    }
                    gx = gx + 1;
                }
                gy = gy + 1;
            }
        }
        _ => {}
    }
    found
}


/// Whether the body at `pos` of size `size` overlaps any wall of the grid.
/// Only the walls of the query window are tested; no wall outside it can
/// overlap the body.
pub fn is_blocked(grid: &ArenaGrid, tile_size: u32, pos: Vec2, size: Vec2) -> (r: bool)
    requires
        grid.wf(),
        tile_size > 0,
        size.x >= 0,
        size.y >= 0,
    ensures
        r == overlaps_wall(*grid, tile_size as int, pos, size),
{
    let walls = nearby_wall_tiles(grid, tile_size, pos, size);
    let mut k: usize = 0;
    while k < walls.len()
        invariant
            grid.wf(),
            forall|j: int| 0 <= j < walls@.len() ==> {
                let (gx, gy) = #[trigger] walls@[j];
                &&& in_window(pos.x as int, size.x as int, grid.width as int, tile_size as int, gx as int)
                &&& in_window(pos.y as int, size.y as int, grid.height as int, tile_size as int, gy as int)
                &&& grid.tile(gx as int, gy as int) == TileType::Wall
            },
            forall|j: int| 0 <= j < k ==> {
                let (gx, gy) = #[trigger] walls@[j];
                !hits_tile(grid.width as int, grid.height as int, tile_size as int, pos, size, gx as int, gy as int)
            },
        decreases walls.len() - k,
    {
        let (gx, gy) = walls[k];
        if hits_tile_exec(grid.width, grid.height, tile_size, pos, size, gx, gy) {
            proof {
                let (a, b) = walls@[k as int];
                assert(in_bounds(grid.width as int, grid.height as int, a as int, b as int));
                assert(hits_tile(grid.width as int, grid.height as int, tile_size as int, pos, size, a as int, b as int));
            }
            return true;
        }
        k = k + 1;
    }
    proof {
        if overlaps_wall(*grid, tile_size as int, pos, size) {
            let (gx, gy) = choose|gx: int, gy: int|
                in_bounds(grid.width as int, grid.height as int, gx, gy) && grid.tile(gx, gy) == TileType::Wall
                    && #[trigger] hits_tile(grid.width as int, grid.height as int, tile_size as int, pos, size, gx, gy);
            lemma_hit_in_window(pos.x as int, size.x as int, gx, grid.width as int, tile_size as int);
            lemma_hit_in_window(pos.y as int, size.y as int, gy, grid.height as int, tile_size as int);
            let j = choose|j: int| 0 <= j < walls@.len() && walls@[j] == (gx as usize, gy as usize);
            assert(!hits_tile(grid.width as int, grid.height as int, tile_size as int, pos, size, gx, gy));
        }
    }
    false
}

/// The move that the axis-separated sweep accepts: the X step when it is
/// non-zero and leaves the body clear of walls, else none; then, from there,
/// the Y step on the same terms.
pub open spec fn resolved_move(g: ArenaGrid, ts: int, pos: Vec2, size: Vec2, delta: Vec2) -> Vec2 {
    let ax = if delta.x != 0 && !overlaps_wall(g, ts, Vec2 { x: (pos.x + delta.x) as i64, y: pos.y }, size) {
        delta.x
    } else {
        0
    };
    let mid = Vec2 { x: (pos.x + ax) as i64, y: pos.y };
    let ay = if delta.y != 0 && !overlaps_wall(g, ts, Vec2 { x: mid.x, y: (mid.y + delta.y) as i64 }, size) {
        delta.y
    } else {
        0
    };
    Vec2 { x: ax, y: ay }
}

/// The displacement fits the world's coordinate range.
pub open spec fn move_fits(pos: Vec2, delta: Vec2) -> bool {
    i64::MIN <= pos.x + delta.x <= i64::MAX && i64::MIN <= pos.y + delta.y <= i64::MAX
}

/// Resolves a proposed displacement of a body against the walls, X first and
/// then Y from the position that the X step reached, so that a body pushed
/// diagonally into a wall slides along it. A zero component is not tested.
/// Returns the accepted displacement.
pub fn resolve_movement(grid: &ArenaGrid, tile_size: u32, pos: Vec2, size: Vec2, delta: Vec2) -> (r: Vec2)
    requires
        grid.wf(),
        tile_size > 0,
        size.x >= 0,
        size.y >= 0,
        move_fits(pos, delta),
    ensures
        r == resolved_move(*grid, tile_size as int, pos, size, delta),
{
    let mut ax: i64 = 0;
    if delta.x != 0 {
        let next_x = Vec2 { x: pos.x + delta.x, y: pos.y };
        if !is_blocked(grid, tile_size, next_x, size) {
            ax = delta.x;
        }
    }
    let mid = Vec2 { x: pos.x + ax, y: pos.y };
    let mut ay: i64 = 0;
    if delta.y != 0 {
        let next_y = Vec2 { x: mid.x, y: mid.y + delta.y };
        if !is_blocked(grid, tile_size, next_y, size) {
            ay = delta.y;
        }
    }
    Vec2 { x: ax, y: ay }
}

/// A body that stays put is never moved: a zero displacement resolves to
/// a zero move.
pub proof fn lemma_zero_move_stays(g: ArenaGrid, ts: int, pos: Vec2, size: Vec2)
    ensures
        resolved_move(g, ts, pos, size, Vec2 { x: 0, y: 0 }) == (Vec2 { x: 0, y: 0 }),
{
}

/// Each accepted component is either the requested one or zero.
pub proof fn lemma_move_within_request(g: ArenaGrid, ts: int, pos: Vec2, size: Vec2, delta: Vec2)
    ensures
        resolved_move(g, ts, pos, size, delta).x == delta.x || resolved_move(g, ts, pos, size, delta).x == 0,
        resolved_move(g, ts, pos, size, delta).y == delta.y || resolved_move(g, ts, pos, size, delta).y == 0,
{
}

/// Wall slide: when the X step alone would hit a wall and the Y step alone
/// would not, the X component is dropped and the full Y component kept.
pub proof fn lemma_wall_slide(g: ArenaGrid, ts: int, pos: Vec2, size: Vec2, delta: Vec2)
    requires
        move_fits(pos, delta),
        overlaps_wall(g, ts, Vec2 { x: (pos.x + delta.x) as i64, y: pos.y }, size),
        !overlaps_wall(g, ts, Vec2 { x: pos.x, y: (pos.y + delta.y) as i64 }, size),
    ensures
        resolved_move(g, ts, pos, size, delta) == (Vec2 { x: 0, y: delta.y }),
{
    assert((pos.x + 0) as i64 == pos.x);
}

/// A body that starts clear of every wall ends the move clear of every wall.
pub proof fn lemma_move_keeps_clear(g: ArenaGrid, ts: int, pos: Vec2, size: Vec2, delta: Vec2)
    requires
        move_fits(pos, delta),
        !overlaps_wall(g, ts, pos, size),
    ensures
        ({
            let m = resolved_move(g, ts, pos, size, delta);
            !overlaps_wall(g, ts, Vec2 { x: (pos.x + m.x) as i64, y: (pos.y + m.y) as i64 }, size)
        }),
{
    let m = resolved_move(g, ts, pos, size, delta);
    assert(Vec2 { x: (pos.x + 0) as i64, y: pos.y } == pos);
    assert(Vec2 { x: (pos.x + m.x) as i64, y: (pos.y + 0) as i64 } == Vec2 { x: (pos.x + m.x) as i64, y: pos.y });
}

} // verus!
