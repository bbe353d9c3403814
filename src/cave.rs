use vstd::prelude::*;
use crate::grid::{ArenaGrid, TileType, rows_of, is_rect, in_bounds, on_border, border_sealed};

verus! {

/// Smoothing passes applied to the raw noise classification.
pub const SMOOTHING_ITERATIONS: usize = 3;
/// A floor cell with at least this many wall neighbours becomes a wall.
pub const WALL_CONVERSION_THRESHOLD: usize = 5;
/// A wall cell with fewer than this many wall neighbours becomes floor.
pub const FLOOR_CONVERSION_THRESHOLD: usize = 4;

/// Parameters of the cellular-automaton post-processing of a cave.
#[derive(Debug, Clone, Copy, PartialEq, Eq, Structural)]
pub struct CaveParams {
    pub smoothing_iterations: usize,
    pub wall_threshold: usize,
    pub floor_threshold: usize,
}

impl CaveParams {
    /// The standard cave settings.
    pub fn standard() -> (r: CaveParams)
        ensures
            r.smoothing_iterations == SMOOTHING_ITERATIONS,
            r.wall_threshold == WALL_CONVERSION_THRESHOLD,
            r.floor_threshold == FLOOR_CONVERSION_THRESHOLD,
    {
        CaveParams {
            smoothing_iterations: SMOOTHING_ITERATIONS,
            wall_threshold: WALL_CONVERSION_THRESHOLD,
            floor_threshold: FLOOR_CONVERSION_THRESHOLD,
        }
    }
}

/// A position counts as wall when it is off the grid or holds a wall.
pub open spec fn solid_at(g: Seq<Seq<TileType>>, width: int, height: int, x: int, y: int) -> bool {
    !in_bounds(width, height, x, y) || g[y][x] == TileType::Wall
}

pub open spec fn one_if(b: bool) -> nat {
    if b { 1 } else { 0 }
}

/// Number of the eight surrounding positions of (x, y) that count as wall.
pub open spec fn wall_neighbors(g: Seq<Seq<TileType>>, width: int, height: int, x: int, y: int) -> nat {
    one_if(solid_at(g, width, height, x - 1, y - 1))
        + one_if(solid_at(g, width, height, x, y - 1))
        + one_if(solid_at(g, width, height, x + 1, y - 1))
        + one_if(solid_at(g, width, height, x - 1, y))
        + one_if(solid_at(g, width, height, x + 1, y))
        + one_if(solid_at(g, width, height, x - 1, y + 1))
        + one_if(solid_at(g, width, height, x, y + 1))
        + one_if(solid_at(g, width, height, x + 1, y + 1))
}

pub open spec fn interior(width: int, height: int, x: int, y: int) -> bool {
    1 <= x < width - 1 && 1 <= y < height - 1
}

/// The tile at (x, y) after one smoothing pass over `g`.
pub open spec fn smoothed_tile(
    g: Seq<Seq<TileType>>,
    width: int,
    height: int,
    p: CaveParams,
    x: int,
    y: int,
) -> TileType {
    let n = wall_neighbors(g, width, height, x, y);
    if !interior(width, height, x, y) {
        g[y][x]
    } else if g[y][x] == TileType::Wall {
        if n < p.floor_threshold { TileType::Floor } else { TileType::Wall }
    } else {
        if n >= p.wall_threshold { TileType::Wall } else { TileType::Floor }
    }
}

/// One smoothing pass: every cell is computed from the previous grid.
pub open spec fn smooth(g: Seq<Seq<TileType>>, width: int, height: int, p: CaveParams) -> Seq<Seq<TileType>> {
    Seq::new(height as nat, |y: int| Seq::new(width as nat, |x: int| smoothed_tile(g, width, height, p, x, y)))
}

/// `n` smoothing passes.
pub open spec fn smooth_n(g: Seq<Seq<TileType>>, width: int, height: int, p: CaveParams, n: nat) -> Seq<Seq<TileType>>
    decreases n,
{
    if n == 0 {
        g
    } else {
        smooth(smooth_n(g, width, height, p, (n - 1) as nat), width, height, p)
    }
}

/// The square of at most 3x3 interior cells around the grid centre.
pub open spec fn in_cave_spawn(width: int, height: int, x: int, y: int) -> bool {
    &&& width / 2 - 1 <= x <= width / 2 + 1
    &&& height / 2 - 1 <= y <= height / 2 + 1
    &&& 0 < x < width - 1
    &&& 0 < y < height - 1
}

/// A cell after sealing the border and clearing the spawn square.
pub open spec fn finished_tile(g: Seq<Seq<TileType>>, width: int, height: int, x: int, y: int) -> TileType {
    if on_border(width, height, x, y) {
        TileType::Wall
    } else if in_cave_spawn(width, height, x, y) {
        TileType::Floor
    } else {
        g[y][x]
    }
}

pub open spec fn finish(g: Seq<Seq<TileType>>, width: int, height: int) -> Seq<Seq<TileType>> {
    Seq::new(height as nat, |y: int| Seq::new(width as nat, |x: int| finished_tile(g, width, height, x, y)))
}

/// The cave built from a raw classification.
pub open spec fn cave_layout(g: Seq<Seq<TileType>>, width: int, height: int, p: CaveParams) -> Seq<Seq<TileType>> {
    finish(smooth_n(g, width, height, p, p.smoothing_iterations as nat), width, height)
}

/// Whether the position (x, y), possibly off the grid, counts as wall.
fn solid_at_exec(grid: &Vec<Vec<TileType>>, x: i128, y: i128, width: usize, height: usize) -> (r: bool)
    requires
        is_rect(rows_of(grid), width as int, height as int),
    ensures
        r == solid_at(rows_of(grid), width as int, height as int, x as int, y as int),
{
    if x < 0 || y < 0 || x >= width as i128 || y >= height as i128 {
        true
    } else {
        assert(rows_of(grid)[y as int] == grid@[y as int]@);
        grid[y as usize][x as usize] == TileType::Wall
    }
}

/// Counts the walls among the eight neighbours of (x, y); positions off the
/// grid count as walls.
pub fn count_wall_neighbors(grid: &Vec<Vec<TileType>>, x: usize, y: usize, width: usize, height: usize) -> (r: usize)
    requires
        is_rect(rows_of(grid), width as int, height as int),
    ensures
        r == wall_neighbors(rows_of(grid), width as int, height as int, x as int, y as int),
{
    let cx = x as i128;
    let cy = y as i128;
    let mut count: usize = 0;
    if solid_at_exec(grid, cx - 1, cy - 1, width, height) { count += 1; }
    if solid_at_exec(grid, cx, cy - 1, width, height) { count += 1; }
    if solid_at_exec(grid, cx + 1, cy - 1, width, height) { count += 1; }
    if solid_at_exec(grid, cx - 1, cy, width, height) { count += 1; }
    if solid_at_exec(grid, cx + 1, cy, width, height) { count += 1; }
    if solid_at_exec(grid, cx - 1, cy + 1, width, height) { count += 1; }
    if solid_at_exec(grid, cx, cy + 1, width, height) { count += 1; }
    if solid_at_exec(grid, cx + 1, cy + 1, width, height) { count += 1; }
    count
}


/// One smoothing pass: reads only `grid` and returns a new grid.
pub fn smooth_pass(grid: &Vec<Vec<TileType>>, width: usize, height: usize, p: CaveParams) -> (r: Vec<Vec<TileType>>)
    requires
        is_rect(rows_of(grid), width as int, height as int),
    ensures
        rows_of(&r) == smooth(rows_of(grid), width as int, height as int, p),
        is_rect(rows_of(&r), width as int, height as int),
{
    let ghost g = rows_of(grid);
    let mut next: Vec<Vec<TileType>> = Vec::new();
    let mut y: usize = 0;
    while y < height
        invariant
            g == rows_of(grid),
            is_rect(g, width as int, height as int),
            y <= height,
            next@.len() == y,
            forall|yy: int| 0 <= yy < y ==> (#[trigger] rows_of(&next)[yy])
                == smooth(g, width as int, height as int, p)[yy],
        decreases height - y,
    {
        let mut row: Vec<TileType> = Vec::new();
        let mut x: usize = 0;
        while x < width
            invariant
                g == rows_of(grid),
                is_rect(g, width as int, height as int),
                y < height,
                x <= width,
                row@.len() == x,
                forall|xx: int| 0 <= xx < x ==> #[trigger] row@[xx]
                    == smoothed_tile(g, width as int, height as int, p, xx, y as int),
            decreases width - x,
        {
            assert(g[y as int] == grid@[y as int]@);
            let here = grid[y][x];
            let t = if x >= 1 && x + 1 < width && y >= 1 && y + 1 < height {
                let n = count_wall_neighbors(grid, x, y, width, height);
                if here == TileType::Wall {
                    if n < p.floor_threshold { TileType::Floor } else { TileType::Wall }
                } else {
                    if n >= p.wall_threshold { TileType::Wall } else { TileType::Floor }
                }
            } else {
                here
            };
            row.push(t);
            x = x + 1;
        }
        proof {
            assert(row@ =~= smooth(g, width as int, height as int, p)[y as int]);
        }
        let ghost before = next;
        next.push(row);
        proof {
            assert forall|yy: int| 0 <= yy < y + 1 implies (#[trigger] rows_of(&next)[yy])
                == smooth(g, width as int, height as int, p)[yy] by {
                if yy < y {
                    assert(rows_of(&next)[yy] == rows_of(&before)[yy]);
                }
            }
        }
        y = y + 1;
    }
    proof {
        assert(rows_of(&next) =~= smooth(g, width as int, height as int, p));
    }
    next
}

/// Seals the outer ring with walls and clears the spawn square around the
/// centre; every other cell is kept.
pub fn finish_cave(grid: &Vec<Vec<TileType>>, width: usize, height: usize) -> (r: Vec<Vec<TileType>>)
    requires
        is_rect(rows_of(grid), width as int, height as int),
    ensures
        rows_of(&r) == finish(rows_of(grid), width as int, height as int),
        is_rect(rows_of(&r), width as int, height as int),
{
    let ghost g = rows_of(grid);
    let cx = width / 2;
    let cy = height / 2;
    let mut next: Vec<Vec<TileType>> = Vec::new();
    let mut y: usize = 0;
    while y < height
        invariant
            g == rows_of(grid),
            is_rect(g, width as int, height as int),
            cx == width / 2,
            cy == height / 2,
            y <= height,
            next@.len() == y,
            forall|yy: int| 0 <= yy < y ==> (#[trigger] rows_of(&next)[yy])
                == finish(g, width as int, height as int)[yy],
        decreases height - y,
    {
        let mut row: Vec<TileType> = Vec::new();
        let mut x: usize = 0;
        while x < width
            invariant
                g == rows_of(grid),
                is_rect(g, width as int, height as int),
                cx == width / 2,
                cy == height / 2,
                y < height,
                x <= width,
                row@.len() == x,
                forall|xx: int| 0 <= xx < x ==> #[trigger] row@[xx]
                    == finished_tile(g, width as int, height as int, xx, y as int),
            decreases width - x,
        {
            assert(g[y as int] == grid@[y as int]@);
            let border = x == 0 || y == 0 || x + 1 == width || y + 1 == height;
            let spawn = x + 1 >= cx && x <= cx + 1 && y + 1 >= cy && y <= cy + 1;
            let t = if border {
                TileType::Wall
            } else if spawn {
                TileType::Floor
            } else {
                grid[y][x]
            };
            row.push(t);
            x = x + 1;
        }
        proof {
            assert(row@ =~= finish(g, width as int, height as int)[y as int]);
        }
        let ghost before = next;
        next.push(row);
        proof {
            assert forall|yy: int| 0 <= yy < y + 1 implies (#[trigger] rows_of(&next)[yy])
                == finish(g, width as int, height as int)[yy] by {
                if yy < y {
                    assert(rows_of(&next)[yy] == rows_of(&before)[yy]);
                }
            }
        }
        y = y + 1;
    }
    proof {
        assert(rows_of(&next) =~= finish(g, width as int, height as int));
    }
    next
}


/// Every cell of the spawn square is floor.
pub open spec fn cave_spawn_clear(g: Seq<Seq<TileType>>, width: int, height: int) -> bool {
    forall|x: int, y: int|
        in_bounds(width, height, x, y) && in_cave_spawn(width, height, x, y)
            ==> #[trigger] g[y][x] == TileType::Floor
}

/// Every cave has walls all round its outer ring.
pub proof fn lemma_cave_border_sealed(g: Seq<Seq<TileType>>, width: int, height: int, p: CaveParams)
    ensures
        border_sealed(cave_layout(g, width, height, p), width, height),
{
}

/// Every cave has floor on the whole spawn square, and the square is off
/// the outer ring.
pub proof fn lemma_cave_spawn_clear(g: Seq<Seq<TileType>>, width: int, height: int, p: CaveParams)
    ensures
        cave_spawn_clear(cave_layout(g, width, height, p), width, height),
        forall|x: int, y: int| #[trigger] in_cave_spawn(width, height, x, y) ==> !on_border(width, height, x, y),
{
}

/// On a grid of at least 3x3 the centre cell belongs to the spawn square;
/// on one of at least 5x5 the whole 3x3 square around the centre does, and
/// none of it touches the outer ring.
pub proof fn lemma_cave_spawn_nonempty(width: int, height: int)
    requires
        width >= 3,
        height >= 3,
    ensures
        in_cave_spawn(width, height, width / 2, height / 2),
        width >= 5 && height >= 5 ==> forall|dx: int, dy: int| -1 <= dx <= 1 && -1 <= dy <= 1 ==> {
            &&& #[trigger] in_cave_spawn(width, height, width / 2 + dx, height / 2 + dy)
            &&& 0 < width / 2 + dx < width - 1
            &&& 0 < height / 2 + dy < height - 1
        },
{
}

/// Positions off the grid always count toward the wall tally: the tally is
/// at least the number of the eight neighbours that fall off the grid. For
/// a cell of the left or right edge that is three, for a corner five.
pub proof fn lemma_off_grid_neighbors_count(g: Seq<Seq<TileType>>, width: int, height: int, x: int, y: int)
    requires
        in_bounds(width, height, x, y),
    ensures
        x == 0 || x == width - 1 ==> wall_neighbors(g, width, height, x, y) >= 3,
        y == 0 || y == height - 1 ==> wall_neighbors(g, width, height, x, y) >= 3,
        (x == 0 || x == width - 1) && (y == 0 || y == height - 1) ==> wall_neighbors(g, width, height, x, y) >= 5,
{
}

/// On a grid of floor only, the tally is exactly the number of neighbours
/// that fall off the grid.
pub proof fn lemma_open_grid_neighbors(g: Seq<Seq<TileType>>, width: int, height: int, x: int, y: int)
    requires
        is_rect(g, width, height),
        forall|a: int, b: int| in_bounds(width, height, a, b) ==> #[trigger] g[b][a] == TileType::Floor,
    ensures
        wall_neighbors(g, width, height, x, y) == one_if(!in_bounds(width, height, x - 1, y - 1))
            + one_if(!in_bounds(width, height, x, y - 1)) + one_if(!in_bounds(width, height, x + 1, y - 1))
            + one_if(!in_bounds(width, height, x - 1, y)) + one_if(!in_bounds(width, height, x + 1, y))
            + one_if(!in_bounds(width, height, x - 1, y + 1)) + one_if(!in_bounds(width, height, x, y + 1))
            + one_if(!in_bounds(width, height, x + 1, y + 1)),
{
    assert(solid_at(g, width, height, x - 1, y - 1) == !in_bounds(width, height, x - 1, y - 1));
    assert(solid_at(g, width, height, x, y - 1) == !in_bounds(width, height, x, y - 1));
    assert(solid_at(g, width, height, x + 1, y - 1) == !in_bounds(width, height, x + 1, y - 1));
    assert(solid_at(g, width, height, x - 1, y) == !in_bounds(width, height, x - 1, y));
    assert(solid_at(g, width, height, x + 1, y) == !in_bounds(width, height, x + 1, y));
    assert(solid_at(g, width, height, x - 1, y + 1) == !in_bounds(width, height, x - 1, y + 1));
    assert(solid_at(g, width, height, x, y + 1) == !in_bounds(width, height, x, y + 1));
    assert(solid_at(g, width, height, x + 1, y + 1) == !in_bounds(width, height, x + 1, y + 1));
}

impl ArenaGrid {
    /// Builds a cave from a raw wall/floor classification of every cell:
    /// `p.smoothing_iterations` smoothing passes, then the outer ring is
    /// sealed and the spawn square cleared.
    pub fn new_cave(initial: Vec<Vec<TileType>>, width: usize, height: usize, p: CaveParams) -> (r: ArenaGrid)
        requires
            width > 0,
            height > 0,
            is_rect(rows_of(&initial), width as int, height as int),
        ensures
            r.wf(),
            r.width == width,
            r.height == height,
            r.cells() == cave_layout(rows_of(&initial), width as int, height as int, p),
            border_sealed(r.cells(), width as int, height as int),
            cave_spawn_clear(r.cells(), width as int, height as int),
    {
        let ghost g0 = rows_of(&initial);
        let mut grid = initial;
        let mut i: usize = 0;
        while i < p.smoothing_iterations
            invariant
                i <= p.smoothing_iterations,
                rows_of(&grid) == smooth_n(g0, width as int, height as int, p, i as nat),
                is_rect(rows_of(&grid), width as int, height as int),
            decreases p.smoothing_iterations - i,
        {
            grid = smooth_pass(&grid, width, height, p);
            i = i + 1;
        }
        let cells = finish_cave(&grid, width, height);
        proof {
            lemma_cave_border_sealed(g0, width as int, height as int, p);
            lemma_cave_spawn_clear(g0, width as int, height as int, p);
        }
        ArenaGrid { grid: cells, width, height }
    }
}

} // verus!
