use vstd::prelude::*;
use crate::grid::{ArenaGrid, TileType, rows_of, is_rect, in_bounds, on_border, border_sealed, set_tile};
use crate::random::{seeded_rng, chance, pick_in_range};
use rand::rngs::StdRng;

verus! {

/// Tiles kept between the grid edge and the room on each side.
pub const ROOM_PADDING_TILES: usize = 3;
/// Smallest room edge; a grid too small for its padding still gets a room of
/// this size, as far as the grid holds it.
pub const MIN_ROOM_SIZE_TILES: usize = 8;
/// Chance of an obstacle at a floor cell, as numerator over denominator.
pub const OBSTACLE_CHANCE_NUMERATOR: u32 = 15;
pub const OBSTACLE_CHANCE_DENOMINATOR: u32 = 100;
pub const MIN_OBSTACLE_SIZE: usize = 1;
pub const MAX_OBSTACLE_SIZE: usize = 3;

/// Parameters of the room generator.
#[derive(Debug, Clone, Copy, PartialEq, Eq, Structural)]
pub struct RoomParams {
    pub padding: usize,
    pub min_room_size: usize,
    pub obstacle_numerator: u32,
    pub obstacle_denominator: u32,
    pub min_obstacle_size: usize,
    pub max_obstacle_size: usize,
}

impl RoomParams {
    /// The standard room settings.
    pub fn standard() -> (r: RoomParams)
        ensures
            r.padding == ROOM_PADDING_TILES,
            r.min_room_size == MIN_ROOM_SIZE_TILES,
            r.obstacle_numerator == OBSTACLE_CHANCE_NUMERATOR,
            r.obstacle_denominator == OBSTACLE_CHANCE_DENOMINATOR,
            r.min_obstacle_size == MIN_OBSTACLE_SIZE,
            r.max_obstacle_size == MAX_OBSTACLE_SIZE,
            r.valid(),
    {
        RoomParams {
            padding: ROOM_PADDING_TILES,
            min_room_size: MIN_ROOM_SIZE_TILES,
            obstacle_numerator: OBSTACLE_CHANCE_NUMERATOR,
            obstacle_denominator: OBSTACLE_CHANCE_DENOMINATOR,
            min_obstacle_size: MIN_OBSTACLE_SIZE,
            max_obstacle_size: MAX_OBSTACLE_SIZE,
        }
    }

    /// A probability in [0, 1] and a non-empty range of obstacle sizes.
    pub open spec fn valid(&self) -> bool {
        &&& 0 < self.obstacle_denominator
        &&& self.obstacle_numerator <= self.obstacle_denominator
        &&& self.min_obstacle_size <= self.max_obstacle_size
    }
}

/// Room edge along one axis of length `dim`: the space left inside the
/// padding, raised to the minimum room size, and never larger than the grid.
pub open spec fn room_extent(dim: int, padding: int, min_size: int) -> int {
    let inner = if 2 * padding <= dim { dim - 2 * padding } else { 0 };
    let raised = if inner < min_size { min_size } else { inner };
    if raised > dim { dim } else { raised }
}

/// First room index along an axis: the room is centred.
pub open spec fn room_start(dim: int, padding: int, min_size: int) -> int {
    (dim - room_extent(dim, padding, min_size)) / 2
}

/// One past the last room index along an axis.
pub open spec fn room_end(dim: int, padding: int, min_size: int) -> int {
    room_start(dim, padding, min_size) + room_extent(dim, padding, min_size)
}

/// The room's centre index along an axis.
pub open spec fn room_center(dim: int, padding: int, min_size: int) -> int {
    room_start(dim, padding, min_size) + room_extent(dim, padding, min_size) / 2
}

/// Strictly inside the room's own wall ring along one axis.
pub open spec fn inside_ring(i: int, dim: int, padding: int, min_size: int) -> bool {
    room_start(dim, padding, min_size) < i < room_end(dim, padding, min_size) - 1
}

/// A floor cell of the empty room: inside the room's wall ring.
pub open spec fn room_interior(width: int, height: int, p: RoomParams, x: int, y: int) -> bool {
    inside_ring(x, width, p.padding as int, p.min_room_size as int)
        && inside_ring(y, height, p.padding as int, p.min_room_size as int)
}

/// The spawn square: interior cells within one step of the room's centre.
pub open spec fn in_room_spawn(width: int, height: int, p: RoomParams, x: int, y: int) -> bool {
    let cx = room_center(width, p.padding as int, p.min_room_size as int);
    let cy = room_center(height, p.padding as int, p.min_room_size as int);
    &&& room_interior(width, height, p, x, y)
    &&& cx - 1 <= x <= cx + 1
    &&& cy - 1 <= y <= cy + 1
}

/// The empty room: floor inside the room's ring, wall everywhere else.
pub open spec fn hollow_tile(width: int, height: int, p: RoomParams, x: int, y: int) -> TileType {
    if room_interior(width, height, p, x, y) { TileType::Floor } else { TileType::Wall }
}

pub open spec fn hollow_room(width: int, height: int, p: RoomParams) -> Seq<Seq<TileType>> {
    Seq::new(height as nat, |y: int| Seq::new(width as nat, |x: int| hollow_tile(width, height, p, x, y)))
}

/// Every cell outside the room's interior is a wall.
pub open spec fn walls_outside_interior(g: Seq<Seq<TileType>>, width: int, height: int, p: RoomParams) -> bool {
    forall|x: int, y: int|
        in_bounds(width, height, x, y) && !room_interior(width, height, p, x, y)
            ==> #[trigger] g[y][x] == TileType::Wall
}

/// Every cell of the spawn square is floor.
pub open spec fn room_spawn_clear(g: Seq<Seq<TileType>>, width: int, height: int, p: RoomParams) -> bool {
    forall|x: int, y: int|
        in_bounds(width, height, x, y) && in_room_spawn(width, height, p, x, y)
            ==> #[trigger] g[y][x] == TileType::Floor
}

/// Every floor cell of the interior is certain to get an obstacle that
/// covers it.
pub open spec fn obstacles_certain(p: RoomParams) -> bool {
    p.obstacle_numerator == p.obstacle_denominator && p.min_obstacle_size >= 1
}

/// The room's whole interior is wall.
pub open spec fn interior_walled(g: Seq<Seq<TileType>>, width: int, height: int, p: RoomParams) -> bool {
    forall|x: int, y: int|
        in_bounds(width, height, x, y) && room_interior(width, height, p, x, y)
            ==> #[trigger] g[y][x] == TileType::Wall
}

/// Room extent along an axis of length `dim`.
fn extent_of(dim: usize, padding: usize, min_size: usize) -> (r: usize)
    ensures
        r == room_extent(dim as int, padding as int, min_size as int),
{
    let inner = if padding <= dim / 2 { dim - 2 * padding } else { 0 };
    let raised = if inner < min_size { min_size } else { inner };
    if raised > dim { dim } else { raised }
}


/// The footprint of an obstacle at (x, y) of size w by h, cut off at the
/// limits `lx` and `ly` (exclusive).
pub open spec fn in_footprint(x: int, y: int, w: int, h: int, lx: int, ly: int, a: int, b: int) -> bool {
    x <= a < x + w && y <= b < y + h && a < lx && b < ly
}

/// Marks the footprint of an obstacle as wall; every other cell is kept.
pub fn stamp_obstacle(
    grid: &mut Vec<Vec<TileType>>,
    width: usize,
    height: usize,
    x: usize,
    y: usize,
    w: usize,
    h: usize,
    limit_x: usize,
    limit_y: usize,
)
    requires
        is_rect(rows_of(old(grid)), width as int, height as int),
        limit_x <= width,
        limit_y <= height,
    ensures
        is_rect(rows_of(final(grid)), width as int, height as int),
        forall|a: int, b: int| #![trigger rows_of(final(grid))[b][a]]
            in_bounds(width as int, height as int, a, b) ==> rows_of(final(grid))[b][a] == if in_footprint(
                x as int, y as int, w as int, h as int, limit_x as int, limit_y as int, a, b) {
                TileType::Wall
            } else {
                rows_of(old(grid))[b][a]
            },
{
    let ghost g0 = rows_of(grid);
    let mut cy = y;
    while cy < limit_y && cy - y < h
        invariant
            is_rect(rows_of(grid), width as int, height as int),
            is_rect(g0, width as int, height as int),
            limit_x <= width,
            limit_y <= height,
            y <= cy,
            forall|a: int, b: int| #![trigger rows_of(grid)[b][a]]
                in_bounds(width as int, height as int, a, b) ==> rows_of(grid)[b][a] == if b < cy
                    && in_footprint(x as int, y as int, w as int, h as int, limit_x as int, limit_y as int, a, b) {
                    TileType::Wall
                } else {
                    g0[b][a]
                },
        decreases limit_y - cy,
    {
        let mut cx = x;
        while cx < limit_x && cx - x < w
            invariant
                is_rect(rows_of(grid), width as int, height as int),
                is_rect(g0, width as int, height as int),
                limit_x <= width,
                limit_y <= height,
                y <= cy < limit_y,
                cy - y < h,
                x <= cx,
                forall|a: int, b: int| #![trigger rows_of(grid)[b][a]]
                    in_bounds(width as int, height as int, a, b) ==> rows_of(grid)[b][a] == if (b < cy
                        || (b == cy && a < cx)) && in_footprint(
                        x as int, y as int, w as int, h as int, limit_x as int, limit_y as int, a, b) {
                        TileType::Wall
                    } else {
                        g0[b][a]
                    },
            decreases limit_x - cx,
        {
            let ghost before = rows_of(grid);
            set_tile(grid, cx, cy, TileType::Wall);
            proof {
                assert forall|b: int| 0 <= b < height implies (#[trigger] rows_of(grid)[b]).len() == width by {
                    if b == cy { } else { assert(rows_of(grid)[b] == before[b]); }
                }
            }
            cx = cx + 1;
        }
        cy = cy + 1;
    }
}


/// The room's bounds along one axis: (start, end, centre).
fn bounds_of(dim: usize, padding: usize, min_size: usize) -> (r: (usize, usize, usize))
    ensures
        r.0 == room_start(dim as int, padding as int, min_size as int),
        r.1 == room_end(dim as int, padding as int, min_size as int),
        r.2 == room_center(dim as int, padding as int, min_size as int),
        r.0 <= r.1 <= dim,
        r.0 <= dim / 2,
{
    let e = extent_of(dim, padding, min_size);
    let start = (dim - e) / 2;
    (start, start + e, start + e / 2)
}

/// The empty room: floor inside the room's ring, wall everywhere else.
pub fn hollow_room_grid(width: usize, height: usize, p: RoomParams) -> (r: Vec<Vec<TileType>>)
    ensures
        rows_of(&r) == hollow_room(width as int, height as int, p),
        is_rect(rows_of(&r), width as int, height as int),
{
    let (sx, ex, _cx) = bounds_of(width, p.padding, p.min_room_size);
    let (sy, ey, _cy) = bounds_of(height, p.padding, p.min_room_size);
    let ghost target = hollow_room(width as int, height as int, p);
    let mut rows: Vec<Vec<TileType>> = Vec::new();
    let mut y: usize = 0;
    while y < height
        invariant
            target == hollow_room(width as int, height as int, p),
            sx == room_start(width as int, p.padding as int, p.min_room_size as int),
            ex == room_end(width as int, p.padding as int, p.min_room_size as int),
            sy == room_start(height as int, p.padding as int, p.min_room_size as int),
            ey == room_end(height as int, p.padding as int, p.min_room_size as int),
            y <= height,
            rows@.len() == y,
            forall|yy: int| 0 <= yy < y ==> (#[trigger] rows_of(&rows)[yy]) == target[yy],
        decreases height - y,
    {
        let mut row: Vec<TileType> = Vec::new();
        let mut x: usize = 0;
        while x < width
            invariant
                sx == room_start(width as int, p.padding as int, p.min_room_size as int),
                ex == room_end(width as int, p.padding as int, p.min_room_size as int),
                sy == room_start(height as int, p.padding as int, p.min_room_size as int),
                ey == room_end(height as int, p.padding as int, p.min_room_size as int),
                y < height,
                x <= width,
                row@.len() == x,
                forall|xx: int| 0 <= xx < x ==> #[trigger] row@[xx]
                    == hollow_tile(width as int, height as int, p, xx, y as int),
            decreases width - x,
        {
            let t = if sx < x && x + 1 < ex && sy < y && y + 1 < ey {
                TileType::Floor
            } else {
                TileType::Wall
            };
            row.push(t);
            x = x + 1;
        }
        proof {
            assert(row@ =~= target[y as int]);
        }
        let ghost before = rows;
        rows.push(row);
        proof {
            assert forall|yy: int| 0 <= yy < y + 1 implies (#[trigger] rows_of(&rows)[yy]) == target[yy] by {
                if yy < y {
                    assert(rows_of(&rows)[yy] == rows_of(&before)[yy]);
                }
            }
        }
        y = y + 1;
    }
    proof {
        assert(rows_of(&rows) =~= target);
    }
    rows
}


/// At each floor cell of the room's interior, by chance
/// `obstacle_numerator / obstacle_denominator`, places an obstacle of random
/// size and marks its footprint, cut off at the room's ring, as wall.
/// Only interior cells change, and only to wall; with a zero chance nothing
/// changes.
fn scatter_obstacles(grid: &mut Vec<Vec<TileType>>, rng: &mut StdRng, width: usize, height: usize, p: RoomParams)
    requires
        p.valid(),
        is_rect(rows_of(old(grid)), width as int, height as int),
        walls_outside_interior(rows_of(old(grid)), width as int, height as int, p),
    ensures
        is_rect(rows_of(final(grid)), width as int, height as int),
        walls_outside_interior(rows_of(final(grid)), width as int, height as int, p),
        p.obstacle_numerator == 0 ==> rows_of(final(grid)) == rows_of(old(grid)),
        forall|x: int, y: int|
            in_bounds(width as int, height as int, x, y) && rows_of(old(grid))[y][x] == TileType::Wall
                ==> #[trigger] rows_of(final(grid))[y][x] == TileType::Wall,
        obstacles_certain(p) ==> interior_walled(rows_of(final(grid)), width as int, height as int, p),
{
    let ghost g0 = rows_of(grid);
    let (sx, ex, _cx) = bounds_of(width, p.padding, p.min_room_size);
    let (sy, ey, _cy) = bounds_of(height, p.padding, p.min_room_size);
    let mut y: usize = sy + 1;
    while y + 1 < ey
        invariant
            p.valid(),
            sx == room_start(width as int, p.padding as int, p.min_room_size as int),
            ex == room_end(width as int, p.padding as int, p.min_room_size as int),
            sy == room_start(height as int, p.padding as int, p.min_room_size as int),
            ey == room_end(height as int, p.padding as int, p.min_room_size as int),
            ex <= width,
            ey <= height,
            sy < y,
            y <= sy + 1 || y < ey,
            sx <= width / 2,
            sy <= height / 2,
            is_rect(rows_of(grid), width as int, height as int),
            walls_outside_interior(rows_of(grid), width as int, height as int, p),
            p.obstacle_numerator == 0 ==> rows_of(grid) == g0,
            is_rect(g0, width as int, height as int),
            forall|a: int, b: int|
                in_bounds(width as int, height as int, a, b) && g0[b][a] == TileType::Wall
                    ==> #[trigger] rows_of(grid)[b][a] == TileType::Wall,
            obstacles_certain(p) ==> forall|a: int, b: int|
                in_bounds(width as int, height as int, a, b) && room_interior(width as int, height as int, p, a, b)
                    && b < y ==> #[trigger] rows_of(grid)[b][a] == TileType::Wall,
        decreases ey - y,
    {
        let mut x: usize = sx + 1;
        while x + 1 < ex
            invariant
                p.valid(),
                sx == room_start(width as int, p.padding as int, p.min_room_size as int),
                ex == room_end(width as int, p.padding as int, p.min_room_size as int),
                sy == room_start(height as int, p.padding as int, p.min_room_size as int),
                ey == room_end(height as int, p.padding as int, p.min_room_size as int),
                ex <= width,
                ey <= height,
                sy < y,
                y + 1 < ey,
                sx < x,
                x <= sx + 1 || x < ex,
                sx <= width / 2,
                sy <= height / 2,
                is_rect(rows_of(grid), width as int, height as int),
                walls_outside_interior(rows_of(grid), width as int, height as int, p),
                p.obstacle_numerator == 0 ==> rows_of(grid) == g0,
                is_rect(g0, width as int, height as int),
                forall|a: int, b: int|
                    in_bounds(width as int, height as int, a, b) && g0[b][a] == TileType::Wall
                        ==> #[trigger] rows_of(grid)[b][a] == TileType::Wall,
                obstacles_certain(p) ==> forall|a: int, b: int|
                    in_bounds(width as int, height as int, a, b) && room_interior(width as int, height as int, p, a, b)
                        && (b < y || (b == y && a < x)) ==> #[trigger] rows_of(grid)[b][a] == TileType::Wall,
            decreases ex - x,
        {
            assert(rows_of(grid)[y as int] == grid@[y as int]@);
            if grid[y][x] == TileType::Floor && chance(rng, p.obstacle_numerator, p.obstacle_denominator) {
                let w = pick_in_range(rng, p.min_obstacle_size, p.max_obstacle_size);
                let h = pick_in_range(rng, p.min_obstacle_size, p.max_obstacle_size);
                stamp_obstacle(grid, width, height, x, y, w, h, ex - 1, ey - 1);
            }
            x = x + 1;
        }
        proof {
            if obstacles_certain(p) {
                assert forall|a: int, b: int|
                    in_bounds(width as int, height as int, a, b) && room_interior(width as int, height as int, p, a, b)
                        && b < y + 1 implies #[trigger] rows_of(grid)[b][a] == TileType::Wall by {
                    if b == y {
                        assert(a < x);
                    }
                }
            }
        }
        y = y + 1;
    }
    proof {
        if obstacles_certain(p) {
            assert forall|a: int, b: int|
                in_bounds(width as int, height as int, a, b) && room_interior(width as int, height as int, p, a, b)
                    implies #[trigger] rows_of(grid)[b][a] == TileType::Wall by {
                assert(b < y);
            }
        }
    }
}

/// Clears the spawn square to floor; every other cell is kept.
pub fn clear_room_spawn(grid: &Vec<Vec<TileType>>, width: usize, height: usize, p: RoomParams) -> (r: Vec<Vec<TileType>>)
    requires
        is_rect(rows_of(grid), width as int, height as int),
    ensures
        is_rect(rows_of(&r), width as int, height as int),
        forall|x: int, y: int| #![trigger rows_of(&r)[y][x]]
            in_bounds(width as int, height as int, x, y) ==> rows_of(&r)[y][x] == if in_room_spawn(
                width as int, height as int, p, x, y) {
                TileType::Floor
            } else {
                rows_of(grid)[y][x]
            },
{
    let ghost g = rows_of(grid);
    let (sx, ex, cx) = bounds_of(width, p.padding, p.min_room_size);
    let (sy, ey, cy) = bounds_of(height, p.padding, p.min_room_size);
    let mut rows: Vec<Vec<TileType>> = Vec::new();
    let mut y: usize = 0;
    while y < height
        invariant
            g == rows_of(grid),
            is_rect(g, width as int, height as int),
            sx == room_start(width as int, p.padding as int, p.min_room_size as int),
            ex == room_end(width as int, p.padding as int, p.min_room_size as int),
            cx == room_center(width as int, p.padding as int, p.min_room_size as int),
            sy == room_start(height as int, p.padding as int, p.min_room_size as int),
            ey == room_end(height as int, p.padding as int, p.min_room_size as int),
            cy == room_center(height as int, p.padding as int, p.min_room_size as int),
            y <= height,
            rows@.len() == y,
            forall|yy: int| 0 <= yy < y ==> (#[trigger] rows_of(&rows)[yy]).len() == width,
            forall|xx: int, yy: int| #![trigger rows_of(&rows)[yy][xx]]
                0 <= yy < y && 0 <= xx < width ==> rows_of(&rows)[yy][xx] == if in_room_spawn(
                    width as int, height as int, p, xx, yy) {
                    TileType::Floor
                } else {
                    g[yy][xx]
                },
        decreases height - y,
    {
        let mut row: Vec<TileType> = Vec::new();
        let mut x: usize = 0;
        while x < width
            invariant
                g == rows_of(grid),
                is_rect(g, width as int, height as int),
                sx == room_start(width as int, p.padding as int, p.min_room_size as int),
                ex == room_end(width as int, p.padding as int, p.min_room_size as int),
                cx == room_center(width as int, p.padding as int, p.min_room_size as int),
                sy == room_start(height as int, p.padding as int, p.min_room_size as int),
                ey == room_end(height as int, p.padding as int, p.min_room_size as int),
                cy == room_center(height as int, p.padding as int, p.min_room_size as int),
                y < height,
                x <= width,
                row@.len() == x,
                forall|xx: int| 0 <= xx < x ==> #[trigger] row@[xx] == if in_room_spawn(
                    width as int, height as int, p, xx, y as int) {
                    TileType::Floor
                } else {
                    g[y as int][xx]
                },
            decreases width - x,
        {
            assert(g[y as int] == grid@[y as int]@);
            let spawn = sx < x && x + 1 < ex && sy < y && y + 1 < ey
                && x + 1 >= cx && x <= cx + 1 && y + 1 >= cy && y <= cy + 1;
            let t = if spawn { TileType::Floor } else { grid[y][x] };
            row.push(t);
            x = x + 1;
        }
        let ghost before = rows;
        rows.push(row);
        proof {
            assert forall|yy: int| 0 <= yy < y + 1 implies (#[trigger] rows_of(&rows)[yy]).len() == width by {
                if yy < y {
                    assert(rows_of(&rows)[yy] == rows_of(&before)[yy]);
                }
            }
            assert forall|xx: int, yy: int| #![trigger rows_of(&rows)[yy][xx]]
                0 <= yy < y + 1 && 0 <= xx < width implies rows_of(&rows)[yy][xx] == if in_room_spawn(
                    width as int, height as int, p, xx, yy) {
                    TileType::Floor
                } else {
                    g[yy][xx]
                } by {
                if yy < y {
                    assert(rows_of(&rows)[yy] == rows_of(&before)[yy]);
                }
            }
        }
        y = y + 1;
    }
    rows
}

impl ArenaGrid {
    /// Builds a room arena: a centred room inside the padding, walled all
    /// round, with obstacles scattered by a generator seeded with `seed`,
    /// and the spawn square around the room's centre cleared.
    pub fn new_rooms(width: usize, height: usize, p: RoomParams, seed: u64) -> (r: ArenaGrid)
        requires
            width > 0,
            height > 0,
            p.valid(),
        ensures
            r.wf(),
            r.width == width,
            r.height == height,
            walls_outside_interior(r.cells(), width as int, height as int, p),
            room_spawn_clear(r.cells(), width as int, height as int, p),
            border_sealed(r.cells(), width as int, height as int),
            p.obstacle_numerator == 0 ==> r.cells() == hollow_room(width as int, height as int, p),
            obstacles_certain(p) ==> forall|x: int, y: int| #![trigger r.cells()[y][x]]
                in_bounds(width as int, height as int, x, y) ==> r.cells()[y][x] == if in_room_spawn(
                    width as int, height as int, p, x, y) {
                    TileType::Floor
                } else {
                    TileType::Wall
                },
    {
        let mut grid = hollow_room_grid(width, height, p);
        let mut rng = seeded_rng(seed);
        scatter_obstacles(&mut grid, &mut rng, width, height, p);
        let cells = clear_room_spawn(&grid, width, height, p);
        let r = ArenaGrid { grid: cells, width, height };
        proof {
            lemma_room_border_sealed(r.cells(), width as int, height as int, p);
            if p.obstacle_numerator == 0 {
                assert forall|y: int| 0 <= y < height implies #[trigger] r.cells()[y]
                    =~= hollow_room(width as int, height as int, p)[y] by {}
                assert(r.cells() =~= hollow_room(width as int, height as int, p));
            }
        }
        r
    }
}

/// A grid whose walls cover everything outside the room's interior is
/// walled all round its outer ring.
pub proof fn lemma_room_border_sealed(g: Seq<Seq<TileType>>, width: int, height: int, p: RoomParams)
    requires
        walls_outside_interior(g, width, height, p),
    ensures
        border_sealed(g, width, height),
{
    assert forall|x: int, y: int|
        in_bounds(width, height, x, y) && on_border(width, height, x, y) implies #[trigger] g[y][x]
            == TileType::Wall by {
        assert(!room_interior(width, height, p, x, y));
    }
}


/// The spawn square lies inside the room's ring, so never on the grid's
/// outer ring; when the room is at least three cells along each axis, its
/// centre cell belongs to the square, and at least five cells, the whole
/// 3x3 square around the centre does.
pub proof fn lemma_room_spawn_placement(width: int, height: int, p: RoomParams)
    requires
        width > 0,
        height > 0,
    ensures
        forall|x: int, y: int| #[trigger] in_room_spawn(width, height, p, x, y)
            ==> in_bounds(width, height, x, y) && !on_border(width, height, x, y),
        room_extent(width, p.padding as int, p.min_room_size as int) >= 3
            && room_extent(height, p.padding as int, p.min_room_size as int) >= 3
            ==> in_room_spawn(width, height, p,
                room_center(width, p.padding as int, p.min_room_size as int),
                room_center(height, p.padding as int, p.min_room_size as int)),
        room_extent(width, p.padding as int, p.min_room_size as int) >= 5
            && room_extent(height, p.padding as int, p.min_room_size as int) >= 5
            ==> forall|dx: int, dy: int| -1 <= dx <= 1 && -1 <= dy <= 1 ==> #[trigger] in_room_spawn(width, height, p,
                room_center(width, p.padding as int, p.min_room_size as int) + dx,
                room_center(height, p.padding as int, p.min_room_size as int) + dy),
{
}

/// With at least the standard minimum room size of 8, a grid of at least
/// 8x8 has a room of at least 8 cells along each axis, so the whole 3x3
/// spawn square around the room's centre lies inside the room's ring.
pub proof fn lemma_room_spawn_full(width: int, height: int, p: RoomParams)
    requires
        width >= 8,
        height >= 8,
        p.min_room_size >= 8,
    ensures
        room_extent(width, p.padding as int, p.min_room_size as int) >= 8,
        room_extent(height, p.padding as int, p.min_room_size as int) >= 8,
        forall|dx: int, dy: int| -1 <= dx <= 1 && -1 <= dy <= 1 ==> #[trigger] in_room_spawn(width, height, p,
            room_center(width, p.padding as int, p.min_room_size as int) + dx,
            room_center(height, p.padding as int, p.min_room_size as int) + dy),
{
    lemma_room_spawn_placement(width, height, p);
}

} // verus!
