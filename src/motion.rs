use vstd::prelude::*;
use crate::grid::{ArenaGrid, TileType, in_bounds, cell_before, row_major};
use crate::collision::{Vec2, is_blocked, resolve_movement, resolved_move, overlaps_wall, move_fits};
use crate::random::{seeded_rng, pick_in_range};

verus! {

/// How long a projectile flies before it is removed, in milliseconds.
pub const PROJECTILE_LIFETIME_MS: u64 = 2000;
/// How many enemies an arena starts with when it has room for them.
pub const MAX_ENEMIES_SPAWN: usize = 10;
/// Enemies spawn at squared tile distance above this from the grid centre.
pub const ENEMY_SPAWN_MIN_DIST_SQ: i128 = 25;

/// A moving body: its centre and its full size.
#[derive(Debug, Clone, Copy, PartialEq, Eq, Structural)]
pub struct Body {
    pub position: Vec2,
    pub size: Vec2,
}

impl Body {
    /// A body's size is never negative.
    pub open spec fn valid(&self) -> bool {
        self.size.x >= 0 && self.size.y >= 0
    }

    /// Moves the body by `delta` as far as the walls allow, axis by axis,
    /// and returns the displacement that was applied.
    pub fn move_through(&mut self, grid: &ArenaGrid, tile_size: u32, delta: Vec2) -> (r: Vec2)
        requires
            grid.wf(),
            tile_size > 0,
            old(self).valid(),
            move_fits(old(self).position, delta),
        ensures
            r == resolved_move(*grid, tile_size as int, old(self).position, old(self).size, delta),
            final(self).size == old(self).size,
            final(self).position.x == old(self).position.x + r.x,
            final(self).position.y == old(self).position.y + r.y,
    {
        let r = resolve_movement(grid, tile_size, self.position, self.size, delta);
        self.position = Vec2 { x: self.position.x + r.x, y: self.position.y + r.y };
        r
    }
}

/// The unit step of the direction keys held this frame: up and right are
/// positive; opposite keys cancel.
pub fn key_direction(up: bool, down: bool, left: bool, right: bool) -> (r: Vec2)
    ensures
        r.x == (if right { 1int } else { 0 }) - (if left { 1int } else { 0 }),
        r.y == (if up { 1int } else { 0 }) - (if down { 1int } else { 0 }),
{
    let mut x: i64 = 0;
    let mut y: i64 = 0;
    if up { y = y + 1; }
    if down { y = y - 1; }
    if left { x = x - 1; }
    if right { x = x + 1; }
    Vec2 { x, y }
}

/// A countdown in milliseconds.
#[derive(Debug, Clone, Copy, PartialEq, Eq, Structural)]
pub struct Lifetime {
    pub duration_ms: u64,
    pub elapsed_ms: u64,
}

impl Lifetime {
    /// A countdown of `duration_ms` that has just started.
    pub fn new(duration_ms: u64) -> (r: Lifetime)
        ensures
            r.duration_ms == duration_ms,
            r.elapsed_ms == 0,
    {
        Lifetime { duration_ms, elapsed_ms: 0 }
    }

    /// The elapsed time after `delta_ms` more: it stops at the duration.
    pub open spec fn ticked(&self, delta_ms: u64) -> u64 {
        if self.elapsed_ms + delta_ms >= self.duration_ms {
            self.duration_ms
        } else {
            (self.elapsed_ms + delta_ms) as u64
        }
    }

    /// Advances the countdown by `delta_ms`; the elapsed time stops at the
    /// duration.
    pub fn tick(&mut self, delta_ms: u64)
        ensures
            final(self).duration_ms == old(self).duration_ms,
            final(self).elapsed_ms == old(self).ticked(delta_ms),
    {
        if self.elapsed_ms >= self.duration_ms || delta_ms >= self.duration_ms - self.elapsed_ms {
            self.elapsed_ms = self.duration_ms;
        } else {
            self.elapsed_ms = self.elapsed_ms + delta_ms;
        }
    }

    /// The whole duration has elapsed.
    pub fn finished(&self) -> (r: bool)
        ensures
            r == (self.elapsed_ms >= self.duration_ms),
    {
        self.elapsed_ms >= self.duration_ms
    }
}

/// A projectile in flight.
#[derive(Debug, Clone, Copy, PartialEq, Eq, Structural)]
pub struct Projectile {
    pub body: Body,
    pub lifetime: Lifetime,
}

/// What became of a projectile in one frame.
#[derive(Debug, Clone, Copy, PartialEq, Eq, Structural)]
pub enum ProjectileStep {
    /// It moved and flies on.
    Flying,
    /// Its next position overlapped a wall: it is removed where it was.
    HitWall,
    /// It moved and its lifetime ran out: it is removed.
    Expired,
}

impl Projectile {
    /// A projectile at `position` with a fresh lifetime of `lifetime_ms`.
    pub fn new(position: Vec2, size: Vec2, lifetime_ms: u64) -> (r: Projectile)
        ensures
            r.body.position == position,
            r.body.size == size,
            r.lifetime.duration_ms == lifetime_ms,
            r.lifetime.elapsed_ms == 0,
    {
        Projectile { body: Body { position, size }, lifetime: Lifetime::new(lifetime_ms) }
    }

    /// One frame of flight: the whole step `movement` is tested at once; on
    /// a wall the projectile is removed without moving, else it moves and
    /// its lifetime advances by `elapsed_ms`.
    pub fn advance(&mut self, grid: &ArenaGrid, tile_size: u32, movement: Vec2, elapsed_ms: u64) -> (r: ProjectileStep)
        requires
            grid.wf(),
            tile_size > 0,
            old(self).body.valid(),
            move_fits(old(self).body.position, movement),
        ensures
            ({
                let next = Vec2 {
                    x: (old(self).body.position.x + movement.x) as i64,
                    y: (old(self).body.position.y + movement.y) as i64,
                };
                if overlaps_wall(*grid, tile_size as int, next, old(self).body.size) {
                    r == ProjectileStep::HitWall && *final(self) == *old(self)
                } else {
                    &&& final(self).body.position == next
                    &&& final(self).body.size == old(self).body.size
                    &&& final(self).lifetime.duration_ms == old(self).lifetime.duration_ms
                    &&& final(self).lifetime.elapsed_ms == old(self).lifetime.ticked(elapsed_ms)
                    &&& r == if final(self).lifetime.elapsed_ms >= final(self).lifetime.duration_ms {
                        ProjectileStep::Expired
                    } else {
                        ProjectileStep::Flying
                    }
                }
            }),
    {
        let next = Vec2 { x: self.body.position.x + movement.x, y: self.body.position.y + movement.y };
        if is_blocked(grid, tile_size, next, self.body.size) {
            return ProjectileStep::HitWall;
        }
        self.body.position = next;
        self.lifetime.tick(elapsed_ms);
        if self.lifetime.finished() {
            ProjectileStep::Expired
        } else {
            ProjectileStep::Flying
        }
    }
}


/// A cell where an enemy may start: floor, two cells or more inside the
/// outer ring, and more than five cells from the grid centre.
pub open spec fn spawn_eligible(g: ArenaGrid, x: int, y: int) -> bool {
    let dx = x - g.width / 2;
    let dy = y - g.height / 2;
    &&& in_bounds(g.width as int, g.height as int, x, y)
    &&& g.tile(x, y) == TileType::Floor
    &&& 1 < x < g.width - 2
    &&& 1 < y < g.height - 2
    &&& dx * dx + dy * dy > ENEMY_SPAWN_MIN_DIST_SQ
}

/// Every cell where an enemy may start, each as (column, row), once, in
/// row-major order.
pub fn enemy_spawn_candidates(grid: &ArenaGrid) -> (r: Vec<(usize, usize)>)
    requires
        grid.wf(),
    ensures
        forall|k: int| 0 <= k < r@.len() ==> spawn_eligible(*grid, (#[trigger] r@[k]).0 as int, r@[k].1 as int),
        forall|x: int, y: int| #[trigger] spawn_eligible(*grid, x, y)
            ==> exists|k: int| 0 <= k < r@.len() && r@[k] == (x as usize, y as usize),
        row_major(r@),
{
    let mut found: Vec<(usize, usize)> = Vec::new();
    let cx = (grid.width / 2) as i128;
    let cy = (grid.height / 2) as i128;
    let mut y: usize = 0;
    while y < grid.height
        invariant
            grid.wf(),
            cx == grid.width / 2,
            cy == grid.height / 2,
            y <= grid.height,
            forall|k: int| 0 <= k < found@.len() ==> spawn_eligible(*grid, (#[trigger] found@[k]).0 as int, found@[k].1 as int),
            forall|a: int, b: int| #[trigger] spawn_eligible(*grid, a, b) && b < y
                ==> exists|k: int| 0 <= k < found@.len() && found@[k] == (a as usize, b as usize),
            row_major(found@),
            forall|k: int| 0 <= k < found@.len() ==> (#[trigger] found@[k]).1 < y,
        decreases grid.height - y,
    {
        let mut x: usize = 0;
        while x < grid.width
            invariant
                grid.wf(),
                cx == grid.width / 2,
                cy == grid.height / 2,
                y < grid.height,
                x <= grid.width,
                forall|k: int| 0 <= k < found@.len() ==> spawn_eligible(*grid, (#[trigger] found@[k]).0 as int, found@[k].1 as int),
                forall|a: int, b: int| #[trigger] spawn_eligible(*grid, a, b) && (b < y || (b == y && a < x))
                    ==> exists|k: int| 0 <= k < found@.len() && found@[k] == (a as usize, b as usize),
                row_major(found@),
                forall|k: int| 0 <= k < found@.len() ==> cell_before(#[trigger] found@[k], (x, y)),
            decreases grid.width - x,
        {
            let dx = x as i128 - cx;
            let dy = y as i128 - cy;
            let far = if dx > 5 || dx < -5 || dy > 5 || dy < -5 {
                proof {
                    assert(dx * dx + dy * dy > 25) by (nonlinear_arith)
                        requires dx > 5 || dx < -5 || dy > 5 || dy < -5;
                }
                true
            } else {
                proof {
                    assert(0 <= dx * dx <= 25 && 0 <= dy * dy <= 25) by (nonlinear_arith)
                        requires -5 <= dx <= 5, -5 <= dy <= 5;
                }
                dx * dx + dy * dy > ENEMY_SPAWN_MIN_DIST_SQ
            };
            if grid.get(x, y) == TileType::Floor && x > 1 && grid.width - x > 2 && y > 1 && grid.height - y > 2 && far {
                let ghost before = found@;
                found.push((x, y));
                proof {
                    assert forall|a: int, b: int| #[trigger] spawn_eligible(*grid, a, b) && (b < y || (b == y && a < x + 1))
                        implies exists|k: int| 0 <= k < found@.len() && found@[k] == (a as usize, b as usize) by {
                        if b == y && a == x {
                            assert(found@[before.len() as int] == (a as usize, b as usize));
                        } else {
                            let k = choose|k: int| 0 <= k < before.len() && before[k] == (a as usize, b as usize);
                            assert(found@[k] == before[k]);
                        }
                    }
                    assert forall|i: int, j: int| 0 <= i < j < found@.len() implies cell_before(
                        #[trigger] found@[i], #[trigger] found@[j]) by {
                        assert(found@[i] == before[i]);
                        if j < before.len() {
                            assert(found@[j] == before[j]);
                        }
                    }
                    assert forall|k: int| 0 <= k < found@.len() implies cell_before(
                        #[trigger] found@[k], ((x + 1) as usize, y)) by {
                        if k < before.len() {
                            assert(found@[k] == before[k]);
                        }
                    }
                }
            }
            x = x + 1;
        }
        y = y + 1;
    }
    found
}

/// Start cells for the enemies of a new arena: `MAX_ENEMIES_SPAWN` cells
/// drawn at random, with repetition, by a generator seeded with `seed`
/// from the eligible cells; none when no cell is eligible.
pub fn choose_enemy_spawns(grid: &ArenaGrid, seed: u64) -> (r: Vec<(usize, usize)>)
    requires
        grid.wf(),
    ensures
        forall|k: int| 0 <= k < r@.len() ==> spawn_eligible(*grid, (#[trigger] r@[k]).0 as int, r@[k].1 as int),
        r@.len() == if exists|x: int, y: int| #[trigger] spawn_eligible(*grid, x, y) {
            MAX_ENEMIES_SPAWN as int
        } else {
            0
        },
{
    let candidates = enemy_spawn_candidates(grid);
    let mut picked: Vec<(usize, usize)> = Vec::new();
    if candidates.len() == 0 {
        proof {
            if exists|x: int, y: int| #[trigger] spawn_eligible(*grid, x, y) {
                let (x, y) = choose|x: int, y: int| #[trigger] spawn_eligible(*grid, x, y);
                assert(exists|k: int| 0 <= k < candidates@.len() && candidates@[k] == (x as usize, y as usize));
            }
        }
        return picked;
    }
    proof {
        assert(spawn_eligible(*grid, candidates@[0].0 as int, candidates@[0].1 as int));
    }
    let mut rng = seeded_rng(seed);
    let mut i: usize = 0;
    while i < MAX_ENEMIES_SPAWN
        invariant
            grid.wf(),
            candidates@.len() > 0,
            forall|k: int| 0 <= k < candidates@.len() ==> spawn_eligible(*grid, (#[trigger] candidates@[k]).0 as int, candidates@[k].1 as int),
            picked@.len() == i,
            i <= MAX_ENEMIES_SPAWN,
            forall|k: int| 0 <= k < picked@.len() ==> spawn_eligible(*grid, (#[trigger] picked@[k]).0 as int, picked@[k].1 as int),
        decreases MAX_ENEMIES_SPAWN - i,
    {
        let k = pick_in_range(&mut rng, 0, candidates.len() - 1);
        let cell = candidates[k];
        picked.push(cell);
        proof {
            assert(picked@[i as int] == candidates@[k as int]);
        }
        i = i + 1;
    }
    picked
}

} // verus!
