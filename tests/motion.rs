use rusty_gungeon::collision::Vec2;
use rusty_gungeon::grid::{ArenaGrid, TileType};
use rusty_gungeon::motion::{
    choose_enemy_spawns, enemy_spawn_candidates, key_direction, Lifetime, Projectile,
    ProjectileStep, MAX_ENEMIES_SPAWN, PROJECTILE_LIFETIME_MS,
};
use rusty_gungeon::rooms::RoomParams;

const TS: u32 = 16;

fn v(x: i64, y: i64) -> Vec2 {
    Vec2::new(x, y)
}

fn open_arena(width: usize, height: usize) -> ArenaGrid {
    let mut grid = vec![vec![TileType::Floor; width]; height];
    for y in 0..height {
        for x in 0..width {
            if x == 0 || y == 0 || x == width - 1 || y == height - 1 {
                grid[y][x] = TileType::Wall;
            }
        }
    }
    ArenaGrid { grid, width, height }
}

#[test]
fn projectile_into_adjacent_wall_is_removed_at_once() {
    let mut g = open_arena(10, 10);
    g.grid[5][6] = TileType::Wall;
    let mut p = Projectile::new(v(0, 8), v(10, 4), PROJECTILE_LIFETIME_MS);
    let step = p.advance(&g, TS, v(12, 0), 16);
    assert_eq!(step, ProjectileStep::HitWall);
    assert_eq!(p.body.position, v(0, 8));
    assert_eq!(p.lifetime.elapsed_ms, 0);
}

#[test]
fn projectile_flies_then_expires() {
    let g = open_arena(10, 10);
    let mut p = Projectile::new(v(0, 0), v(10, 4), 40);
    assert_eq!(p.advance(&g, TS, v(3, 1), 16), ProjectileStep::Flying);
    assert_eq!(p.body.position, v(3, 1));
    assert_eq!(p.advance(&g, TS, v(3, 1), 16), ProjectileStep::Flying);
    assert_eq!(p.advance(&g, TS, v(3, 1), 16), ProjectileStep::Expired);
    assert_eq!(p.body.position, v(9, 3));
}

#[test]
fn projectile_is_not_slid_along_wall() {
    let mut g = open_arena(10, 10);
    g.grid[5][6] = TileType::Wall;
    let mut p = Projectile::new(v(8, 8), v(4, 4), PROJECTILE_LIFETIME_MS);
    // the diagonal step overlaps the wall; the Y part alone would not
    assert_eq!(p.advance(&g, TS, v(8, -2), 16), ProjectileStep::HitWall);
    assert_eq!(p.body.position, v(8, 8));
}

#[test]
fn lifetime_counts_down() {
    let mut l = Lifetime::new(2000);
    assert!(!l.finished());
    l.tick(1500);
    assert!(!l.finished());
    l.tick(500);
    assert!(l.finished());
    assert_eq!(l.elapsed_ms, 2000);
    l.tick(u64::MAX);
    assert_eq!(l.elapsed_ms, 2000);
    assert!(Lifetime::new(0).finished());
}

#[test]
fn lifetime_stops_at_duration() {
    let mut l = Lifetime::new(2000);
    l.tick(1500);
    assert_eq!(l.elapsed_ms, 1500);
    l.tick(1000);
    assert_eq!(l.elapsed_ms, 2000);
    assert!(l.finished());
}

#[test]
fn expired_projectile_lifetime_stops_at_duration() {
    let g = open_arena(10, 10);
    let mut p = Projectile::new(v(0, 0), v(10, 4), 30);
    assert_eq!(p.advance(&g, TS, v(1, 0), 20), ProjectileStep::Flying);
    assert_eq!(p.advance(&g, TS, v(1, 0), 20), ProjectileStep::Expired);
    assert_eq!(p.lifetime.elapsed_ms, 30);
}

#[test]
fn keys_give_unit_direction() {
    assert_eq!(key_direction(true, false, false, false), v(0, 1));
    assert_eq!(key_direction(false, true, false, false), v(0, -1));
    assert_eq!(key_direction(false, false, true, true), v(0, 0));
    assert_eq!(key_direction(true, false, false, true), v(1, 1));
    assert_eq!(key_direction(false, true, true, false), v(-1, -1));
    assert_eq!(key_direction(false, false, false, false), v(0, 0));
}

#[test]
fn spawn_candidates_are_far_floor_cells() {
    let g = open_arena(20, 20);
    let c = enemy_spawn_candidates(&g);
    assert!(!c.is_empty());
    for &(x, y) in &c {
        assert!(x > 1 && x < 18 && y > 1 && y < 18);
        let dx = x as i64 - 10;
        let dy = y as i64 - 10;
        assert!(dx * dx + dy * dy > 25);
    }
    assert!(c.contains(&(2, 2)));
    for w in c.windows(2) {
        let (a, b) = (w[0], w[1]);
        assert!(a.1 < b.1 || (a.1 == b.1 && a.0 < b.0));
    }
    assert_eq!(c[0], (2, 2));
    assert!(!c.contains(&(10, 15)));
    assert!(c.contains(&(10, 16)));
    assert!(!c.contains(&(1, 5)));
    let expected = (2..18)
        .flat_map(|y: i64| (2..18).map(move |x: i64| (x, y)))
        .filter(|&(x, y)| (x - 10) * (x - 10) + (y - 10) * (y - 10) > 25)
        .count();
    assert_eq!(c.len(), expected);
}

#[test]
fn spawn_candidates_skip_walls() {
    let mut g = open_arena(20, 20);
    g.grid[2][2] = TileType::Wall;
    assert!(!enemy_spawn_candidates(&g).contains(&(2, 2)));
}

#[test]
fn enemy_spawns_come_from_candidates() {
    let g = open_arena(20, 20);
    let c = enemy_spawn_candidates(&g);
    for seed in 0..10u64 {
        let picked = choose_enemy_spawns(&g, seed);
        assert_eq!(picked.len(), MAX_ENEMIES_SPAWN);
        for cell in &picked {
            assert!(c.contains(cell));
        }
    }
}

#[test]
fn small_arena_spawns_no_enemies() {
    let mut p = RoomParams::standard();
    p.obstacle_numerator = 0;
    let g = ArenaGrid::new_rooms(10, 10, p, 1);
    assert!(enemy_spawn_candidates(&g).is_empty());
    assert!(choose_enemy_spawns(&g, 3).is_empty());
}
