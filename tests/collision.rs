use rusty_gungeon::collision::{
    check_aabb_collision, is_blocked, nearby_wall_tiles, resolve_movement, Vec2,
};
use rusty_gungeon::grid::{ArenaGrid, TileType};
use rusty_gungeon::motion::Body;

const TS: u32 = 16;

/// A 10 x 10 grid with the outer ring walled and the given extra walls.
/// With tile size 16 the grid spans -80..80 on both axes; column `c`
/// spans (c - 5) * 16 .. (c - 4) * 16.
fn arena_with(walls: &[(usize, usize)]) -> ArenaGrid {
    let mut grid = vec![vec![TileType::Floor; 10]; 10];
    for i in 0..10 {
        grid[0][i] = TileType::Wall;
        grid[9][i] = TileType::Wall;
        grid[i][0] = TileType::Wall;
        grid[i][9] = TileType::Wall;
    }
    for &(x, y) in walls {
        grid[y][x] = TileType::Wall;
    }
    ArenaGrid { grid, width: 10, height: 10 }
}

fn v(x: i64, y: i64) -> Vec2 {
    Vec2::new(x, y)
}

#[test]
fn touching_unit_boxes_do_not_collide() {
    assert!(!check_aabb_collision(v(0, 0), v(1, 1), v(1, 0), v(1, 1)));
    assert!(!check_aabb_collision(v(0, 0), v(1, 1), v(0, -1), v(1, 1)));
    assert!(!check_aabb_collision(v(0, 0), v(1, 1), v(1, 1), v(1, 1)));
}

#[test]
fn overlapping_boxes_collide() {
    assert!(check_aabb_collision(v(0, 0), v(2, 2), v(1, 0), v(2, 2)));
    assert!(check_aabb_collision(v(0, 0), v(1, 1), v(0, 0), v(1, 1)));
    assert!(check_aabb_collision(v(0, 0), v(16, 16), v(15, 15), v(16, 16)));
    assert!(!check_aabb_collision(v(0, 0), v(16, 16), v(16, 5), v(16, 16)));
    assert!(!check_aabb_collision(v(0, 0), v(4, 4), v(10, 10), v(4, 4)));
}

#[test]
fn nearby_walls_of_open_centre_is_empty() {
    let g = arena_with(&[]);
    assert!(nearby_wall_tiles(&g, TS, v(0, 0), v(16, 16)).is_empty());
}

#[test]
fn nearby_walls_lists_window_walls_only() {
    let g = arena_with(&[(6, 5), (2, 5)]);
    // body -8..8, window -16..16 -> columns 4..6 (rounded outward)
    let near = nearby_wall_tiles(&g, TS, v(0, 0), v(16, 16));
    assert_eq!(near, vec![(6, 5)]);
}

#[test]
fn nearby_walls_at_corner_are_clamped() {
    let g = arena_with(&[]);
    // body -76..-68 on both axes; the window -84..-60 maps to tile
    // coordinates -0.25..1.25, rounded outward to -1..2 and clamped to 0..2
    let near = nearby_wall_tiles(&g, TS, v(-72, -72), v(8, 8));
    assert_eq!(near, vec![(0, 0), (1, 0), (2, 0), (0, 1), (0, 2)]);
    // far outside the grid nothing is read
    assert!(nearby_wall_tiles(&g, TS, v(10_000, 10_000), v(8, 8)).is_empty());
    assert!(nearby_wall_tiles(&g, TS, v(-10_000, 0), v(8, 8)).is_empty());
}

#[test]
fn nearby_walls_are_row_major_without_repeats() {
    let g = arena_with(&[(4, 4), (5, 4), (6, 5), (4, 6)]);
    let near = nearby_wall_tiles(&g, TS, v(0, 0), v(16, 16));
    assert_eq!(near, vec![(4, 4), (5, 4), (6, 5), (4, 6)]);
}

#[test]
fn blocked_when_body_overlaps_wall() {
    let g = arena_with(&[(6, 5)]);
    // column 6 spans 16..32, row 5 spans 0..16
    assert!(is_blocked(&g, TS, v(9, 0), v(16, 16)));
    assert!(!is_blocked(&g, TS, v(8, 0), v(16, 16)));
    assert!(!is_blocked(&g, TS, v(9, -8), v(16, 16)));
    assert!(is_blocked(&g, TS, v(9, -7), v(16, 16)));
}

#[test]
fn zero_displacement_is_zero_move() {
    let g = arena_with(&[(6, 5), (6, 4), (3, 4)]);
    let r = resolve_movement(&g, TS, v(0, 0), v(16, 16), v(0, 0));
    assert_eq!(r, v(0, 0));
    let mut b = Body { position: v(3, -2), size: v(10, 10) };
    let moved = b.move_through(&g, TS, v(0, 0));
    assert_eq!(moved, v(0, 0));
    assert_eq!(b.position, v(3, -2));
}

#[test]
fn diagonal_into_wall_slides_along_it() {
    let g = arena_with(&[(6, 2), (6, 3), (6, 4), (6, 5), (6, 6), (6, 7)]);
    let r = resolve_movement(&g, TS, v(0, 0), v(16, 16), v(10, 10));
    assert_eq!(r, v(0, 10));
    let mut b = Body { position: v(0, 0), size: v(16, 16) };
    b.move_through(&g, TS, v(10, -10));
    assert_eq!(b.position, v(0, -10));
}

#[test]
fn free_move_is_accepted_whole() {
    let g = arena_with(&[]);
    let r = resolve_movement(&g, TS, v(0, 0), v(16, 16), v(7, -5));
    assert_eq!(r, v(7, -5));
}

#[test]
fn fully_blocked_body_stays_put() {
    let g = arena_with(&[
        (3, 3), (3, 4), (3, 5), (3, 6),
        (6, 3), (6, 4), (6, 5), (6, 6),
        (4, 3), (5, 3), (4, 6), (5, 6),
    ]);
    for d in [v(10, 10), v(-10, -10), v(10, -10), v(-10, 10)] {
        let mut b = Body { position: v(0, 0), size: v(16, 16) };
        let moved = b.move_through(&g, TS, d);
        assert_eq!(moved, v(0, 0));
        assert_eq!(b.position, v(0, 0));
    }
}

#[test]
fn move_stops_at_touching_distance() {
    let g = arena_with(&[(6, 4), (6, 5)]);
    // body right edge at 8; wall begins at 16: a step of 8 only touches
    let mut b = Body { position: v(0, 0), size: v(16, 16) };
    b.move_through(&g, TS, v(8, 0));
    assert_eq!(b.position, v(8, 0));
    b.move_through(&g, TS, v(1, 0));
    assert_eq!(b.position, v(8, 0));
}

#[test]
fn odd_tile_size_grid_is_consistent() {
    // 3 x 3 grid of 15-unit tiles: column 2 spans 7.5..22.5
    let mut grid = vec![vec![TileType::Floor; 3]; 3];
    grid[1][2] = TileType::Wall;
    let g = ArenaGrid { grid, width: 3, height: 3 };
    assert!(!is_blocked(&g, 15, v(3, 0), v(9, 9)));
    assert!(is_blocked(&g, 15, v(4, 0), v(9, 9)));
}
