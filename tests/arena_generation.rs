use rusty_gungeon::cave::{count_wall_neighbors, smooth_pass, CaveParams};
use rusty_gungeon::grid::{ArenaGrid, TileType};
use rusty_gungeon::rooms::RoomParams;

fn filled(width: usize, height: usize, t: TileType) -> Vec<Vec<TileType>> {
    vec![vec![t; width]; height]
}

fn is_border(g: &ArenaGrid, x: usize, y: usize) -> bool {
    x == 0 || y == 0 || x == g.width - 1 || y == g.height - 1
}

fn assert_border_sealed(g: &ArenaGrid) {
    for y in 0..g.height {
        for x in 0..g.width {
            if is_border(g, x, y) {
                assert_eq!(g.grid[y][x], TileType::Wall, "border cell ({}, {})", x, y);
            }
        }
    }
}

fn checkerboard(width: usize, height: usize) -> Vec<Vec<TileType>> {
    (0..height)
        .map(|y| {
            (0..width)
                .map(|x| if (x * 7 + y * 3) % 5 < 2 { TileType::Wall } else { TileType::Floor })
                .collect()
        })
        .collect()
}

#[test]
fn room_grid_without_obstacles_is_hollow_room() {
    let mut p = RoomParams::standard();
    p.obstacle_numerator = 0;
    let g = ArenaGrid::new_rooms(10, 10, p, 42);
    assert_eq!(g.width, 10);
    assert_eq!(g.height, 10);
    for y in 0..10 {
        for x in 0..10 {
            let expected = if (2..=7).contains(&x) && (2..=7).contains(&y) {
                TileType::Floor
            } else {
                TileType::Wall
            };
            assert_eq!(g.grid[y][x], expected, "cell ({}, {})", x, y);
        }
    }
}

#[test]
fn room_grid_without_obstacles_ignores_seed() {
    let mut p = RoomParams::standard();
    p.obstacle_numerator = 0;
    let a = ArenaGrid::new_rooms(10, 10, p, 1);
    let b = ArenaGrid::new_rooms(10, 10, p, 99);
    assert_eq!(a.grid, b.grid);
}

#[test]
fn room_grid_border_and_spawn_with_obstacles() {
    for seed in 0..20u64 {
        let mut p = RoomParams::standard();
        p.obstacle_numerator = 1;
        p.obstacle_denominator = 1;
        let g = ArenaGrid::new_rooms(50, 40, p, seed);
        assert_border_sealed(&g);
        // room: 44 x 34 starting at (3, 3); centre (25, 20)
        for y in 19..=21 {
            for x in 24..=26 {
                assert_eq!(g.grid[y][x], TileType::Floor);
            }
        }
        // outside the room, everything is wall
        for y in 0..40 {
            for x in 0..3 {
                assert_eq!(g.grid[y][x], TileType::Wall);
            }
        }
    }
}

#[test]
fn room_grid_certain_obstacles_fill_interior_but_spawn() {
    let mut p = RoomParams::standard();
    p.obstacle_numerator = 1;
    p.obstacle_denominator = 1;
    let g = ArenaGrid::new_rooms(10, 10, p, 7);
    // every interior floor cell gets an obstacle, so only the spawn square
    // around the room centre (5, 5) stays floor
    for y in 0..10 {
        for x in 0..10 {
            let expected = if (4..=6).contains(&x) && (4..=6).contains(&y) {
                TileType::Floor
            } else {
                TileType::Wall
            };
            assert_eq!(g.grid[y][x], expected, "cell ({}, {})", x, y);
        }
    }
}

#[test]
fn room_grid_smaller_than_padding_clamps_room_to_grid() {
    let mut p = RoomParams::standard();
    p.obstacle_numerator = 0;
    let g = ArenaGrid::new_rooms(4, 4, p, 3);
    for y in 0..4 {
        for x in 0..4 {
            let expected = if (1..=2).contains(&x) && (1..=2).contains(&y) {
                TileType::Floor
            } else {
                TileType::Wall
            };
            assert_eq!(g.grid[y][x], expected);
        }
    }
}

#[test]
fn room_grid_tiny_is_all_wall() {
    let g = ArenaGrid::new_rooms(2, 2, RoomParams::standard(), 5);
    assert_eq!(g.grid, filled(2, 2, TileType::Wall));
}

#[test]
fn standard_params() {
    let r = RoomParams::standard();
    assert_eq!(r.padding, 3);
    assert_eq!(r.min_room_size, 8);
    assert_eq!((r.obstacle_numerator, r.obstacle_denominator), (15, 100));
    assert_eq!((r.min_obstacle_size, r.max_obstacle_size), (1, 3));
    let c = CaveParams::standard();
    assert_eq!(c.smoothing_iterations, 3);
    assert_eq!(c.wall_threshold, 5);
    assert_eq!(c.floor_threshold, 4);
}

#[test]
fn neighbors_off_grid_count_as_wall() {
    let g = filled(3, 3, TileType::Floor);
    assert_eq!(count_wall_neighbors(&g, 0, 0, 3, 3), 5);
    assert_eq!(count_wall_neighbors(&g, 2, 2, 3, 3), 5);
    assert_eq!(count_wall_neighbors(&g, 1, 0, 3, 3), 3);
    assert_eq!(count_wall_neighbors(&g, 0, 1, 3, 3), 3);
    assert_eq!(count_wall_neighbors(&g, 1, 1, 3, 3), 0);
}

#[test]
fn neighbors_count_walls_on_grid() {
    let mut g = filled(3, 3, TileType::Floor);
    g[0][0] = TileType::Wall;
    g[1][2] = TileType::Wall;
    g[1][1] = TileType::Wall;
    assert_eq!(count_wall_neighbors(&g, 1, 1, 3, 3), 2);
    assert_eq!(count_wall_neighbors(&g, 0, 0, 3, 3), 6);
    let walls = filled(3, 3, TileType::Wall);
    assert_eq!(count_wall_neighbors(&walls, 1, 1, 3, 3), 8);
}

#[test]
fn smoothing_removes_lonely_wall_and_fills_enclosed_floor() {
    let mut g = filled(5, 5, TileType::Floor);
    g[2][2] = TileType::Wall;
    let p = CaveParams::standard();
    let s = smooth_pass(&g, 5, 5, p);
    assert_eq!(s, filled(5, 5, TileType::Floor));

    let mut h = filled(5, 5, TileType::Wall);
    h[2][2] = TileType::Floor;
    let t = smooth_pass(&h, 5, 5, p);
    assert_eq!(t, filled(5, 5, TileType::Wall));
}

#[test]
fn smoothing_reads_only_previous_grid() {
    // a floor cell with exactly five wall neighbours turns wall even though
    // its neighbours change in the same pass
    let mut g = filled(5, 5, TileType::Floor);
    for x in 0..5 {
        g[0][x] = TileType::Wall;
    }
    g[1][1] = TileType::Wall;
    g[1][3] = TileType::Wall;
    let p = CaveParams::standard();
    let s = smooth_pass(&g, 5, 5, p);
    // (2, 1): walls at (1,0), (2,0), (3,0), (1,1), (3,1) -> 5 -> wall
    assert_eq!(s[1][2], TileType::Wall);
    // (1, 1): walls at (0,0), (1,0), (2,0) only -> 3 -> floor
    assert_eq!(s[1][1], TileType::Floor);
    // border cells are not smoothed
    assert_eq!(s[0][0], TileType::Wall);
    assert_eq!(s[4][4], TileType::Floor);
}

#[test]
fn cave_from_all_wall_keeps_walls_but_spawn() {
    let g = ArenaGrid::new_cave(filled(7, 7, TileType::Wall), 7, 7, CaveParams::standard());
    for y in 0..7 {
        for x in 0..7 {
            let expected = if (2..=4).contains(&x) && (2..=4).contains(&y) {
                TileType::Floor
            } else {
                TileType::Wall
            };
            assert_eq!(g.grid[y][x], expected, "cell ({}, {})", x, y);
        }
    }
}

#[test]
fn cave_from_all_floor_is_sealed() {
    let g = ArenaGrid::new_cave(filled(6, 5, TileType::Floor), 6, 5, CaveParams::standard());
    assert_eq!((g.width, g.height), (6, 5));
    for y in 0..5 {
        for x in 0..6 {
            let expected = if is_border(&g, x, y) { TileType::Wall } else { TileType::Floor };
            assert_eq!(g.grid[y][x], expected);
        }
    }
}

#[test]
fn cave_border_and_spawn_on_mixed_input() {
    let g = ArenaGrid::new_cave(checkerboard(86, 49), 86, 49, CaveParams::standard());
    assert_border_sealed(&g);
    for y in 23..=25 {
        for x in 42..=44 {
            assert_eq!(g.grid[y][x], TileType::Floor);
        }
    }
}

#[test]
fn cave_without_smoothing_keeps_interior() {
    let mut p = CaveParams::standard();
    p.smoothing_iterations = 0;
    let input = checkerboard(12, 9);
    let g = ArenaGrid::new_cave(input.clone(), 12, 9, p);
    for y in 1..8 {
        for x in 1..11 {
            let spawn = (5..=7).contains(&x) && (3..=5).contains(&y);
            if !spawn {
                assert_eq!(g.grid[y][x], input[y][x]);
            }
        }
    }
}

#[test]
fn grid_accessors() {
    let mut p = RoomParams::standard();
    p.obstacle_numerator = 0;
    let g = ArenaGrid::new_rooms(10, 10, p, 0);
    assert_eq!(g.get(0, 0), TileType::Wall);
    assert_eq!(g.get(5, 5), TileType::Floor);
    assert!(g.is_wall(1, 1));
    assert!(!g.is_wall(2, 2));
}
