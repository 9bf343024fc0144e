use dorf::pathing::{CollisionGridCache, EntityId};
use dorf::rect2d::{Tile, TileSize};
use dorf::search::{calc_optimal_path, heuristic, search_goal_cost};
use dorf::transform::{Loc, Transform2D};

fn at(x: i32, y: i32) -> Transform2D {
    Transform2D {
        scale: TileSize::new(1, 1),
        loc: Loc { x: x as i64 * 1000, y: y as i64 * 1000, z: 0 },
    }
}

fn wall(c: &mut CollisionGridCache, id: u64, x: i32, y: i32, w: u32, h: u32) {
    let t = Transform2D {
        scale: TileSize::new(w, h),
        loc: Loc { x: x as i64 * 1000, y: y as i64 * 1000, z: 0 },
    };
    c.move_entity(&t, EntityId(id));
}

fn check_route(c: &CollisionGridCache, path: &[Tile], start: Tile, goal: Tile) {
    assert_eq!(path[0], goal);
    assert_eq!(*path.last().unwrap(), start);
    for w in path.windows(2) {
        let d = (w[0].x - w[1].x).abs().max((w[0].y - w[1].y).abs());
        assert_eq!(d, 1);
    }
    for t in &path[..path.len() - 1] {
        assert_eq!(c.collides(*t), Ok(false));
    }
}

#[test]
fn heuristic_is_tenths_of_euclidean_distance() {
    assert_eq!(heuristic(Tile::new(0, 0), Tile::new(3, 4)), 50);
    assert_eq!(heuristic(Tile::new(1, 1), Tile::new(2, 2)), 14);
    assert_eq!(heuristic(Tile::new(-5, 2), Tile::new(-5, 2)), 0);
}

fn route_cost(path: &[Tile]) -> u128 {
    path.windows(2)
        .map(|w| if w[0].x == w[1].x || w[0].y == w[1].y { 10 } else { 14 })
        .sum()
}

#[test]
fn open_grid_diagonal_route_is_cheapest() {
    let c = CollisionGridCache::new(Tile::new(0, 0), TileSize::new(10, 10));
    let path = calc_optimal_path(&c, &at(0, 0), Tile::new(3, 3)).unwrap();
    check_route(&c, &path, Tile::new(0, 0), Tile::new(3, 3));
    assert_eq!(
        path,
        vec![Tile::new(3, 3), Tile::new(2, 2), Tile::new(1, 1), Tile::new(0, 0)]
    );
    assert_eq!(route_cost(&path), 42);
    assert_eq!(
        calc_optimal_path(&c, &at(0, 0), Tile::new(1, 1)),
        Some(vec![Tile::new(1, 1), Tile::new(0, 0)])
    );
}

#[test]
fn open_grid_route_cost_matches_goal_cost_and_optimum() {
    let c = CollisionGridCache::new(Tile::new(0, 0), TileSize::new(12, 12));
    for gx in 0..12 {
        for gy in 0..12 {
            let goal = Tile::new(gx, gy);
            let path = calc_optimal_path(&c, &at(0, 0), goal).unwrap();
            check_route(&c, &path, Tile::new(0, 0), goal);
            let opt = 10 * gx.max(gy) as u128 + 4 * gx.min(gy) as u128;
            assert_eq!(Some(route_cost(&path)), search_goal_cost(&c, &at(0, 0), goal));
            assert_eq!(route_cost(&path), opt);
        }
    }
}

#[test]
fn open_grid_straight_route() {
    let c = CollisionGridCache::new(Tile::new(0, 0), TileSize::new(10, 10));
    let path = calc_optimal_path(&c, &at(0, 0), Tile::new(9, 2)).unwrap();
    check_route(&c, &path, Tile::new(0, 0), Tile::new(9, 2));
    assert_eq!(path.len(), 10);
    assert_eq!(route_cost(&path), 98);
}

#[test]
fn start_equals_goal() {
    let c = CollisionGridCache::new(Tile::new(0, 0), TileSize::new(5, 5));
    assert_eq!(calc_optimal_path(&c, &at(2, 2), Tile::new(2, 2)), Some(vec![Tile::new(2, 2)]));
}

#[test]
fn goal_walled_on_all_sides_fails() {
    let mut c = CollisionGridCache::new(Tile::new(0, 0), TileSize::new(8, 8));
    wall(&mut c, 1, 4, 3, 3, 1);
    wall(&mut c, 2, 4, 5, 3, 1);
    wall(&mut c, 3, 4, 4, 1, 1);
    wall(&mut c, 4, 6, 4, 1, 1);
    // Every tile around (5, 4), sides and corners, is a wall.
    let path = calc_optimal_path(&c, &at(0, 0), Tile::new(5, 4));
    assert_eq!(path, None);
}

#[test]
fn blocked_or_off_grid_goal_fails() {
    let mut c = CollisionGridCache::new(Tile::new(0, 0), TileSize::new(8, 8));
    wall(&mut c, 1, 5, 5, 1, 1);
    assert_eq!(calc_optimal_path(&c, &at(0, 0), Tile::new(5, 5)), None);
    assert_eq!(calc_optimal_path(&c, &at(0, 0), Tile::new(8, 0)), None);
    assert_eq!(calc_optimal_path(&c, &at(-1, 0), Tile::new(3, 0)), None);
}

#[test]
fn wall_scenario_routes_around() {
    let mut c = CollisionGridCache::new(Tile::new(0, 0), TileSize::new(10, 10));
    wall(&mut c, 1, 3, 0, 1, 5);
    let agent = at(0, 0);
    for y in 0..5 {
        assert_eq!(c.would_collide_if_moved(&agent, &Tile::new(3, y)), Ok(true));
    }
    let path = calc_optimal_path(&c, &agent, Tile::new(6, 0)).unwrap();
    check_route(&c, &path, Tile::new(0, 0), Tile::new(6, 0));
    assert_eq!(Some(route_cost(&path)), search_goal_cost(&c, &agent, Tile::new(6, 0)));
    assert!(path.iter().all(|t| !(t.x == 3 && t.y < 5)));
    assert!(path.iter().any(|t| t.x == 3 && t.y >= 5));
}

#[test]
fn adjacent_free_goal_is_one_step() {
    let mut c = CollisionGridCache::new(Tile::new(0, 0), TileSize::new(6, 6));
    wall(&mut c, 1, 3, 3, 1, 1);
    assert_eq!(
        calc_optimal_path(&c, &at(2, 2), Tile::new(2, 3)),
        Some(vec![Tile::new(2, 3), Tile::new(2, 2)])
    );
    assert_eq!(
        calc_optimal_path(&c, &at(0, 0), Tile::new(1, 0)),
        Some(vec![Tile::new(1, 0), Tile::new(0, 0)])
    );
}

#[test]
fn enclosed_goal_search_ends_within_grid_size() {
    // The goal is walled in on all eight sides; the search must give up after
    // exhausting the reachable tiles of a bounded grid.
    let mut c = CollisionGridCache::new(Tile::new(0, 0), TileSize::new(30, 30));
    wall(&mut c, 1, 14, 14, 3, 1);
    wall(&mut c, 2, 14, 16, 3, 1);
    wall(&mut c, 3, 14, 15, 1, 1);
    wall(&mut c, 4, 16, 15, 1, 1);
    assert_eq!(calc_optimal_path(&c, &at(0, 0), Tile::new(15, 15)), None);
}

#[test]
fn wider_entity_avoids_narrow_gap() {
    let mut c = CollisionGridCache::new(Tile::new(0, 0), TileSize::new(8, 8));
    // A wall across the grid with a one-tile gap at y = 4.
    wall(&mut c, 1, 4, 0, 1, 4);
    wall(&mut c, 2, 4, 5, 1, 3);
    let small = at(0, 4);
    let path = calc_optimal_path(&c, &small, Tile::new(7, 4)).unwrap();
    assert!(path.contains(&Tile::new(4, 4)));
    let big = Transform2D { scale: TileSize::new(2, 2), loc: Loc { x: 0, y: 4_000, z: 0 } };
    assert_eq!(calc_optimal_path(&c, &big, Tile::new(6, 4)), None);
}

#[test]
fn open_grid_goal_cost_is_optimal() {
    // With no obstacles the cost recorded for the goal is the cheapest
    // eight-way cost: 10 per straight step, 14 per diagonal step.
    let c = CollisionGridCache::new(Tile::new(0, 0), TileSize::new(10, 10));
    for gx in 0..10 {
        for gy in 0..10 {
            let opt = 10 * gx.max(gy) as u128 + 4 * gx.min(gy) as u128;
            assert_eq!(search_goal_cost(&c, &at(0, 0), Tile::new(gx, gy)), Some(opt));
        }
    }
    let big = CollisionGridCache::new(Tile::new(0, 0), TileSize::new(40, 40));
    assert_eq!(search_goal_cost(&big, &at(2, 3), Tile::new(17, 11)), Some(182));
    assert_eq!(search_goal_cost(&big, &at(0, 0), Tile::new(30, 30)), Some(420));
    assert_eq!(search_goal_cost(&big, &at(5, 5), Tile::new(35, 20)), Some(360));
}

#[test]
fn goal_walled_on_all_eight_sides_is_unreachable() {
    let mut c = CollisionGridCache::new(Tile::new(0, 0), TileSize::new(12, 12));
    wall(&mut c, 1, 5, 5, 3, 1);
    wall(&mut c, 2, 5, 7, 3, 1);
    wall(&mut c, 3, 5, 6, 1, 1);
    wall(&mut c, 4, 7, 6, 1, 1);
    assert_eq!(search_goal_cost(&c, &at(0, 0), Tile::new(6, 6)), None);
    assert_eq!(calc_optimal_path(&c, &at(0, 0), Tile::new(6, 6)), None);
}

#[test]
fn goal_open_only_at_corners_is_entered_diagonally() {
    let mut c = CollisionGridCache::new(Tile::new(0, 0), TileSize::new(8, 8));
    wall(&mut c, 1, 4, 3, 1, 1);
    wall(&mut c, 2, 4, 5, 1, 1);
    wall(&mut c, 3, 3, 4, 1, 1);
    wall(&mut c, 4, 5, 4, 1, 1);
    assert!(search_goal_cost(&c, &at(0, 0), Tile::new(4, 4)).is_some());
    let path = calc_optimal_path(&c, &at(0, 0), Tile::new(4, 4)).unwrap();
    check_route(&c, &path, Tile::new(0, 0), Tile::new(4, 4));
    let second = path[1];
    assert!((second.x - 4).abs() == 1 && (second.y - 4).abs() == 1);
}

#[test]
fn off_grid_goal_on_start_tile_fails() {
    let c = CollisionGridCache::new(Tile::new(0, 0), TileSize::new(4, 4));
    assert_eq!(calc_optimal_path(&c, &at(-2, 1), Tile::new(-2, 1)), None);
    assert_eq!(calc_optimal_path(&c, &at(1, 1), Tile::new(1, 1)), Some(vec![Tile::new(1, 1)]));
}

#[test]
fn goal_cost_off_grid_start() {
    let c = CollisionGridCache::new(Tile::new(0, 0), TileSize::new(4, 4));
    assert_eq!(search_goal_cost(&c, &at(-1, 0), Tile::new(-1, 0)), None);
    assert_eq!(search_goal_cost(&c, &at(2, 2), Tile::new(2, 2)), Some(0));
}
