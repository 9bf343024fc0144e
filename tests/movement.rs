use dorf::movement::{
    assign_optimal_path, dist, move_on_optimal_path, random_point_on_local_map, step_entity,
    travel_budget, GoalLoc, MovePath, Speed,
};
use dorf::pathing::{CollisionGridCache, EntityId};
use dorf::rect2d::{tile_from_vec2, Point2, Rect2D, Tile, TileSize};
use dorf::transform::{Loc, Transform2D};

fn at(x: i64, y: i64) -> Transform2D {
    Transform2D { scale: TileSize::new(1, 1), loc: Loc { x, y, z: 0 } }
}

#[test]
fn straight_path_takes_two_ticks() {
    // Ten waypoints east of the start, stored last-first.
    let steps: Vec<Tile> = (1..=10).rev().map(|x| Tile::new(x, 0)).collect();
    let mut path = MovePath { steps };
    let mut t = at(0, 0);
    let speed = Speed(5_000);
    let mut goal = GoalLoc(None);
    let area = Rect2D::new(0, 0, 20, 20);

    let done = step_entity(&mut t, &mut path, &speed, 1_000, &mut goal, &area);
    assert!(!done);
    assert_eq!((t.loc.x, t.loc.y), (5_000, 0));
    assert_eq!(path.steps.len(), 5);
    assert_eq!(goal, GoalLoc(None));

    let done = step_entity(&mut t, &mut path, &speed, 1_000, &mut goal, &area);
    assert!(done);
    assert_eq!((t.loc.x, t.loc.y), (10_000, 0));
    assert!(path.steps.is_empty());
    let g = goal.0.unwrap();
    let gt = tile_from_vec2(g);
    assert!(area.contains_exclusive_max(gt));
}

#[test]
fn partial_move_toward_waypoint() {
    let mut path = MovePath { steps: vec![Tile::new(3, 4)] };
    let mut t = at(0, 0);
    assert!(!move_on_optimal_path(&mut t, &mut path, 2_500));
    assert_eq!((t.loc.x, t.loc.y), (1_500, 2_000));
    assert_eq!(path.steps, vec![Tile::new(3, 4)]);
    assert!(!move_on_optimal_path(&mut t, &mut path, 2_499));
    assert_eq!((t.loc.x, t.loc.y), (2_999, 3_999));
    assert!(move_on_optimal_path(&mut t, &mut path, 2));
    assert_eq!((t.loc.x, t.loc.y), (3_000, 4_000));
    assert!(path.steps.is_empty());
}

#[test]
fn several_waypoints_in_one_tick_and_negative_direction() {
    let mut path = MovePath { steps: vec![Tile::new(-3, 0), Tile::new(-2, 0), Tile::new(-1, 0)] };
    let mut t = at(0, 0);
    assert!(!move_on_optimal_path(&mut t, &mut path, 2_400));
    assert_eq!((t.loc.x, t.loc.y), (-2_400, 0));
    assert_eq!(path.steps, vec![Tile::new(-3, 0)]);
    assert_eq!(t.loc.z, 0);
}

#[test]
fn empty_path_needs_goal() {
    let mut path = MovePath { steps: vec![] };
    let mut t = at(1_234, 5_678);
    assert!(move_on_optimal_path(&mut t, &mut path, 10));
    assert_eq!((t.loc.x, t.loc.y), (1_234, 5_678));
}

#[test]
fn budget_and_distance() {
    assert_eq!(travel_budget(&Speed(5_000), 1_000), 5_000);
    assert_eq!(travel_budget(&Speed(5_000), 16), 80);
    assert_eq!(travel_budget(&Speed(3), 333), 0);
    assert_eq!(dist(Point2::new(0, 0), Point2::new(3_000, 4_000)), 5_000);
    assert_eq!(dist(Point2::new(0, 0), Point2::new(1_000, 1_000)), 1_414);
}

#[test]
fn random_point_lies_on_area() {
    let area = Rect2D::new(-3, 2, 1, 4);
    let mut seen = std::collections::HashSet::new();
    for _ in 0..200 {
        let p = random_point_on_local_map(&area);
        assert!(area.contains_exclusive_max(tile_from_vec2(p)));
        seen.insert((p.x, p.y));
    }
    // The draws are spread over the area, not pinned to one corner.
    assert!(seen.len() > 100);
}

#[test]
fn assign_path_clears_goal_on_success() {
    let cache = CollisionGridCache::new(Tile::new(0, 0), TileSize::new(10, 10));
    let t = at(0, 0);
    let mut goal = GoalLoc(Some(Point2::new(2_500, 0)));
    let mp = assign_optimal_path(&cache, &t, &mut goal).unwrap();
    assert_eq!(mp.steps, vec![Tile::new(2, 0), Tile::new(1, 0), Tile::new(0, 0)]);
    assert_eq!(goal, GoalLoc(None));
}

#[test]
fn assign_path_retries_with_new_goal_on_failure() {
    let mut cache = CollisionGridCache::new(Tile::new(0, 0), TileSize::new(10, 10));
    let wall = Transform2D { scale: TileSize::new(1, 1), loc: Loc { x: 5_000, y: 5_000, z: 0 } };
    cache.move_entity(&wall, EntityId(1));
    let t = at(0, 0);
    let mut goal = GoalLoc(Some(Point2::new(5_000, 5_000)));
    assert!(assign_optimal_path(&cache, &t, &mut goal).is_none());
    let g = goal.0.unwrap();
    assert!(cache.grid.rect().contains_exclusive_max(tile_from_vec2(g)));

    let mut none = GoalLoc(None);
    assert!(assign_optimal_path(&cache, &t, &mut none).is_none());
    assert_eq!(none, GoalLoc(None));
}
