use dorf::movement::{GoalLoc, MovePath, Speed};
use dorf::pathing::{CollisionGridCache, EntityId};
use dorf::rect2d::{Point2, Tile, TileSize};
use dorf::transform::{Loc, Transform2D};
use dorf::world::{
    point_has_tile_exec, spawn_collider_walls, spawn_mv_player_over_time, sys_handle_collisions,
    sys_update_collision_cache, tick, transform_fits, AgentEntity, ObstacleEntity, World,
    MAX_SPAWNED_AGENTS,
};

fn place(x: i64, y: i64, w: u32, h: u32) -> Transform2D {
    Transform2D { scale: TileSize::new(w, h), loc: Loc { x: x * 1000, y: y * 1000, z: 0 } }
}

fn scenario_world() -> World {
    World {
        cache: CollisionGridCache::new(Tile::new(0, 0), TileSize::new(10, 10)),
        obstacles: vec![ObstacleEntity { id: EntityId(1), transform: place(3, 0, 1, 5), moved: true }],
        agents: vec![AgentEntity {
            id: EntityId(2),
            transform: place(0, 0, 1, 1),
            speed: Speed(5_000),
            goal: GoalLoc(Some(Point2::new(6_000, 0))),
            path: None,
        }],
        next_id: 3,
    }
}

#[test]
fn tick_records_walls_then_routes_and_moves() {
    let mut w = scenario_world();
    let overlaps = tick(&mut w, 1_000);
    assert_eq!(overlaps, vec![false]);
    assert!(!w.obstacles[0].moved);
    assert_eq!(w.cache.collides(Tile::new(3, 2)), Ok(true));
    let a = &w.agents[0];
    assert_eq!(a.goal, GoalLoc(None));
    let path = a.path.as_ref().unwrap();
    assert_eq!(path.steps[0], Tile::new(6, 0));
    assert!(path.steps.iter().all(|t| !(t.x == 3 && t.y < 5)));
    for _ in 0..10 {
        let o = tick(&mut w, 1_000);
        assert_eq!(o, vec![false]);
        if w.agents[0].path.is_none() {
            break;
        }
    }
    let a = &w.agents[0];
    assert!(a.path.is_none());
    assert_eq!((a.transform.loc.x, a.transform.loc.y), (6_000, 0));
    assert!(a.goal.0.is_some());
}

#[test]
fn unchanged_walls_are_not_rerecorded() {
    let mut cache = CollisionGridCache::new(Tile::new(0, 0), TileSize::new(5, 5));
    let mut obs = vec![
        ObstacleEntity { id: EntityId(1), transform: place(1, 1, 1, 1), moved: true },
        ObstacleEntity { id: EntityId(2), transform: place(2, 2, 1, 1), moved: false },
    ];
    sys_update_collision_cache(&mut cache, &mut obs);
    assert_eq!(cache.collides(Tile::new(1, 1)), Ok(true));
    assert_eq!(cache.collides(Tile::new(2, 2)), Ok(false));
    assert!(obs.iter().all(|o| !o.moved));
    assert_eq!(cache.entities.len(), 1);
}

#[test]
fn overlapping_agent_is_reported() {
    let mut cache = CollisionGridCache::new(Tile::new(0, 0), TileSize::new(5, 5));
    cache.move_entity(&place(2, 2, 1, 1), EntityId(1));
    let agents = vec![
        AgentEntity {
            id: EntityId(7),
            transform: place(1, 1, 2, 2),
            speed: Speed(0),
            goal: GoalLoc(None),
            path: Some(MovePath { steps: vec![] }),
        },
        AgentEntity {
            id: EntityId(8),
            transform: place(0, 0, 1, 1),
            speed: Speed(0),
            goal: GoalLoc(None),
            path: None,
        },
        AgentEntity {
            id: EntityId(9),
            transform: place(4, 4, 2, 2),
            speed: Speed(0),
            goal: GoalLoc(None),
            path: None,
        },
    ];
    assert_eq!(sys_handle_collisions(&cache, &agents), vec![true, false, false]);
    let edge = vec![AgentEntity {
        id: EntityId(10),
        transform: place(2, 2, 4, 1),
        speed: Speed(0),
        goal: GoalLoc(None),
        path: None,
    }];
    // The agent straddles the grid's edge and overlaps the wall at (2, 2) first.
    assert_eq!(sys_handle_collisions(&cache, &edge), vec![true]);
}

#[test]
fn representability_checks() {
    assert!(point_has_tile_exec(Point2::new(-5_500, 7_000)));
    assert!(!point_has_tile_exec(Point2::new(i64::MAX, 0)));
    assert!(transform_fits(&place(0, 0, 3, 3)));
    let edge = Transform2D {
        scale: TileSize::new(2, 1),
        loc: Loc { x: (i32::MAX as i64) * 1000, y: 0, z: 0 },
    };
    assert!(!transform_fits(&edge));
}

#[test]
fn spawned_world_walks_agents_around_the_wall() {
    let mut w = World::new();
    assert_eq!(w.cache.grid.rect().max, Tile::new(10, 50));
    spawn_collider_walls(&mut w);
    let mut count: usize = 0;
    spawn_mv_player_over_time(&mut w, &mut count);
    spawn_mv_player_over_time(&mut w, &mut count);
    assert_eq!(count, 2);
    assert_eq!(w.agents.len(), 2);
    assert_eq!(w.agents[1].id, EntityId(3));
    assert_eq!(w.agents[0].goal, GoalLoc(Some(Point2::new(0, 1_000))));
    assert_eq!(w.obstacles[0].transform, place(3, 0, 1, 5));
    for _ in 0..20 {
        let overlaps = tick(&mut w, 250);
        assert!(overlaps.iter().all(|o| !*o));
        for a in &w.agents {
            let t = dorf::rect2d::tile_from_vec2(Point2::new(a.transform.loc.x, a.transform.loc.y));
            assert!(!(t.x == 3 && t.y < 5));
        }
    }
}

#[test]
fn spawning_stops_at_the_limit() {
    let mut w = World::new();
    let mut count: usize = MAX_SPAWNED_AGENTS;
    spawn_mv_player_over_time(&mut w, &mut count);
    assert_eq!(count, MAX_SPAWNED_AGENTS);
    assert!(w.agents.is_empty());
}
