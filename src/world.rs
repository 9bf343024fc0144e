use vstd::prelude::*;

use crate::arith::{floor_div_tile, MAX_COORD, UNITS_PER_TILE};
use crate::movement::{
    advance, assign_optimal_path, budget_for, route_owed, step_entity, GoalLoc, MovePath, Speed,
};
use crate::pathing::{CollisionGridCache, EntityId};
use crate::rect2d::{point_has_tile, tile_of, Point2, Rect2D, Tile, TileSize};
use crate::search::is_route;
use crate::transform::{Loc, Transform2D};

verus! {

broadcast use vstd::std_specs::hash::group_hash_axioms;

/// A wall: it blocks the tiles under it. `moved` is set when its transform
/// changed since the cache last recorded it.
#[derive(Clone, Copy, Debug, PartialEq, Eq, Structural)]
pub struct ObstacleEntity {
    pub id: EntityId,
    pub transform: Transform2D,
    pub moved: bool,
}

/// A moving agent.
#[derive(Clone, Debug)]
pub struct AgentEntity {
    pub id: EntityId,
    pub transform: Transform2D,
    pub speed: Speed,
    pub goal: GoalLoc,
    pub path: Option<MovePath>,
}

/// Whether `p`'s covering tile is representable.
pub fn point_has_tile_exec(p: Point2) -> (r: bool)
    ensures
        r == point_has_tile(p),
{
    let x = floor_div_tile(p.x);
    let y = floor_div_tile(p.y);
    i32::MIN as i64 <= x && x <= i32::MAX as i64 && i32::MIN as i64 <= y && y <= i32::MAX as i64
}

/// Whether both coordinates of `p` are within `MAX_COORD` of the origin.
pub fn point_in_range(p: Point2) -> (r: bool)
    ensures
        r == p.in_range(),
{
    -MAX_COORD <= p.x && p.x <= MAX_COORD && -MAX_COORD <= p.y && p.y <= MAX_COORD
}

/// Whether the footprint of `t` is representable.
pub fn transform_fits(t: &Transform2D) -> (r: bool)
    ensures
        r == t.fits(),
{
    let p = Point2 { x: t.loc.x, y: t.loc.y };
    if !point_has_tile_exec(p) {
        return false;
    }
    let x = floor_div_tile(t.loc.x);
    let y = floor_div_tile(t.loc.y);
    x + t.scale.x as i64 <= i32::MAX as i64 && y + t.scale.y as i64 <= i32::MAX as i64
}

/// Obstacle `i` of `obs` is recorded by the refresh.
pub open spec fn refreshes(obs: Seq<ObstacleEntity>, i: int) -> bool {
    obs[i].moved && obs[i].transform.fits()
}

/// The entity map after refreshing obstacles `0..n` of `obs`, in order.
pub open spec fn refreshed_entities(
    m: Map<u64, Rect2D>,
    obs: Seq<ObstacleEntity>,
    n: int,
) -> Map<u64, Rect2D>
    decreases n,
{
    if n <= 0 {
        m
    } else {
        let prev = refreshed_entities(m, obs, n - 1);
        if refreshes(obs, n - 1) {
            prev.insert(obs[n - 1].id.0, obs[n - 1].transform.footprint())
        } else {
            prev
        }
    }
}

/// The occupant of `t` once obstacles `0..n` of `obs` have been recorded in
/// order into cache `c`, each with `move_entity` (see `moved_occupant`).
pub open spec fn refreshed_occupant(
    c: CollisionGridCache,
    obs: Seq<ObstacleEntity>,
    n: int,
    t: Tile,
) -> Option<EntityId>
    decreases n,
{
    if n <= 0 {
        c.occupant(t)
    } else {
        let prev = refreshed_occupant(c, obs, n - 1, t);
        if refreshes(obs, n - 1) {
            let m = refreshed_entities(c.entities@, obs, n - 1);
            let id = obs[n - 1].id;
            let cleared = if m.contains_key(id.0) && m[id.0].has_tile(t) {
                None
            } else {
                prev
            };
            if obs[n - 1].transform.footprint().has_tile(t) && cleared is None {
                Some(id)
            } else {
                cleared
            }
        } else {
            prev
        }
    }
}

/// Records in the cache, in order, every obstacle whose transform changed
/// (with `move_entity`), and clears their `moved` marks. An obstacle whose
/// footprint cannot be represented is skipped.
pub fn sys_update_collision_cache(cache: &mut CollisionGridCache, obstacles: &mut Vec<ObstacleEntity>)
    requires
        old(cache).wf(),
    ensures
        final(cache).wf(),
        final(cache).grid.rect == old(cache).grid.rect,
        final(cache).entities@ == refreshed_entities(
            old(cache).entities@,
            old(obstacles)@,
            old(obstacles)@.len() as int,
        ),
        forall|t: Tile|
            #![trigger final(cache).grid.cell(t)]
            final(cache).grid.in_bounds(t) ==> final(cache).occupant(t) == refreshed_occupant(
                *old(cache),
                old(obstacles)@,
                old(obstacles)@.len() as int,
                t,
            ),
        final(obstacles)@.len() == old(obstacles)@.len(),
        forall|i: int|
            0 <= i < final(obstacles)@.len() ==> #[trigger] final(obstacles)@[i] == (ObstacleEntity {
                moved: false,
                ..old(obstacles)@[i]
            }),
{
    let n = obstacles.len();
    let mut i: usize = 0;
    while i < n
        invariant
            n == obstacles@.len(),
            i <= n,
            cache.wf(),
            cache.grid.rect == old(cache).grid.rect,
            cache.entities@ == refreshed_entities(old(cache).entities@, old(obstacles)@, i as int),
            forall|t: Tile|
                #![trigger cache.grid.cell(t)]
                cache.grid.in_bounds(t) ==> cache.occupant(t) == refreshed_occupant(
                    *old(cache),
                    old(obstacles)@,
                    i as int,
                    t,
                ),
            forall|j: int|
                0 <= j < i ==> #[trigger] obstacles@[j] == (ObstacleEntity {
                    moved: false,
                    ..old(obstacles)@[j]
                }),
            forall|j: int| i <= j < n ==> #[trigger] obstacles@[j] == old(obstacles)@[j],
        decreases n - i,
    {
        let o = obstacles[i];
        let ghost before = *cache;
        if o.moved && transform_fits(&o.transform) {
            cache.move_entity(&o.transform, o.id);
        }
        proof {
            assert forall|t: Tile|
                #![trigger cache.grid.cell(t)]
                cache.grid.in_bounds(t) implies cache.occupant(t) == refreshed_occupant(
                    *old(cache),
                    old(obstacles)@,
                    i + 1,
                    t,
                ) by {
                assert(before.grid.in_bounds(t));
                assert(before.occupant(t) == refreshed_occupant(*old(cache), old(obstacles)@, i as int, t));
            }
        }
        obstacles.set(i, ObstacleEntity { moved: false, ..o });
        i = i + 1;
    }
}

/// What the path assignment leaves of agent `a0` (see `assign_optimal_path`).
/// An agent without a goal, or whose position or goal has no representable
/// tile, is unchanged. Otherwise, when a route is owed (`route_owed`), the goal
/// is cleared and a route to the goal's tile stored; when none is, the route
/// is kept and the goal replaced by a point on the grid (cleared when the grid
/// has no tile).
pub open spec fn assigned(cache: CollisionGridCache, a0: AgentEntity, a1: AgentEntity) -> bool {
    &&& a1.id == a0.id
    &&& a1.transform == a0.transform
    &&& a1.speed == a0.speed
    &&& match a0.goal.0 {
        Some(p) if point_has_tile(a0.transform.loc.xy()) && point_has_tile(p) => {
            if route_owed(cache, a0.transform, tile_of(p)) {
                &&& a1.goal.0 is None
                &&& (a1.path matches Some(mp) && is_route(
                    cache,
                    a0.transform.scale,
                    a0.transform.tile_spec(),
                    tile_of(p),
                    mp.steps@,
                ))
            } else {
                &&& a1.path == a0.path
                &&& (cache.grid.rect.is_empty_spec() ==> a1.goal.0 is None)
                &&& (!cache.grid.rect.is_empty_spec() ==> (a1.goal.0 matches Some(q)
                    && cache.grid.rect.has_tile(tile_of(q))))
            }
        },
        _ => a1.goal == a0.goal && a1.path == a0.path,
    }
}

/// Runs the path search for every agent with a pending goal.
pub fn system_assign_optimal_path(cache: &CollisionGridCache, agents: &mut Vec<AgentEntity>)
    requires
        cache.wf(),
    ensures
        final(agents)@.len() == old(agents)@.len(),
        forall|i: int|
            0 <= i < final(agents)@.len() ==> assigned(
                *cache,
                old(agents)@[i],
                #[trigger] final(agents)@[i],
            ),
{
    let n = agents.len();
    let mut i: usize = 0;
    while i < n
        invariant
            cache.wf(),
            n == agents@.len(),
            i <= n,
            forall|j: int| 0 <= j < i ==> assigned(*cache, old(agents)@[j], #[trigger] agents@[j]),
            forall|j: int| i <= j < n ==> #[trigger] agents@[j] == old(agents)@[j],
        decreases n - i,
    {
        let a = &mut agents[i];
        let pending = match a.goal.0 {
            Some(p) => point_has_tile_exec(Point2 { x: a.transform.loc.x, y: a.transform.loc.y })
                && point_has_tile_exec(p),
            None => false,
        };
        if pending {
            match assign_optimal_path(cache, &a.transform, &mut a.goal) {
                Some(mp) => {
                    a.path = Some(mp);
                },
                None => {},
            }
        }
        i = i + 1;
    }
}

/// What one tick of movement leaves of agent `a0` (see `step_entity`). An
/// agent without a route, or whose position is out of range or whose budget
/// does not fit, is unchanged. Otherwise it advances along its route; when the
/// route runs out it is dropped and a new goal on `area` is requested.
pub open spec fn advanced(a0: AgentEntity, a1: AgentEntity, delta_ms: u64, area: Rect2D) -> bool {
    &&& a1.id == a0.id
    &&& a1.speed == a0.speed
    &&& match a0.path {
        Some(mp) if a0.transform.loc.xy().in_range() && budget_for(a0.speed, delta_ms)
            <= u64::MAX => {
            let (pos, steps, done) = advance(
                a0.transform.loc.xy(),
                mp.steps@,
                budget_for(a0.speed, delta_ms),
            );
            &&& a1.transform.loc.xy() == pos
            &&& a1.transform.loc.z == a0.transform.loc.z
            &&& a1.transform.scale == a0.transform.scale
            &&& if done {
                &&& a1.path is None
                &&& (!area.is_empty_spec() ==> (a1.goal.0 matches Some(q) && area.has_tile(
                    tile_of(q),
                )))
                &&& (area.is_empty_spec() ==> a1.goal == a0.goal)
            } else {
                &&& (a1.path matches Some(m1) && m1.steps@ == steps)
                &&& a1.goal == a0.goal
            }
        },
        _ => a1.transform == a0.transform && a1.goal == a0.goal && a1.path == a0.path,
    }
}

/// Moves every agent that holds a route by its speed over `delta_ms`
/// milliseconds; agents whose route ran out drop it and get a new goal on `area`.
pub fn system_move_on_optimal_path(agents: &mut Vec<AgentEntity>, delta_ms: u64, area: &Rect2D)
    ensures
        final(agents)@.len() == old(agents)@.len(),
        forall|i: int|
            0 <= i < final(agents)@.len() ==> advanced(
                old(agents)@[i],
                #[trigger] final(agents)@[i],
                delta_ms,
                *area,
            ),
{
    let n = agents.len();
    let mut i: usize = 0;
    while i < n
        invariant
            n == agents@.len(),
            i <= n,
            forall|j: int|
                0 <= j < i ==> advanced(old(agents)@[j], #[trigger] agents@[j], delta_ms, *area),
            forall|j: int| i <= j < n ==> #[trigger] agents@[j] == old(agents)@[j],
        decreases n - i,
    {
        let a = &mut agents[i];
        let sp: u128 = a.speed.0 as u128;
        let dt: u128 = delta_ms as u128;
        assert(sp * dt <= 0xFFFF_FFFF_FFFF_FFFFu128 * 0xFFFF_FFFF_FFFF_FFFFu128) by (nonlinear_arith)
            requires sp <= 0xFFFF_FFFF_FFFF_FFFFu128, dt <= 0xFFFF_FFFF_FFFF_FFFFu128;
        let fits = (sp * dt) / 1000 <= u64::MAX as u128;
        let ok = point_in_range(Point2 { x: a.transform.loc.x, y: a.transform.loc.y }) && fits;
        if ok {
            let done = match &mut a.path {
                Some(mp) => step_entity(&mut a.transform, mp, &a.speed, delta_ms, &mut a.goal, area),
                None => false,
            };
            if done {
                a.path = None;
            }
        }
        i = i + 1;
    }
}

/// Agent `a` overlaps something in the cache: scanning its footprint, a
/// tile holding another entity comes before any tile off the grid.
pub open spec fn overlapping(cache: CollisionGridCache, a: AgentEntity) -> bool {
    a.transform.fits() && cache.overlaps_first(a.transform.footprint(), a.id)
}

/// For each agent, whether it overlaps an entity recorded in the cache. The
/// host decides what to do with an overlapping agent.
pub fn sys_handle_collisions(cache: &CollisionGridCache, agents: &Vec<AgentEntity>) -> (r: Vec<bool>)
    requires
        cache.wf(),
    ensures
        r@.len() == agents@.len(),
        forall|i: int| 0 <= i < r@.len() ==> #[trigger] r@[i] == overlapping(*cache, agents@[i]),
{
    let n = agents.len();
    let mut r: Vec<bool> = Vec::new();
    let mut i: usize = 0;
    while i < n
        invariant
            cache.wf(),
            n == agents@.len(),
            i <= n,
            r@.len() == i,
            forall|j: int| 0 <= j < i ==> #[trigger] r@[j] == overlapping(*cache, agents@[j]),
        decreases n - i,
    {
        let a = &agents[i];
        let hit = if transform_fits(&a.transform) {
            match cache.transform_collides_with(&a.transform, a.id) {
                Ok(Some(_)) => true,
                _ => false,
            }
        } else {
            false
        };
        r.push(hit);
        i = i + 1;
    }
    r
}

/// One tick took agent `a0` to `a2`: it was given a route (or not) and then
/// moved, over a grid covering `cache.grid.rect`.
pub open spec fn ticked(cache: CollisionGridCache, a0: AgentEntity, a2: AgentEntity, delta_ms: u64) -> bool {
    exists|mid: AgentEntity|
        assigned(cache, a0, mid) && advanced(mid, a2, delta_ms, cache.grid.rect)
}

/// The simulated world: the occupancy cache, the walls recorded in it, and
/// the agents moving among them.
pub struct World {
    pub cache: CollisionGridCache,
    pub obstacles: Vec<ObstacleEntity>,
    pub agents: Vec<AgentEntity>,
    /// The id the next spawned entity gets.
    pub next_id: u64,
}

/// Width and height of the local map, in tiles.
pub const LOCAL_MAP_WIDTH: u32 = 10;
pub const LOCAL_MAP_HEIGHT: u32 = 50;

/// Most agents that `spawn_mv_player_over_time` creates.
pub const MAX_SPAWNED_AGENTS: usize = 1000;

impl World {
    /// An empty world over the local map, its corner at the origin.
    pub fn new() -> (r: World)
        ensures
            r.cache.wf(),
            r.cache.grid.rect == (Rect2D {
                min: Tile { x: 0, y: 0 },
                max: Tile { x: LOCAL_MAP_WIDTH as i32, y: LOCAL_MAP_HEIGHT as i32 },
            }),
            r.cache.entities@ == Map::<u64, Rect2D>::empty(),
            r.obstacles@.len() == 0,
            r.agents@.len() == 0,
            r.next_id == 1,
    {
        assert(LOCAL_MAP_WIDTH * LOCAL_MAP_HEIGHT == 500) by (nonlinear_arith);
        World {
            cache: CollisionGridCache::new(
                Tile { x: 0, y: 0 },
                TileSize { x: LOCAL_MAP_WIDTH, y: LOCAL_MAP_HEIGHT },
            ),
            obstacles: Vec::new(),
            agents: Vec::new(),
            next_id: 1,
        }
    }
}

/// Adds a wall one tile wide and five tall whose lower-left tile is `(3, 0)`,
/// to be recorded in the cache on the next tick.
pub fn spawn_collider_walls(world: &mut World)
    requires
        old(world).next_id < u64::MAX,
    ensures
        final(world).obstacles@ == old(world).obstacles@.push(
            ObstacleEntity {
                id: EntityId(old(world).next_id),
                transform: Transform2D {
                    scale: TileSize { x: 1, y: 5 },
                    loc: Loc { x: 3000, y: 0, z: 0 },
                },
                moved: true,
            },
        ),
        final(world).next_id == old(world).next_id + 1,
        final(world).agents@ == old(world).agents@,
        final(world).cache == old(world).cache,
{
    let id = EntityId(world.next_id);
    world.obstacles.push(
        ObstacleEntity {
            id,
            transform: Transform2D {
                scale: TileSize { x: 1, y: 5 },
                loc: Loc { x: 3 * UNITS_PER_TILE, y: 0, z: 0 },
            },
            moved: true,
        },
    );
    world.next_id = world.next_id + 1;
}

/// The agent that `spawn_mv_player_over_time` adds: one tile at the origin,
/// five tiles per second, heading for the point one tile up.
pub open spec fn new_player(id: EntityId) -> AgentEntity {
    AgentEntity {
        id,
        transform: Transform2D { scale: TileSize { x: 1, y: 1 }, loc: Loc { x: 0, y: 0, z: 0 } },
        speed: Speed((5 * UNITS_PER_TILE) as u64),
        goal: GoalLoc(Some(Point2 { x: 0, y: UNITS_PER_TILE })),
        path: None,
    }
}

/// Each call adds a `new_player`, until `MAX_SPAWNED_AGENTS` have been made
/// (counted in `count`).
pub fn spawn_mv_player_over_time(world: &mut World, count: &mut usize)
    requires
        old(world).next_id < u64::MAX,
    ensures
        *old(count) >= MAX_SPAWNED_AGENTS ==> *final(count) == *old(count)
            && final(world).agents@ == old(world).agents@
            && final(world).next_id == old(world).next_id,
        *old(count) < MAX_SPAWNED_AGENTS ==> *final(count) == *old(count) + 1
            && final(world).next_id == old(world).next_id + 1
            && final(world).agents@ == old(world).agents@.push(new_player(EntityId(old(world).next_id))),
        final(world).obstacles@ == old(world).obstacles@,
        final(world).cache == old(world).cache,
{
    if *count >= MAX_SPAWNED_AGENTS {
        return;
    }
    *count = *count + 1;
    let id = EntityId(world.next_id);
    world.agents.push(
        AgentEntity {
            id,
            transform: Transform2D { scale: TileSize { x: 1, y: 1 }, loc: Loc { x: 0, y: 0, z: 0 } },
            speed: Speed(5 * UNITS_PER_TILE as u64),
            goal: GoalLoc(Some(Point2 { x: 0, y: UNITS_PER_TILE })),
            path: None,
        },
    );
    world.next_id = world.next_id + 1;
}

/// Advances the world by one tick of `delta_ms` milliseconds, in this order:
/// changed walls are recorded in the cache, agents with a goal are given a
/// route, agents with a route move along it. Returns, for each agent, whether
/// it overlaps a recorded entity afterwards.
pub fn tick(world: &mut World, delta_ms: u64) -> (r: Vec<bool>)
    requires
        old(world).cache.wf(),
    ensures
        final(world).cache.wf(),
        final(world).cache.grid.rect == old(world).cache.grid.rect,
        final(world).cache.entities@ == refreshed_entities(
            old(world).cache.entities@,
            old(world).obstacles@,
            old(world).obstacles@.len() as int,
        ),
        forall|t: Tile|
            #![trigger final(world).cache.grid.cell(t)]
            final(world).cache.grid.in_bounds(t) ==> final(world).cache.occupant(t)
                == refreshed_occupant(
                old(world).cache,
                old(world).obstacles@,
                old(world).obstacles@.len() as int,
                t,
            ),
        final(world).obstacles@.len() == old(world).obstacles@.len(),
        forall|i: int|
            0 <= i < final(world).obstacles@.len() ==> !(#[trigger] final(world).obstacles@[i]).moved,
        final(world).agents@.len() == old(world).agents@.len(),
        forall|i: int|
            0 <= i < final(world).agents@.len() ==> ticked(
                final(world).cache,
                old(world).agents@[i],
                #[trigger] final(world).agents@[i],
                delta_ms,
            ),
        r@.len() == final(world).agents@.len(),
        forall|i: int|
            0 <= i < r@.len() ==> #[trigger] r@[i] == overlapping(
                final(world).cache,
                final(world).agents@[i],
            ),
{
    sys_update_collision_cache(&mut world.cache, &mut world.obstacles);
    system_assign_optimal_path(&world.cache, &mut world.agents);
    let ghost mid = world.agents@;
    let area = *world.cache.grid.rect();
    system_move_on_optimal_path(&mut world.agents, delta_ms, &area);
    proof {
        assert forall|i: int| 0 <= i < world.agents@.len() implies ticked(
            world.cache,
            old(world).agents@[i],
            #[trigger] world.agents@[i],
            delta_ms,
        ) by {
            assert(assigned(world.cache, old(world).agents@[i], mid[i]));
            assert(advanced(mid[i], world.agents@[i], delta_ms, area));
        }
        assert forall|i: int| 0 <= i < world.obstacles@.len() implies !(
        #[trigger] world.obstacles@[i]).moved by {}
    }
    sys_handle_collisions(&world.cache, &world.agents)
}

} // verus!
