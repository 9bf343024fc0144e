use vstd::prelude::*;

use crate::arith::{floor_div, isqrt, isqrt_spec, MAX_COORD, UNITS_PER_TILE};
use crate::pathing::CollisionGridCache;
use crate::rect2d::{point_has_tile, tile_from_vec2, tile_of, tile_origin, tile_to_point, Point2, Rect2D, Tile};
use crate::search::{calc_optimal_path, is_route, orth_adjacent, reachable};
use crate::transform::Transform2D;

verus! {

/// An entity's speed, in fixed-point units per second.
#[derive(Clone, Copy, Debug, PartialEq, Eq, Structural)]
pub struct Speed(pub u64);

/// A position to move towards; cleared once a route to it has been assigned.
#[derive(Clone, Copy, Debug, PartialEq, Eq, Structural)]
pub struct GoalLoc(pub Option<Point2>);

/// A computed route: waypoint tiles from the goal back to the start, so the
/// next waypoint is the last one.
#[derive(Clone, Debug, PartialEq, Eq)]
pub struct MovePath {
    pub steps: Vec<Tile>,
}

/// Euclidean distance between two positions, rounded down, in fixed-point units.
pub open spec fn distance(a: Point2, b: Point2) -> nat {
    isqrt_spec(((a.x - b.x) * (a.x - b.x) + (a.y - b.y) * (a.y - b.y)) as nat)
}

/// One coordinate's share of a move of `budget` along a segment of length
/// `d` whose extent on that axis is `delta` (rounded toward zero).
pub open spec fn move_comp(delta: int, budget: nat, d: nat) -> int {
    if delta >= 0 {
        (delta * budget) / (d as int)
    } else {
        -((-delta * budget) / (d as int))
    }
}

/// `pos` moved `budget` units toward `wp`, which lies `d > budget` units away.
pub open spec fn step_toward(pos: Point2, wp: Point2, budget: nat, d: nat) -> Point2 {
    Point2 {
        x: (pos.x + move_comp(wp.x - pos.x, budget, d)) as i64,
        y: (pos.y + move_comp(wp.y - pos.y, budget, d)) as i64,
    }
}

/// One tick of movement: while the route is not empty, reach its next
/// waypoint if the budget allows (snapping onto it and paying the distance),
/// else move the whole remaining budget toward it and stop. The result is the
/// new position, the route left, and whether the route ran out (a new goal is
/// then needed).
pub open spec fn advance(pos: Point2, steps: Seq<Tile>, budget: nat) -> (Point2, Seq<Tile>, bool)
    decreases steps.len(),
{
    if steps.len() == 0 {
        (pos, steps, true)
    } else {
        let wp = tile_origin(steps.last());
        let d = distance(pos, wp);
        if d <= budget {
            advance(wp, steps.drop_last(), (budget - d) as nat)
        } else {
            (step_toward(pos, wp, budget, d), steps, false)
        }
    }
}

/// The distance a `speed` covers in `delta_ms` milliseconds, rounded down.
pub open spec fn budget_for(speed: Speed, delta_ms: u64) -> nat {
    ((speed.0 * delta_ms) / 1000) as nat
}

/// Euclidean distance between two positions, rounded down.
pub fn dist(a: Point2, b: Point2) -> (r: u128)
    requires
        a.in_range(),
        b.in_range(),
    ensures
        r == distance(a, b),
{
    let dx: i128 = a.x as i128 - b.x as i128;
    let dy: i128 = a.y as i128 - b.y as i128;
    let ax: u128 = if dx >= 0 { dx as u128 } else { (-dx) as u128 };
    let ay: u128 = if dy >= 0 { dy as u128 } else { (-dy) as u128 };
    assert(ax * ax <= 0x40_0000_0000_0000_0000_0000_0000) by (nonlinear_arith)
        requires ax <= 0x8_0000_0000_0000;
    assert(ay * ay <= 0x40_0000_0000_0000_0000_0000_0000) by (nonlinear_arith)
        requires ay <= 0x8_0000_0000_0000;
    let sq: u128 = ax * ax + ay * ay;
    assert(sq == (a.x - b.x) * (a.x - b.x) + (a.y - b.y) * (a.y - b.y)) by (nonlinear_arith)
        requires
            ax == dx || ax == -dx,
            ay == dy || ay == -dy,
            dx == a.x - b.x,
            dy == a.y - b.y,
            sq == ax * ax + ay * ay,
    ;
    isqrt(sq)
}

/// `delta * budget / d`, rounded toward zero, for `budget < d`.
fn scaled_comp(delta: i64, budget: u64, d: u128) -> (r: i64)
    requires
        -2 * MAX_COORD <= delta <= 2 * MAX_COORD,
        (budget as nat) < d,
    ensures
        r == move_comp(delta as int, budget as nat, d as nat),
        delta >= 0 ==> 0 <= r <= delta,
        delta < 0 ==> delta <= r <= 0,
{
    let a: u128 = if delta >= 0 { delta as u128 } else { (-delta) as u128 };
    assert(a * (budget as u128) <= a * d) by (nonlinear_arith)
        requires budget < d, a >= 0;
    assert(a * (budget as u128) <= 0x10_0000_0000_0000 * 0x1_0000_0000_0000_0000) by (nonlinear_arith)
        requires a <= 0x10_0000_0000_0000, budget <= 0xFFFF_FFFF_FFFF_FFFF;
    let q: u128 = a * (budget as u128) / d;
    proof {
        let ab: int = a as int * budget as int;
        assert(ab == a * (budget as u128));
        assert(ab / (d as int) <= a as int) by (nonlinear_arith)
            requires ab <= a * d, d > 0, a >= 0;
    }
    if delta >= 0 {
        q as i64
    } else {
        -(q as i64)
    }
}

/// Advances `transform` along `path` by a travel budget of `budget` units:
/// while the route is not empty, a waypoint within reach is snapped onto and
/// popped and its distance paid; otherwise the whole remaining budget is
/// spent moving straight toward it. Returns `true` when the route has run out,
/// meaning a new goal is needed.
pub fn move_on_optimal_path(transform: &mut Transform2D, path: &mut MovePath, budget: u64) -> (r: bool)
    requires
        old(transform).loc.xy().in_range(),
    ensures
        (final(transform).loc.xy(), final(path).steps@, r) == advance(
            old(transform).loc.xy(),
            old(path).steps@,
            budget as nat,
        ),
        final(transform).loc.z == old(transform).loc.z,
        final(transform).scale == old(transform).scale,
        final(transform).loc.xy().in_range(),
{
    let ghost goal = advance(transform.loc.xy(), path.steps@, budget as nat);
    let mut travel: u64 = budget;
    loop
        invariant
            transform.loc.xy().in_range(),
            advance(transform.loc.xy(), path.steps@, travel as nat) == goal,
            goal == advance(old(transform).loc.xy(), old(path).steps@, budget as nat),
            transform.loc.z == old(transform).loc.z,
            transform.scale == old(transform).scale,
        decreases path.steps@.len(),
    {
        let n = path.steps.len();
        if n == 0 {
            assert(advance(transform.loc.xy(), path.steps@, travel as nat) == (
                transform.loc.xy(),
                path.steps@,
                true,
            ));
            return true;
        }
        let next = path.steps[n - 1];
        let wp = tile_to_point(next);
        let pos = Point2 { x: transform.loc.x, y: transform.loc.y };
        assert(wp.in_range()) by (nonlinear_arith)
            requires wp.x == next.x * 1000, wp.y == next.y * 1000, -0x8000_0000 <= next.x
                < 0x8000_0000, -0x8000_0000 <= next.y < 0x8000_0000;
        let d = dist(pos, wp);
        if d <= travel as u128 {
            travel = travel - d as u64;
            transform.loc.x = wp.x;
            transform.loc.y = wp.y;
            path.steps.pop();
        } else {
            let mx = scaled_comp(wp.x - pos.x, travel, d);
            let my = scaled_comp(wp.y - pos.y, travel, d);
            transform.loc.x = pos.x + mx;
            transform.loc.y = pos.y + my;
            assert(transform.loc.xy() == step_toward(pos, wp, travel as nat, d as nat));
            assert(advance(pos, path.steps@, travel as nat) == (
                step_toward(pos, wp, travel as nat, d as nat),
                path.steps@,
                false,
            ));
            return false;
        }
    }
}

/// The distance that `speed` covers in `delta_ms` milliseconds, rounded down.
pub fn travel_budget(speed: &Speed, delta_ms: u64) -> (r: u64)
    requires
        budget_for(*speed, delta_ms) <= u64::MAX,
    ensures
        r == budget_for(*speed, delta_ms),
{
    let prod: u128 = speed.0 as u128 * delta_ms as u128;
    (prod / 1000) as u64
}

/// Relies on `fastrand::i64`: a value drawn uniformly from `lo..hi` (it
/// panics only when the range is empty).
#[verifier::external_body]
fn random_coord(lo: i64, hi: i64) -> (r: i64)
    requires
        lo < hi,
    ensures
        lo <= r < hi,
{
    fastrand::i64(lo..hi)
}

/// A random position on the tiles of `area`.
pub fn random_point_on_local_map(area: &Rect2D) -> (r: Point2)
    requires
        !area.is_empty_spec(),
    ensures
        point_has_tile(r),
        area.has_tile(tile_of(r)),
        r.in_range(),
{
    let lo_x: i64 = area.min.x as i64 * UNITS_PER_TILE;
    let hi_x: i64 = area.max.x as i64 * UNITS_PER_TILE;
    let lo_y: i64 = area.min.y as i64 * UNITS_PER_TILE;
    let hi_y: i64 = area.max.y as i64 * UNITS_PER_TILE;
    let x = random_coord(lo_x, hi_x);
    let y = random_coord(lo_y, hi_y);
    proof {
        lemma_floor_in_tiles(area.min.x as int, area.max.x as int, x as int);
        lemma_floor_in_tiles(area.min.y as int, area.max.y as int, y as int);
    }
    Point2 { x, y }
}

/// A coordinate in `[lo * UNITS_PER_TILE, hi * UNITS_PER_TILE)` lies on a
/// tile of `[lo, hi)`.
proof fn lemma_floor_in_tiles(lo: int, hi: int, v: int)
    requires
        lo * 1000 <= v < hi * 1000,
    ensures
        lo <= floor_div(v, 1000) < hi,
{
    assert(lo <= v / 1000 < hi) by (nonlinear_arith)
        requires lo * 1000 <= v < hi * 1000;
}

/// The search owes a route from the tile under `transform` to `goal`: the
/// goal is that tile and lies on the grid, or a walk over free tiles of the
/// grid leads to it.
pub open spec fn route_owed(cache: CollisionGridCache, transform: Transform2D, goal: Tile) -> bool {
    if goal == transform.tile_spec() {
        cache.grid.in_bounds(goal)
    } else {
        reachable(cache, transform.scale, transform.tile_spec(), goal)
    }
}

/// Turns a pending goal into a route. With no goal nothing happens. When the
/// search finds a route from the entity's tile to the goal's tile, the goal is
/// cleared and the route returned; that happens exactly when `route_owed`.
/// Otherwise a new random goal on the cache's grid replaces it (none when the
/// grid has no tile), for a retry.
pub fn assign_optimal_path(cache: &CollisionGridCache, transform: &Transform2D, goal: &mut GoalLoc) -> (r: Option<MovePath>)
    requires
        cache.wf(),
        point_has_tile(transform.loc.xy()),
        old(goal).0 matches Some(p) ==> point_has_tile(p),
    ensures
        old(goal).0 is None ==> r is None && *final(goal) == *old(goal),
        old(goal).0 matches Some(p) ==> match r {
            Some(mp) => {
                &&& is_route(*cache, transform.scale, transform.tile_spec(), tile_of(p), mp.steps@)
                &&& final(goal).0 is None
            },
            None => {
                &&& (cache.grid.rect.is_empty_spec() ==> final(goal).0 is None)
                &&& (!cache.grid.rect.is_empty_spec() ==> (final(goal).0 matches Some(q)
                    && cache.grid.rect.has_tile(tile_of(q))))
            },
        },
        old(goal).0 matches Some(p) ==> (r is Some <==> route_owed(*cache, *transform, tile_of(p))),
        old(goal).0 matches Some(p) ==> (tile_of(p) != transform.tile_spec() && orth_adjacent(
            transform.tile_spec(),
            tile_of(p),
        ) && cache.grid.in_bounds(transform.tile_spec()) && cache.grid.in_bounds(tile_of(p))
            && cache.free_at(tile_of(p), transform.scale) ==> (r matches Some(mp) && mp.steps@
            == seq![tile_of(p), transform.tile_spec()])),
        old(goal).0 matches Some(p) ==> (tile_of(p) != transform.tile_spec() && !cache.free_at(
            tile_of(p),
            transform.scale,
        ) ==> r is None),
{
    let target = match goal.0 {
        Some(p) => p,
        None => return None,
    };
    let goal_tile = tile_from_vec2(target);
    match calc_optimal_path(cache, transform, goal_tile) {
        Some(steps) => {
            goal.0 = None;
            Some(MovePath { steps })
        },
        None => {
            let area = cache.grid.rect();
            if area.is_empty() {
                goal.0 = None;
            } else {
                goal.0 = Some(random_point_on_local_map(area));
            }
            None
        },
    }
}

/// One tick of movement for an entity: spends `speed` over `delta_ms`
/// milliseconds along `path` (see `move_on_optimal_path`). When the route has
/// run out, a new random goal on `area` is requested (none when `area` has no
/// tile). Returns whether the route ran out.
pub fn step_entity(
    transform: &mut Transform2D,
    path: &mut MovePath,
    speed: &Speed,
    delta_ms: u64,
    goal: &mut GoalLoc,
    area: &Rect2D,
) -> (r: bool)
    requires
        old(transform).loc.xy().in_range(),
        budget_for(*speed, delta_ms) <= u64::MAX,
    ensures
        (final(transform).loc.xy(), final(path).steps@, r) == advance(
            old(transform).loc.xy(),
            old(path).steps@,
            budget_for(*speed, delta_ms),
        ),
        final(transform).loc.z == old(transform).loc.z,
        final(transform).scale == old(transform).scale,
        !r ==> *final(goal) == *old(goal),
        r && !area.is_empty_spec() ==> (final(goal).0 matches Some(q) && area.has_tile(tile_of(q))),
        r && area.is_empty_spec() ==> *final(goal) == *old(goal),
{
    let budget = travel_budget(speed, delta_ms);
    let done = move_on_optimal_path(transform, path, budget);
    if done && !area.is_empty() {
        goal.0 = Some(random_point_on_local_map(area));
    }
    done
}

} // verus!
