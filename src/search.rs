use vstd::prelude::*;

use crate::arith::{is_isqrt, isqrt, isqrt_spec};
use crate::grid::Grid2D;
use crate::pathing::CollisionGridCache;
use crate::rect2d::{fits_i32, point_has_tile, Tile, TileSize};
use crate::transform::Transform2D;

verus! {

/// Cost of a step to an orthogonal neighbour, in tenths of a tile.
pub const ORTHOGONAL_COST: u128 = 10;

/// Cost of a step to a diagonal neighbour, in tenths of a tile (about the
/// square root of two).
pub const DIAGONAL_COST: u128 = 14;

/// What the search knows of a tile.
#[derive(Clone, Copy, Debug, PartialEq, Eq, Structural)]
pub enum SearchCell {
    /// Not looked at yet.
    Unseen,
    /// An entity placed there would collide, or would stand off the grid.
    Blocked,
    /// Reached with this cost from the start, in tenths of a tile.
    Reached(u128),
}

/// A frontier entry: estimated total cost `f = g + h` and the tile.
#[derive(Clone, Copy, Debug, PartialEq, Eq, Structural)]
pub struct FunctionalTuple(pub u128, pub Tile);

/// Entry `a` is taken from the frontier before entry `b`: lower estimate
/// first, ties broken by the tile's coordinates.
pub open spec fn frontier_le(a: FunctionalTuple, b: FunctionalTuple) -> bool {
    a.0 < b.0 || (a.0 == b.0 && (a.1.x < b.1.x || (a.1.x == b.1.x && a.1.y <= b.1.y)))
}

/// Squared Euclidean distance between two tiles, scaled to tenths of a tile.
pub open spec fn sq_dist_tenths(a: Tile, b: Tile) -> nat {
    (100 * ((a.x - b.x) * (a.x - b.x) + (a.y - b.y) * (a.y - b.y))) as nat
}

/// The two tiles share an edge.
pub open spec fn orth_adjacent(a: Tile, b: Tile) -> bool {
    (a.x == b.x && (a.y - b.y == 1 || b.y - a.y == 1)) || (a.y == b.y && (a.x - b.x == 1 || b.x
        - a.x == 1))
}

/// The two tiles are distinct and share an edge or a corner.
pub open spec fn adjacent8(a: Tile, b: Tile) -> bool {
    a != b && -1 <= a.x - b.x <= 1 && -1 <= a.y - b.y <= 1
}

/// `walk` leads from `start` to `goal` over tiles of the grid, each step to a
/// tile sharing an edge or a corner, and an entity of `scale` tiles could
/// stand on every tile after the start.
pub open spec fn is_walk(
    cache: CollisionGridCache,
    scale: TileSize,
    start: Tile,
    goal: Tile,
    walk: Seq<Tile>,
) -> bool {
    &&& walk.len() >= 1
    &&& walk[0] == start
    &&& walk.last() == goal
    &&& forall|i: int| 0 <= i < walk.len() ==> cache.grid.in_bounds(#[trigger] walk[i])
    &&& forall|i: int| 0 <= i < walk.len() - 1 ==> #[trigger] adjacent8(walk[i], walk[i + 1])
    &&& forall|i: int| 1 <= i < walk.len() ==> cache.free_at(#[trigger] walk[i], scale)
}

/// Some walk leads from `start` to `goal` (see `is_walk`).
pub open spec fn reachable(cache: CollisionGridCache, scale: TileSize, start: Tile, goal: Tile) -> bool {
    exists|walk: Seq<Tile>| is_walk(cache, scale, start, goal, walk)
}

/// Sum of the step costs along `path`.
pub open spec fn route_cost(path: Seq<Tile>) -> int
    decreases path.len(),
{
    if path.len() < 2 {
        0
    } else {
        route_cost(path.drop_last()) + step_cost(path[path.len() - 2], path.last())
    }
}

/// The cost of a step from `a` to its neighbour `b`.
pub open spec fn step_cost(a: Tile, b: Tile) -> u128 {
    if orth_adjacent(a, b) {
        ORTHOGONAL_COST
    } else {
        DIAGONAL_COST
    }
}

/// The number of `Unseen` cells.
pub open spec fn count_unseen(s: Seq<SearchCell>) -> nat
    decreases s.len(),
{
    if s.len() == 0 {
        0
    } else {
        count_unseen(s.drop_last()) + if s.last() is Unseen {
            1nat
        } else {
            0nat
        }
    }
}

proof fn lemma_count_unseen_bound(s: Seq<SearchCell>)
    ensures
        count_unseen(s) <= s.len(),
    decreases s.len(),
{
    if s.len() > 0 {
        lemma_count_unseen_bound(s.drop_last());
    }
}

proof fn lemma_count_unseen_update(s: Seq<SearchCell>, i: int, v: SearchCell)
    requires
        0 <= i < s.len(),
    ensures
        count_unseen(s.update(i, v)) + (if s[i] is Unseen {
            1int
        } else {
            0int
        }) == count_unseen(s) + (if v is Unseen {
            1int
        } else {
            0int
        }),
    decreases s.len(),
{
    let u = s.update(i, v);
    if i == s.len() - 1 {
        assert(u.drop_last() =~= s.drop_last());
    } else {
        assert(u.drop_last() =~= s.drop_last().update(i, v));
        lemma_count_unseen_update(s.drop_last(), i, v);
    }
}

proof fn lemma_grows_trans(a: AStar2DSearchState, b: AStar2DSearchState, c: AStar2DSearchState)
    requires
        a.grows_to(b),
        b.grows_to(c),
    ensures
        a.grows_to(c),
{
    assert forall|q: Tile|
        #![trigger c.calculated.cell(q)]
        a.calculated.in_bounds(q) && a.calculated.cell(q) is Unseen && c.calculated.cell(q) is Reached
            implies c.queued(q) by {
        if !(b.calculated.cell(q) is Unseen) {
            assert(b.queued(q));
            let i = choose|i: int| 0 <= i < b.to_explore@.len() && (#[trigger] b.to_explore@[i]).1 == q;
            assert(c.to_explore@[i] == b.to_explore@[i]);
        }
    }
}

/// One neighbour looked at: the frontier grows by that neighbour's entry,
/// which is the one it had before the earlier neighbours were looked at.
proof fn lemma_frontier_step(
    s0: AStar2DSearchState,
    a: AStar2DSearchState,
    b: AStar2DSearchState,
    cache: CollisionGridCache,
    scale: TileSize,
    node: Tile,
    dx: int,
    dy: int,
    goal: Tile,
    c: u128,
    acc: Seq<FunctionalTuple>,
)
    requires
        a.to_explore@ == s0.to_explore@ + acc,
        b.to_explore@ == a.to_explore@ + a.entry_at_offset(cache, scale, node, dx, dy, goal, c),
        a.calculated.rect == s0.calculated.rect,
        fits_i32(node.x + dx) && fits_i32(node.y + dy) && s0.calculated.in_bounds(
            Tile { x: (node.x + dx) as i32, y: (node.y + dy) as i32 },
        ) ==> a.calculated.cell(Tile { x: (node.x + dx) as i32, y: (node.y + dy) as i32 })
            == s0.calculated.cell(Tile { x: (node.x + dx) as i32, y: (node.y + dy) as i32 }),
    ensures
        b.to_explore@ == s0.to_explore@ + (acc + s0.entry_at_offset(cache, scale, node, dx, dy, goal, c)),
{
    assert(a.entry_at_offset(cache, scale, node, dx, dy, goal, c) == s0.entry_at_offset(
        cache,
        scale,
        node,
        dx,
        dy,
        goal,
        c,
    ));
    assert(b.to_explore@ =~= s0.to_explore@ + (acc + s0.entry_at_offset(cache, scale, node, dx, dy, goal, c)));
}

/// `floor(10 * euclidean_distance(a, b))`: the search's estimate of the cost
/// left from `a` to `b`, in tenths of a tile.
pub fn heuristic(a: Tile, b: Tile) -> (r: u128)
    ensures
        is_isqrt(sq_dist_tenths(a, b), r as nat),
        r == isqrt_spec(sq_dist_tenths(a, b)),
{
    let dx: i64 = a.x as i64 - b.x as i64;
    let dy: i64 = a.y as i64 - b.y as i64;
    let ax: u128 = if dx >= 0 { dx as u128 } else { (-dx) as u128 };
    let ay: u128 = if dy >= 0 { dy as u128 } else { (-dy) as u128 };
    assert(ax * ax <= 0x1_0000_0000_0000_0000) by (nonlinear_arith)
        requires ax <= 0x1_0000_0000;
    assert(ay * ay <= 0x1_0000_0000_0000_0000) by (nonlinear_arith)
        requires ay <= 0x1_0000_0000;
    let sq: u128 = 100 * (ax * ax + ay * ay);
    assert(sq == sq_dist_tenths(a, b)) by (nonlinear_arith)
        requires
            ax == dx || ax == -dx,
            ay == dy || ay == -dy,
            dx == a.x - b.x,
            dy == a.y - b.y,
            sq == 100 * (ax * ax + ay * ay),
    ;
    isqrt(sq)
}

/// `path` leads from `goal` back to `start` (travel order is from the end):
/// it begins at `goal`, ends at `start`, each step goes to a tile sharing an
/// edge or a corner, and an entity of `scale` tiles could stand on every tile but
/// the start.
pub open spec fn is_route(
    cache: CollisionGridCache,
    scale: TileSize,
    start: Tile,
    goal: Tile,
    path: Seq<Tile>,
) -> bool {
    &&& path.len() >= 1
    &&& path[0] == goal
    &&& path.last() == start
    &&& forall|i: int| 0 <= i < path.len() - 1 ==> #[trigger] adjacent8(path[i], path[i + 1])
    &&& forall|i: int| 0 <= i < path.len() - 1 ==> cache.free_at(#[trigger] path[i], scale)
}

/// No tile sharing an edge or a corner with `goal` is the start or a tile
/// an entity of `scale` tiles could stand on.
pub open spec fn enclosed(cache: CollisionGridCache, scale: TileSize, start: Tile, goal: Tile) -> bool {
    forall|n: Tile| #[trigger] adjacent8(goal, n) ==> n != start && !cache.free_at(n, scale)
}

/// A route between distinct tiles leaves the goal through a neighbour that is
/// the start or free, so an enclosed goal has none.
proof fn lemma_route_leaves_goal(
    cache: CollisionGridCache,
    scale: TileSize,
    start: Tile,
    goal: Tile,
    path: Seq<Tile>,
)
    requires
        is_route(cache, scale, start, goal, path),
        goal != start,
    ensures
        !enclosed(cache, scale, start, goal),
        cache.free_at(goal, scale),
{
    assert(path.len() >= 2);
    let z: int = 0;
    assert(adjacent8(path[z], path[z + 1]));
    if path.len() > 2 {
        assert(cache.free_at(path[1], scale));
    }
    assert(cache.free_at(path[0], scale));
}

/// The tile at offset `(dx, dy)` from `t`, when it is representable.
fn neighbor(t: Tile, dx: i32, dy: i32) -> (r: Option<Tile>)
    requires
        -1 <= dx <= 1,
        -1 <= dy <= 1,
    ensures
        r is Some <==> fits_i32(t.x + dx) && fits_i32(t.y + dy),
        r matches Some(n) ==> n.x == t.x + dx && n.y == t.y + dy,
{
    let x = t.x as i64 + dx as i64;
    let y = t.y as i64 + dy as i64;
    if x < i32::MIN as i64 || x > i32::MAX as i64 || y < i32::MIN as i64 || y > i32::MAX as i64 {
        None
    } else {
        Some(Tile { x: x as i32, y: y as i32 })
    }
}

/// The state of one A* search: the cost table over the cache's tiles and the
/// frontier of tiles still to expand.
pub struct AStar2DSearchState {
    pub calculated: Grid2D<SearchCell>,
    pub to_explore: Vec<FunctionalTuple>,
}

impl AStar2DSearchState {
    pub open spec fn unseen(&self) -> nat {
        count_unseen(self.calculated.data@)
    }

    /// Number of tiles looked at so far.
    pub open spec fn seen(&self) -> int {
        self.calculated.data@.len() - self.unseen()
    }

    /// Falls with every tile looked at and every entry taken from the frontier.
    pub open spec fn measure(&self) -> nat {
        2 * self.unseen() + self.to_explore@.len()
    }

    /// Reached tiles are the start or free; costs stay below a bound that
    /// grows with the tiles seen; every frontier entry names a reached tile.
    pub open spec fn wf(&self, cache: CollisionGridCache, scale: TileSize, start: Tile) -> bool {
        &&& self.calculated.wf()
        &&& self.calculated.rect == cache.grid.rect
        &&& forall|t: Tile|
            #![trigger self.calculated.cell(t)]
            self.calculated.in_bounds(t) && self.calculated.cell(t) is Reached ==> (t == start
                || cache.free_at(t, scale)) && self.calculated.cell(t)->Reached_0 <= DIAGONAL_COST
                * self.seen()
        &&& forall|i: int|
            #![trigger self.to_explore@[i]]
            0 <= i < self.to_explore@.len() ==> self.calculated.in_bounds(self.to_explore@[i].1)
                && self.calculated.cell(self.to_explore@[i].1) is Reached
        &&& forall|t: Tile|
            #![trigger self.calculated.cell(t)]
            self.calculated.in_bounds(t) && self.calculated.cell(t) is Blocked ==> !cache.free_at(
                t,
                scale,
            )
        &&& forall|t: Tile|
            #![trigger self.has_parent(t)]
            self.calculated.in_bounds(t) && self.calculated.cell(t) is Reached && t != start
                ==> self.has_parent(t)
    }

    /// The frontier entry that looking at `p` with cost `cost` adds: one entry,
    /// estimate `cost` plus the heuristic toward `goal`, when `p` is on the grid,
    /// not looked at yet, and free; none otherwise.
    pub open spec fn entry_at(
        &self,
        cache: CollisionGridCache,
        scale: TileSize,
        p: Tile,
        goal: Tile,
        cost: u128,
    ) -> Seq<FunctionalTuple> {
        if self.calculated.in_bounds(p) && self.calculated.cell(p) is Unseen && cache.free_at(
            p,
            scale,
        ) {
            seq![FunctionalTuple((cost + isqrt_spec(sq_dist_tenths(p, goal))) as u128, p)]
        } else {
            Seq::empty()
        }
    }

    /// `entry_at` for the neighbour of `node` at offset `(dx, dy)`, when that
    /// neighbour is representable.
    pub open spec fn entry_at_offset(
        &self,
        cache: CollisionGridCache,
        scale: TileSize,
        node: Tile,
        dx: int,
        dy: int,
        goal: Tile,
        cost: u128,
    ) -> Seq<FunctionalTuple> {
        if fits_i32(node.x + dx) && fits_i32(node.y + dy) {
            self.entry_at(
                cache,
                scale,
                Tile { x: (node.x + dx) as i32, y: (node.y + dy) as i32 },
                goal,
                cost,
            )
        } else {
            Seq::empty()
        }
    }

    /// The frontier entries that looking at the neighbours of `node` (reached
    /// with cost `cost`) adds, in the order left, right, up, down, up-left,
    /// up-right, down-left, down-right: one per neighbour on the grid, not
    /// looked at yet and free, with the step cost of its direction.
    #[verifier::opaque]
    pub open spec fn entries_around(
        &self,
        cache: CollisionGridCache,
        scale: TileSize,
        node: Tile,
        goal: Tile,
        cost: u128,
    ) -> Seq<FunctionalTuple> {
        self.entry_at_offset(cache, scale, node, -1, 0, goal, (cost + ORTHOGONAL_COST) as u128) + self.entry_at_offset(cache, scale, node, 1, 0, goal, (cost + ORTHOGONAL_COST) as u128) + self.entry_at_offset(cache, scale, node, 0, 1, goal, (cost + ORTHOGONAL_COST) as u128) + self.entry_at_offset(cache, scale, node, 0, -1, goal, (cost + ORTHOGONAL_COST) as u128) + self.entry_at_offset(cache, scale, node, -1, 1, goal, (cost + DIAGONAL_COST) as u128) + self.entry_at_offset(cache, scale, node, 1, 1, goal, (cost + DIAGONAL_COST) as u128) + self.entry_at_offset(cache, scale, node, -1, -1, goal, (cost + DIAGONAL_COST) as u128) + self.entry_at_offset(cache, scale, node, 1, -1, goal, (cost + DIAGONAL_COST) as u128)
    }

    /// Some tile `m` sharing an edge or a corner with `t` is reached, and its
    /// cost plus the step from `m` to `t` is `t`'s cost (the tile `t` was
    /// reached from).
    pub open spec fn has_parent(&self, t: Tile) -> bool {
        exists|m: Tile|
            #![trigger self.calculated.cell(m)]
            adjacent8(t, m) && self.calculated.in_bounds(m) && self.calculated.cell(m) is Reached
                && self.calculated.cell(m)->Reached_0 + step_cost(m, t)
                == self.calculated.cell(t)->Reached_0
    }

    /// Tile `t` has an entry in the frontier.
    pub open spec fn queued(&self, t: Tile) -> bool {
        exists|i: int| 0 <= i < self.to_explore@.len() && (#[trigger] self.to_explore@[i]).1 == t
    }

    /// Every tile of the grid that shares an edge or a corner with `t` has
    /// been looked at.
    pub open spec fn closed(&self, t: Tile) -> bool {
        forall|n: Tile|
            #![trigger self.calculated.cell(n)]
            adjacent8(t, n) && self.calculated.in_bounds(n) ==> !(self.calculated.cell(n) is Unseen)
    }

    /// `next` follows from `self` by looking at tiles: what was looked at
    /// keeps its state, frontier entries stay, and each newly reached tile is
    /// queued.
    pub open spec fn grows_to(&self, next: AStar2DSearchState) -> bool {
        &&& next.calculated.rect == self.calculated.rect
        &&& forall|q: Tile|
            #![trigger next.calculated.cell(q)]
            self.calculated.in_bounds(q) && !(self.calculated.cell(q) is Unseen)
                ==> next.calculated.cell(q) == self.calculated.cell(q)
        &&& next.to_explore@.len() >= self.to_explore@.len()
        &&& forall|i: int|
            0 <= i < self.to_explore@.len() ==> #[trigger] next.to_explore@[i] == self.to_explore@[i]
        &&& forall|q: Tile|
            #![trigger next.calculated.cell(q)]
            self.calculated.in_bounds(q) && self.calculated.cell(q) is Unseen
                && next.calculated.cell(q) is Reached ==> next.queued(q)
    }

    /// The start holds cost zero and every other reached tile at least one
    /// orthogonal step; each frontier entry is a tile other than the start,
    /// with estimate its recorded cost plus the heuristic toward `goal`.
    pub open spec fn aligned(&self, start: Tile, goal: Tile) -> bool {
        &&& self.calculated.in_bounds(start)
        &&& self.calculated.cell(start) == SearchCell::Reached(0)
        &&& forall|t: Tile|
            #![trigger self.calculated.cell(t)]
            self.calculated.in_bounds(t) && self.calculated.cell(t) is Reached && t != start
                ==> self.calculated.cell(t)->Reached_0 >= ORTHOGONAL_COST
        &&& forall|i: int|
            #![trigger self.to_explore@[i]]
            0 <= i < self.to_explore@.len() ==> self.to_explore@[i].1 != start
                && self.to_explore@[i].0 >= self.calculated.cell(self.to_explore@[i].1)->Reached_0
                && is_isqrt(
                sq_dist_tenths(self.to_explore@[i].1, goal),
                (self.to_explore@[i].0 - self.calculated.cell(self.to_explore@[i].1)->Reached_0) as nat,
            )
    }

    /// A search seeded with `start` at cost zero; `None` when `start` is off
    /// the grid.
    fn new(
        cache: &CollisionGridCache,
        start: Tile,
        Ghost(scale): Ghost<TileSize>,
        Ghost(goal): Ghost<Tile>,
    ) -> (r: Option<AStar2DSearchState>)
        requires
            cache.wf(),
        ensures
            r is None <==> !cache.grid.in_bounds(start),
            r matches Some(s) ==> s.wf(*cache, scale, start) && s.aligned(start, goal)
                && s.to_explore@.len() == 0 && forall|t: Tile|
                #![trigger s.calculated.cell(t)]
                s.calculated.in_bounds(t) && t != start ==> s.calculated.cell(t)
                    == SearchCell::Unseen,
    {
        let rect = cache.grid.rect();
        assert(cache.grid.data@.len() == cache.grid.data.len());
        let w: u32 = (rect.max.x as i64 - rect.min.x as i64) as u32;
        let h: u32 = (rect.max.y as i64 - rect.min.y as i64) as u32;
        let mut calculated = Grid2D::new(rect.min, TileSize { x: w, y: h }, SearchCell::Unseen);
        assert(calculated.rect == cache.grid.rect);
        let ghost g0 = calculated;
        match calculated.set(start, SearchCell::Reached(0)) {
            Err(_) => None,
            Ok(()) => {
                let s = AStar2DSearchState { calculated, to_explore: Vec::new() };
                proof {
                    lemma_count_unseen_bound(s.calculated.data@);
                    assert forall|t: Tile|
                        #![trigger s.calculated.cell(t)]
                        s.calculated.in_bounds(t) && s.calculated.cell(t) is Reached implies t
                            == start && s.calculated.cell(t)->Reached_0 <= DIAGONAL_COST * s.seen() by {
                        assert(g0.in_bounds(t));
                    }
                    assert forall|t: Tile|
                        #![trigger s.calculated.cell(t)]
                        s.calculated.in_bounds(t) && t != start implies s.calculated.cell(t)
                            == SearchCell::Unseen by {
                        assert(g0.in_bounds(t));
                    }
                }
                Some(s)
            },
        }
    }

    /// Looks at tile `p`, reached with cost `cost`. A tile that was already
    /// looked at, or is off the grid, is left alone. If an entity shaped like
    /// `obj` could not stand on `p` (it would collide, or leave the grid) the
    /// tile is marked blocked and not explored; otherwise it is recorded with
    /// `cost` and queued with estimate `cost + heuristic(p, goal)`.
    fn explore_point(
        &mut self,
        cache: &CollisionGridCache,
        obj: &Transform2D,
        p: Tile,
        goal: Tile,
        cost: u128,
        Ghost(start): Ghost<Tile>,
        Ghost(from): Ghost<Tile>,
    )
        requires
            cache.wf(),
            old(self).wf(*cache, obj.scale, start),
            old(self).aligned(start, goal),
            ORTHOGONAL_COST <= cost <= DIAGONAL_COST * old(self).seen() + DIAGONAL_COST,
            adjacent8(p, from),
            old(self).calculated.in_bounds(from),
            old(self).calculated.cell(from) is Reached,
            old(self).calculated.cell(from)->Reached_0 + step_cost(from, p) == cost,
        ensures
            final(self).wf(*cache, obj.scale, start),
            final(self).aligned(start, goal),
            final(self).measure() <= old(self).measure(),
            final(self).seen() >= old(self).seen(),
            final(self).calculated.rect == old(self).calculated.rect,
            old(self).calculated.in_bounds(p) && old(self).calculated.cell(p) is Unseen
                && !cache.free_at(p, obj.scale) ==> final(self).calculated.cell(p)
                == SearchCell::Blocked,
            forall|q: Tile|
                #![trigger final(self).calculated.cell(q)]
                final(self).calculated.in_bounds(q) && q != p ==> final(self).calculated.cell(q)
                    == old(self).calculated.cell(q),
            final(self).to_explore@.len() >= old(self).to_explore@.len(),
            forall|i: int|
                0 <= i < old(self).to_explore@.len() ==> #[trigger] final(self).to_explore@[i]
                    == old(self).to_explore@[i],
            old(self).calculated.in_bounds(p) && old(self).calculated.cell(p) is Unseen
                && cache.free_at(p, obj.scale) ==> {
                &&& final(self).calculated.cell(p) == SearchCell::Reached(cost)
                &&& exists|i: int|
                    0 <= i < final(self).to_explore@.len() && (#[trigger] final(self).to_explore@[i]).1 == p
            },
            old(self).grows_to(*final(self)),
            old(self).calculated.in_bounds(p) ==> !(final(self).calculated.cell(p) is Unseen),
            final(self).to_explore@ == old(self).to_explore@ + old(self).entry_at(
                *cache,
                obj.scale,
                p,
                goal,
                cost,
            ),
    {
        let ghost s0 = *self;
        assert(self.calculated.data@.len() == self.calculated.data.len());
        let fresh = match self.calculated.get(p) {
            Ok(SearchCell::Unseen) => true,
            _ => false,
        };
        if !fresh {
            assert(self.to_explore@ =~= s0.to_explore@ + s0.entry_at(*cache, obj.scale, p, goal, cost));
            return;
        }
        let ghost idx = self.calculated.rect.index_spec(p);
        proof {
            crate::rect2d::lemma_index_in_area(self.calculated.rect, p);
            lemma_count_unseen_bound(self.calculated.data@);
        }
        let blocked = match cache.would_collide_if_moved(obj, &p) {
            Ok(b) => b,
            Err(_) => true,
        };
        if blocked {
            let _ = self.calculated.set(p, SearchCell::Blocked);
            proof {
                lemma_count_unseen_update(s0.calculated.data@, idx, SearchCell::Blocked);
            }
        } else {
            let h = heuristic(p, goal);
            proof {
                assert(h * h <= sq_dist_tenths(p, goal));
                assert(sq_dist_tenths(p, goal) <= 0x100_0000_0000_0000_0000_0000) by (nonlinear_arith)
                    requires
                        -0x1_0000_0000 <= p.x - goal.x <= 0x1_0000_0000,
                        -0x1_0000_0000 <= p.y - goal.y <= 0x1_0000_0000,
                ;
                assert(h <= 0x1_0000_0000_0000) by (nonlinear_arith)
                    requires h * h <= 0x100_0000_0000_0000_0000_0000, h >= 0;
                assert(s0.calculated.data@.len() <= usize::MAX);
            }
            self.to_explore.push(FunctionalTuple(cost + h, p));
            let _ = self.calculated.set(p, SearchCell::Reached(cost));
            proof {
                lemma_count_unseen_update(s0.calculated.data@, idx, SearchCell::Reached(cost));
                assert(self.to_explore@[s0.to_explore@.len() as int].1 == p);
            }
        }
        proof {
            assert forall|i: int|
                #![trigger self.to_explore@[i]]
                0 <= i < self.to_explore@.len() implies self.calculated.in_bounds(
                self.to_explore@[i].1,
            ) && self.calculated.cell(self.to_explore@[i].1) is Reached by {
                if i < s0.to_explore@.len() {
                    assert(s0.to_explore@[i] == self.to_explore@[i]);
                }
            }
            assert forall|i: int|
                #![trigger self.to_explore@[i]]
                0 <= i < self.to_explore@.len() implies self.to_explore@[i].1 != start
                && self.to_explore@[i].0 >= self.calculated.cell(self.to_explore@[i].1)->Reached_0
                && is_isqrt(
                sq_dist_tenths(self.to_explore@[i].1, goal),
                (self.to_explore@[i].0 - self.calculated.cell(self.to_explore@[i].1)->Reached_0) as nat,
            ) by {
                if i < s0.to_explore@.len() {
                    assert(s0.to_explore@[i] == self.to_explore@[i]);
                }
            }
            assert forall|q: Tile|
                #![trigger self.calculated.cell(q)]
                s0.calculated.in_bounds(q) && s0.calculated.cell(q) is Unseen
                    && self.calculated.cell(q) is Reached implies self.queued(q) by {
                assert(q == p);
                assert(self.to_explore@[s0.to_explore@.len() as int].1 == p);
            }
            assert(self.to_explore@ =~= s0.to_explore@ + s0.entry_at(*cache, obj.scale, p, goal, cost));
            assert forall|t: Tile|
                #![trigger self.has_parent(t)]
                self.calculated.in_bounds(t) && self.calculated.cell(t) is Reached && t != start
                    implies self.has_parent(t) by {
                if t == p {
                    assert(self.calculated.cell(from) == s0.calculated.cell(from));
                } else {
                    assert(s0.has_parent(t));
                    let m = choose|m: Tile|
                        #![trigger s0.calculated.cell(m)]
                        adjacent8(t, m) && s0.calculated.in_bounds(m) && s0.calculated.cell(m) is Reached
                            && s0.calculated.cell(m)->Reached_0 + step_cost(m, t)
                            == s0.calculated.cell(t)->Reached_0;
                    assert(self.calculated.cell(m) == s0.calculated.cell(m));
                }
            }
        }
    }

    /// Looks at the tile at offset `(dx, dy)` from `node`, if representable,
    /// reached with cost `cost` (see `explore_point`).
    fn explore_offset(
        &mut self,
        cache: &CollisionGridCache,
        obj: &Transform2D,
        node: Tile,
        dx: i32,
        dy: i32,
        goal: Tile,
        cost: u128,
        Ghost(start): Ghost<Tile>,
    )
        requires
            -1 <= dx <= 1,
            -1 <= dy <= 1,
            !(dx == 0 && dy == 0),
            cache.wf(),
            old(self).wf(*cache, obj.scale, start),
            old(self).aligned(start, goal),
            ORTHOGONAL_COST <= cost <= DIAGONAL_COST * old(self).seen() + DIAGONAL_COST,
            old(self).calculated.in_bounds(node),
            old(self).calculated.cell(node) is Reached,
            old(self).calculated.cell(node)->Reached_0 + (if dx == 0 || dy == 0 {
                ORTHOGONAL_COST
            } else {
                DIAGONAL_COST
            }) == cost,
        ensures
            forall|n: Tile|
                #![trigger old(self).calculated.cell(n)]
                n.x == node.x + dx && n.y == node.y + dy && old(self).calculated.in_bounds(n)
                    && old(self).calculated.cell(n) is Unseen && !cache.free_at(n, obj.scale)
                    ==> final(self).calculated.cell(n) == SearchCell::Blocked,
            final(self).wf(*cache, obj.scale, start),
            final(self).aligned(start, goal),
            final(self).measure() <= old(self).measure(),
            final(self).seen() >= old(self).seen(),
            final(self).calculated.rect == old(self).calculated.rect,
            forall|q: Tile|
                #![trigger final(self).calculated.cell(q)]
                final(self).calculated.in_bounds(q) && (q.x != node.x + dx || q.y != node.y + dy)
                    ==> final(self).calculated.cell(q) == old(self).calculated.cell(q),
            final(self).to_explore@.len() >= old(self).to_explore@.len(),
            forall|i: int|
                0 <= i < old(self).to_explore@.len() ==> #[trigger] final(self).to_explore@[i]
                    == old(self).to_explore@[i],
            forall|n: Tile|
                #![trigger old(self).calculated.cell(n)]
                n.x == node.x + dx && n.y == node.y + dy && old(self).calculated.in_bounds(n)
                    && old(self).calculated.cell(n) is Unseen && cache.free_at(n, obj.scale) ==> {
                    &&& final(self).calculated.cell(n) == SearchCell::Reached(cost)
                    &&& exists|i: int|
                        0 <= i < final(self).to_explore@.len()
                            && (#[trigger] final(self).to_explore@[i]).1 == n
                },
            old(self).grows_to(*final(self)),
            forall|n: Tile|
                #![trigger final(self).calculated.cell(n)]
                n.x == node.x + dx && n.y == node.y + dy && old(self).calculated.in_bounds(n)
                    ==> !(final(self).calculated.cell(n) is Unseen),
            final(self).to_explore@ == old(self).to_explore@ + old(self).entry_at_offset(
                *cache,
                obj.scale,
                node,
                dx as int,
                dy as int,
                goal,
                cost,
            ),
    {
        match neighbor(node, dx, dy) {
            Some(n) => {
                self.explore_point(cache, obj, n, goal, cost, Ghost(start), Ghost(node));
            },
            None => {
                proof {
                    assert(self.to_explore@ =~= old(self).to_explore@ + old(self).entry_at_offset(
                        *cache, obj.scale, node, dx as int, dy as int, goal, cost));
                    assert forall|n: Tile|
                        #![trigger self.calculated.cell(n)]
                        n.x == node.x + dx && n.y == node.y + dy && old(self).calculated.in_bounds(n)
                            implies !(self.calculated.cell(n) is Unseen) by {
                        assert(fits_i32(n.x as int) && fits_i32(n.y as int));
                    }
                }
            },
        }
    }

    /// Looks at the eight neighbours of `node`, reached with cost `cost`:
    /// orthogonal ones at `ORTHOGONAL_COST` more, diagonal ones at
    /// `DIAGONAL_COST` more.
    fn explore_neighbors(
        &mut self,
        cache: &CollisionGridCache,
        obj: &Transform2D,
        node: Tile,
        goal: Tile,
        cost: u128,
        Ghost(start): Ghost<Tile>,
    )
        requires
            cache.wf(),
            old(self).wf(*cache, obj.scale, start),
            old(self).aligned(start, goal),
            old(self).calculated.in_bounds(node),
            old(self).calculated.cell(node) == SearchCell::Reached(cost),
            cost <= DIAGONAL_COST * old(self).seen(),
        ensures
            final(self).wf(*cache, obj.scale, start),
            final(self).aligned(start, goal),
            final(self).measure() <= old(self).measure(),
            final(self).seen() >= old(self).seen(),
            forall|n: Tile|
                #![trigger adjacent8(node, n)]
                adjacent8(node, n) && old(self).calculated.in_bounds(n)
                    && old(self).calculated.cell(n) is Unseen ==> {
                    &&& cache.free_at(n, obj.scale) ==> final(self).calculated.cell(n)
                        == SearchCell::Reached((cost + step_cost(node, n)) as u128)
                        && final(self).queued(n)
                    &&& !cache.free_at(n, obj.scale) ==> final(self).calculated.cell(n)
                        == SearchCell::Blocked
                },
            forall|n: Tile|
                #![trigger orth_adjacent(node, n)]
                orth_adjacent(node, n) && old(self).calculated.in_bounds(n)
                    && old(self).calculated.cell(n) is Unseen && cache.free_at(n, obj.scale) ==> {
                    &&& final(self).calculated.cell(n) == SearchCell::Reached(
                        (cost + ORTHOGONAL_COST) as u128,
                    )
                    &&& exists|i: int|
                        0 <= i < final(self).to_explore@.len()
                            && (#[trigger] final(self).to_explore@[i]).1 == n
                },
            final(self).to_explore@ == old(self).to_explore@ + old(self).entries_around(
                *cache,
                obj.scale,
                node,
                goal,
                cost,
            ),
            old(self).grows_to(*final(self)),
            final(self).closed(node),
            forall|q: Tile|
                #![trigger final(self).calculated.cell(q)]
                old(self).calculated.in_bounds(q) && old(self).calculated.cell(q) is Unseen
                    && !(final(self).calculated.cell(q) is Unseen) ==> adjacent8(node, q),
    {
        assert(self.calculated.data@.len() == self.calculated.data.len());
        proof {
            lemma_count_unseen_bound(self.calculated.data@);
        }
        let ghost s0 = *self;
        let orth = cost + ORTHOGONAL_COST;
        let diag = cost + DIAGONAL_COST;
        self.explore_offset(cache, obj, node, -1, 0, goal, orth, Ghost(start));
        let ghost s1 = *self;
        self.explore_offset(cache, obj, node, 1, 0, goal, orth, Ghost(start));
        let ghost s2 = *self;
        self.explore_offset(cache, obj, node, 0, 1, goal, orth, Ghost(start));
        let ghost s3 = *self;
        self.explore_offset(cache, obj, node, 0, -1, goal, orth, Ghost(start));
        let ghost s4 = *self;
        self.explore_offset(cache, obj, node, -1, 1, goal, diag, Ghost(start));
        let ghost s5 = *self;
        self.explore_offset(cache, obj, node, 1, 1, goal, diag, Ghost(start));
        let ghost s6 = *self;
        self.explore_offset(cache, obj, node, -1, -1, goal, diag, Ghost(start));
        let ghost s7 = *self;
        self.explore_offset(cache, obj, node, 1, -1, goal, diag, Ghost(start));
        let ghost s8 = *self;
        proof {
            let ghost mut acc: Seq<FunctionalTuple> = Seq::empty();
            if fits_i32(node.x + -1) && fits_i32(node.y + 0) && s0.calculated.in_bounds(Tile { x: (node.x + -1) as i32, y: (node.y + 0) as i32 }) {
                let nk = Tile { x: (node.x + -1) as i32, y: (node.y + 0) as i32 };
            }
            lemma_frontier_step(s0, s0, s1, *cache, obj.scale, node, -1, 0, goal, (cost + ORTHOGONAL_COST) as u128, acc);
            acc = acc + s0.entry_at_offset(*cache, obj.scale, node, -1, 0, goal, (cost + ORTHOGONAL_COST) as u128);
            if fits_i32(node.x + 1) && fits_i32(node.y + 0) && s0.calculated.in_bounds(Tile { x: (node.x + 1) as i32, y: (node.y + 0) as i32 }) {
                let nk = Tile { x: (node.x + 1) as i32, y: (node.y + 0) as i32 };
                assert(s1.calculated.cell(nk) == s0.calculated.cell(nk));
            }
            lemma_frontier_step(s0, s1, s2, *cache, obj.scale, node, 1, 0, goal, (cost + ORTHOGONAL_COST) as u128, acc);
            acc = acc + s0.entry_at_offset(*cache, obj.scale, node, 1, 0, goal, (cost + ORTHOGONAL_COST) as u128);
            if fits_i32(node.x + 0) && fits_i32(node.y + 1) && s0.calculated.in_bounds(Tile { x: (node.x + 0) as i32, y: (node.y + 1) as i32 }) {
                let nk = Tile { x: (node.x + 0) as i32, y: (node.y + 1) as i32 };
                assert(s1.calculated.cell(nk) == s0.calculated.cell(nk));
                assert(s2.calculated.cell(nk) == s1.calculated.cell(nk));
            }
            lemma_frontier_step(s0, s2, s3, *cache, obj.scale, node, 0, 1, goal, (cost + ORTHOGONAL_COST) as u128, acc);
            acc = acc + s0.entry_at_offset(*cache, obj.scale, node, 0, 1, goal, (cost + ORTHOGONAL_COST) as u128);
            if fits_i32(node.x + 0) && fits_i32(node.y + -1) && s0.calculated.in_bounds(Tile { x: (node.x + 0) as i32, y: (node.y + -1) as i32 }) {
                let nk = Tile { x: (node.x + 0) as i32, y: (node.y + -1) as i32 };
                assert(s1.calculated.cell(nk) == s0.calculated.cell(nk));
                assert(s2.calculated.cell(nk) == s1.calculated.cell(nk));
                assert(s3.calculated.cell(nk) == s2.calculated.cell(nk));
            }
            lemma_frontier_step(s0, s3, s4, *cache, obj.scale, node, 0, -1, goal, (cost + ORTHOGONAL_COST) as u128, acc);
            acc = acc + s0.entry_at_offset(*cache, obj.scale, node, 0, -1, goal, (cost + ORTHOGONAL_COST) as u128);
            if fits_i32(node.x + -1) && fits_i32(node.y + 1) && s0.calculated.in_bounds(Tile { x: (node.x + -1) as i32, y: (node.y + 1) as i32 }) {
                let nk = Tile { x: (node.x + -1) as i32, y: (node.y + 1) as i32 };
                assert(s1.calculated.cell(nk) == s0.calculated.cell(nk));
                assert(s2.calculated.cell(nk) == s1.calculated.cell(nk));
                assert(s3.calculated.cell(nk) == s2.calculated.cell(nk));
                assert(s4.calculated.cell(nk) == s3.calculated.cell(nk));
            }
            lemma_frontier_step(s0, s4, s5, *cache, obj.scale, node, -1, 1, goal, (cost + DIAGONAL_COST) as u128, acc);
            acc = acc + s0.entry_at_offset(*cache, obj.scale, node, -1, 1, goal, (cost + DIAGONAL_COST) as u128);
            if fits_i32(node.x + 1) && fits_i32(node.y + 1) && s0.calculated.in_bounds(Tile { x: (node.x + 1) as i32, y: (node.y + 1) as i32 }) {
                let nk = Tile { x: (node.x + 1) as i32, y: (node.y + 1) as i32 };
                assert(s1.calculated.cell(nk) == s0.calculated.cell(nk));
                assert(s2.calculated.cell(nk) == s1.calculated.cell(nk));
                assert(s3.calculated.cell(nk) == s2.calculated.cell(nk));
                assert(s4.calculated.cell(nk) == s3.calculated.cell(nk));
                assert(s5.calculated.cell(nk) == s4.calculated.cell(nk));
            }
            lemma_frontier_step(s0, s5, s6, *cache, obj.scale, node, 1, 1, goal, (cost + DIAGONAL_COST) as u128, acc);
            acc = acc + s0.entry_at_offset(*cache, obj.scale, node, 1, 1, goal, (cost + DIAGONAL_COST) as u128);
            if fits_i32(node.x + -1) && fits_i32(node.y + -1) && s0.calculated.in_bounds(Tile { x: (node.x + -1) as i32, y: (node.y + -1) as i32 }) {
                let nk = Tile { x: (node.x + -1) as i32, y: (node.y + -1) as i32 };
                assert(s1.calculated.cell(nk) == s0.calculated.cell(nk));
                assert(s2.calculated.cell(nk) == s1.calculated.cell(nk));
                assert(s3.calculated.cell(nk) == s2.calculated.cell(nk));
                assert(s4.calculated.cell(nk) == s3.calculated.cell(nk));
                assert(s5.calculated.cell(nk) == s4.calculated.cell(nk));
                assert(s6.calculated.cell(nk) == s5.calculated.cell(nk));
            }
            lemma_frontier_step(s0, s6, s7, *cache, obj.scale, node, -1, -1, goal, (cost + DIAGONAL_COST) as u128, acc);
            acc = acc + s0.entry_at_offset(*cache, obj.scale, node, -1, -1, goal, (cost + DIAGONAL_COST) as u128);
            if fits_i32(node.x + 1) && fits_i32(node.y + -1) && s0.calculated.in_bounds(Tile { x: (node.x + 1) as i32, y: (node.y + -1) as i32 }) {
                let nk = Tile { x: (node.x + 1) as i32, y: (node.y + -1) as i32 };
                assert(s1.calculated.cell(nk) == s0.calculated.cell(nk));
                assert(s2.calculated.cell(nk) == s1.calculated.cell(nk));
                assert(s3.calculated.cell(nk) == s2.calculated.cell(nk));
                assert(s4.calculated.cell(nk) == s3.calculated.cell(nk));
                assert(s5.calculated.cell(nk) == s4.calculated.cell(nk));
                assert(s6.calculated.cell(nk) == s5.calculated.cell(nk));
                assert(s7.calculated.cell(nk) == s6.calculated.cell(nk));
            }
            lemma_frontier_step(s0, s7, s8, *cache, obj.scale, node, 1, -1, goal, (cost + DIAGONAL_COST) as u128, acc);
            acc = acc + s0.entry_at_offset(*cache, obj.scale, node, 1, -1, goal, (cost + DIAGONAL_COST) as u128);
            reveal(AStar2DSearchState::entries_around);
            assert(acc =~= s0.entries_around(*cache, obj.scale, node, goal, cost));
            lemma_grows_trans(s6, s7, s8);
            lemma_grows_trans(s5, s6, s8);
            lemma_grows_trans(s4, s5, s8);
            lemma_grows_trans(s3, s4, s8);
            lemma_grows_trans(s2, s3, s8);
            lemma_grows_trans(s1, s2, s8);
            lemma_grows_trans(s0, s1, s8);
            assert forall|n: Tile|
                #![trigger adjacent8(node, n)]
                adjacent8(node, n) && s0.calculated.in_bounds(n) && s0.calculated.cell(n) is Unseen
                    implies {
                    &&& cache.free_at(n, obj.scale) ==> self.calculated.cell(n)
                        == SearchCell::Reached((cost + step_cost(node, n)) as u128)
                        && self.queued(n)
                    &&& !cache.free_at(n, obj.scale) ==> self.calculated.cell(n)
                        == SearchCell::Blocked
                } by {
                if n.x == node.x - 1 && n.y == node.y {
                    assert(s0.calculated.cell(n) == s0.calculated.cell(n));
                    if cache.free_at(n, obj.scale) {
                        assert(s1.calculated.cell(n) == SearchCell::Reached(orth));
                        let i0 = choose|i: int| 0 <= i < s1.to_explore@.len() && (#[trigger] s1.to_explore@[i]).1 == n;
                        assert(self.to_explore@[i0] == s1.to_explore@[i0]);
                    }
                    assert(s1.grows_to(s8));
                } else if n.x == node.x + 1 && n.y == node.y {
                    assert(s1.calculated.cell(n) == s0.calculated.cell(n));
                    assert(s1.calculated.cell(n) == s0.calculated.cell(n));
                    if cache.free_at(n, obj.scale) {
                        assert(s2.calculated.cell(n) == SearchCell::Reached(orth));
                        let i0 = choose|i: int| 0 <= i < s2.to_explore@.len() && (#[trigger] s2.to_explore@[i]).1 == n;
                        assert(self.to_explore@[i0] == s2.to_explore@[i0]);
                    }
                    assert(s2.grows_to(s8));
                } else if n.x == node.x && n.y == node.y + 1 {
                    assert(s1.calculated.cell(n) == s0.calculated.cell(n));
                    assert(s2.calculated.cell(n) == s1.calculated.cell(n));
                    assert(s2.calculated.cell(n) == s0.calculated.cell(n));
                    if cache.free_at(n, obj.scale) {
                        assert(s3.calculated.cell(n) == SearchCell::Reached(orth));
                        let i0 = choose|i: int| 0 <= i < s3.to_explore@.len() && (#[trigger] s3.to_explore@[i]).1 == n;
                        assert(self.to_explore@[i0] == s3.to_explore@[i0]);
                    }
                    assert(s3.grows_to(s8));
                } else if n.x == node.x && n.y == node.y - 1 {
                    assert(s1.calculated.cell(n) == s0.calculated.cell(n));
                    assert(s2.calculated.cell(n) == s1.calculated.cell(n));
                    assert(s3.calculated.cell(n) == s2.calculated.cell(n));
                    assert(s3.calculated.cell(n) == s0.calculated.cell(n));
                    if cache.free_at(n, obj.scale) {
                        assert(s4.calculated.cell(n) == SearchCell::Reached(orth));
                        let i0 = choose|i: int| 0 <= i < s4.to_explore@.len() && (#[trigger] s4.to_explore@[i]).1 == n;
                        assert(self.to_explore@[i0] == s4.to_explore@[i0]);
                    }
                    assert(s4.grows_to(s8));
                } else if n.x == node.x - 1 && n.y == node.y + 1 {
                    assert(s1.calculated.cell(n) == s0.calculated.cell(n));
                    assert(s2.calculated.cell(n) == s1.calculated.cell(n));
                    assert(s3.calculated.cell(n) == s2.calculated.cell(n));
                    assert(s4.calculated.cell(n) == s3.calculated.cell(n));
                    assert(s4.calculated.cell(n) == s0.calculated.cell(n));
                    if cache.free_at(n, obj.scale) {
                        assert(s5.calculated.cell(n) == SearchCell::Reached(diag));
                        let i0 = choose|i: int| 0 <= i < s5.to_explore@.len() && (#[trigger] s5.to_explore@[i]).1 == n;
                        assert(self.to_explore@[i0] == s5.to_explore@[i0]);
                    }
                    assert(s5.grows_to(s8));
                } else if n.x == node.x + 1 && n.y == node.y + 1 {
                    assert(s1.calculated.cell(n) == s0.calculated.cell(n));
                    assert(s2.calculated.cell(n) == s1.calculated.cell(n));
                    assert(s3.calculated.cell(n) == s2.calculated.cell(n));
                    assert(s4.calculated.cell(n) == s3.calculated.cell(n));
                    assert(s5.calculated.cell(n) == s4.calculated.cell(n));
                    assert(s5.calculated.cell(n) == s0.calculated.cell(n));
                    if cache.free_at(n, obj.scale) {
                        assert(s6.calculated.cell(n) == SearchCell::Reached(diag));
                        let i0 = choose|i: int| 0 <= i < s6.to_explore@.len() && (#[trigger] s6.to_explore@[i]).1 == n;
                        assert(self.to_explore@[i0] == s6.to_explore@[i0]);
                    }
                    assert(s6.grows_to(s8));
                } else if n.x == node.x - 1 && n.y == node.y - 1 {
                    assert(s1.calculated.cell(n) == s0.calculated.cell(n));
                    assert(s2.calculated.cell(n) == s1.calculated.cell(n));
                    assert(s3.calculated.cell(n) == s2.calculated.cell(n));
                    assert(s4.calculated.cell(n) == s3.calculated.cell(n));
                    assert(s5.calculated.cell(n) == s4.calculated.cell(n));
                    assert(s6.calculated.cell(n) == s5.calculated.cell(n));
                    assert(s6.calculated.cell(n) == s0.calculated.cell(n));
                    if cache.free_at(n, obj.scale) {
                        assert(s7.calculated.cell(n) == SearchCell::Reached(diag));
                        let i0 = choose|i: int| 0 <= i < s7.to_explore@.len() && (#[trigger] s7.to_explore@[i]).1 == n;
                        assert(self.to_explore@[i0] == s7.to_explore@[i0]);
                    }
                    assert(s7.grows_to(s8));
                } else {
                    assert(s1.calculated.cell(n) == s0.calculated.cell(n));
                    assert(s2.calculated.cell(n) == s1.calculated.cell(n));
                    assert(s3.calculated.cell(n) == s2.calculated.cell(n));
                    assert(s4.calculated.cell(n) == s3.calculated.cell(n));
                    assert(s5.calculated.cell(n) == s4.calculated.cell(n));
                    assert(s6.calculated.cell(n) == s5.calculated.cell(n));
                    assert(s7.calculated.cell(n) == s6.calculated.cell(n));
                    assert(s7.calculated.cell(n) == s0.calculated.cell(n));
                    if cache.free_at(n, obj.scale) {
                        assert(s8.calculated.cell(n) == SearchCell::Reached(diag));
                        let i0 = choose|i: int| 0 <= i < s8.to_explore@.len() && (#[trigger] s8.to_explore@[i]).1 == n;
                        assert(self.to_explore@[i0] == s8.to_explore@[i0]);
                    }
                }
            }
            assert forall|n: Tile|
                #![trigger orth_adjacent(node, n)]
                orth_adjacent(node, n) && s0.calculated.in_bounds(n) && s0.calculated.cell(n) is Unseen
                    && cache.free_at(n, obj.scale) implies {
                    &&& self.calculated.cell(n) == SearchCell::Reached(orth)
                    &&& exists|i: int| 0 <= i < self.to_explore@.len() && (#[trigger] self.to_explore@[i]).1 == n
                } by {
                assert(adjacent8(node, n));
                assert(self.queued(n));
            }
            assert forall|n: Tile|
                #![trigger self.calculated.cell(n)]
                adjacent8(node, n) && self.calculated.in_bounds(n) implies !(self.calculated.cell(
                    n,
                ) is Unseen) by {
                if s0.calculated.cell(n) is Unseen {
                    assert(adjacent8(node, n));
                } else {
                    assert(s0.grows_to(s8));
                }
            }
            assert forall|q: Tile|
                #![trigger self.calculated.cell(q)]
                s0.calculated.in_bounds(q) && s0.calculated.cell(q) is Unseen
                    && !(self.calculated.cell(q) is Unseen) implies adjacent8(node, q) by {
                if !adjacent8(node, q) {
                    assert(s1.calculated.cell(q) == s0.calculated.cell(q));
                    assert(s2.calculated.cell(q) == s1.calculated.cell(q));
                    assert(s3.calculated.cell(q) == s2.calculated.cell(q));
                    assert(s4.calculated.cell(q) == s3.calculated.cell(q));
                    assert(s5.calculated.cell(q) == s4.calculated.cell(q));
                    assert(s6.calculated.cell(q) == s5.calculated.cell(q));
                    assert(s7.calculated.cell(q) == s6.calculated.cell(q));
                    assert(s8.calculated.cell(q) == s7.calculated.cell(q));
                }
            }
        }
    }

    /// Takes the frontier entry that comes first (lowest estimate, ties by
    /// tile) and returns the cost recorded for its tile, with the tile.
    /// `None` when the frontier is empty: the search has failed.
    fn select_next_node(
        &mut self,
        Ghost(cache): Ghost<CollisionGridCache>,
        Ghost(scale): Ghost<TileSize>,
        Ghost(start): Ghost<Tile>,
        Ghost(goal): Ghost<Tile>,
    ) -> (r: Option<(u128, Tile)>)
        requires
            old(self).wf(cache, scale, start),
            old(self).aligned(start, goal),
        ensures
            final(self).wf(cache, scale, start),
            final(self).aligned(start, goal),
            final(self).calculated == old(self).calculated,
            r is None <==> old(self).to_explore@.len() == 0,
            r is None ==> final(self).to_explore@ == old(self).to_explore@,
            r matches Some((g, t)) ==> {
                &&& final(self).calculated.in_bounds(t)
                &&& final(self).calculated.cell(t) == SearchCell::Reached(g)
                &&& exists|i: int|
                    0 <= i < old(self).to_explore@.len() && (#[trigger] old(self).to_explore@[i]).1
                        == t && final(self).to_explore@ == old(self).to_explore@.remove(i)
                        && forall|j: int|
                        0 <= j < old(self).to_explore@.len() ==> frontier_le(
                            old(self).to_explore@[i],
                            #[trigger] old(self).to_explore@[j],
                        )
            },
    {
        let n = self.to_explore.len();
        if n == 0 {
            return None;
        }
        let mut best: usize = 0;
        let mut k: usize = 1;
        assert(frontier_le(self.to_explore@[0], self.to_explore@[0]));
        while k < n
            invariant
                n == self.to_explore@.len(),
                best < k <= n,
                forall|j: int|
                    0 <= j < k ==> frontier_le(self.to_explore@[best as int], #[trigger] self.to_explore@[j]),
            decreases n - k,
        {
            let a = self.to_explore[k];
            let b = self.to_explore[best];
            if a.0 < b.0 || (a.0 == b.0 && (a.1.x < b.1.x || (a.1.x == b.1.x && a.1.y < b.1.y))) {
                best = k;
            }
            k = k + 1;
        }
        let ghost s0 = *self;
        let e = self.to_explore.remove(best);
        assert(s0.to_explore@[best as int] == e);
        proof {
            assert forall|i: int|
                #![trigger self.to_explore@[i]]
                0 <= i < self.to_explore@.len() implies self.calculated.in_bounds(
                self.to_explore@[i].1,
            ) && self.calculated.cell(self.to_explore@[i].1) is Reached by {
                if i < best {
                    assert(self.to_explore@[i] == s0.to_explore@[i]);
                } else {
                    assert(self.to_explore@[i] == s0.to_explore@[i + 1]);
                }
            }
            assert forall|i: int|
                #![trigger self.to_explore@[i]]
                0 <= i < self.to_explore@.len() implies self.to_explore@[i].1 != start
                && self.to_explore@[i].0 >= self.calculated.cell(self.to_explore@[i].1)->Reached_0
                && is_isqrt(
                sq_dist_tenths(self.to_explore@[i].1, goal),
                (self.to_explore@[i].0 - self.calculated.cell(self.to_explore@[i].1)->Reached_0) as nat,
            ) by {
                if i < best {
                    assert(self.to_explore@[i] == s0.to_explore@[i]);
                } else {
                    assert(self.to_explore@[i] == s0.to_explore@[i + 1]);
                }
            }
        }
        proof {
            assert forall|t: Tile|
                #![trigger self.has_parent(t)]
                self.calculated.in_bounds(t) && self.calculated.cell(t) is Reached && t != start
                    implies self.has_parent(t) by {
                assert(s0.has_parent(t));
            }
        }
        match self.reached_cost(e.1) {
            Some(c) => Some((c, e.1)),
            None => None,
        }
    }

    /// `best` when it holds a tile; otherwise the neighbour at offset
    /// `(dx, dy)` from `node` when it is reached and its cost plus the step to
    /// `node` is `c`, else `None`.
    fn parent_step(&self, best: Option<(Tile, u128)>, node: Tile, dx: i32, dy: i32, c: u128) -> (r: Option<(Tile, u128)>)
        requires
            self.calculated.wf(),
            -1 <= dx <= 1,
            -1 <= dy <= 1,
            !(dx == 0 && dy == 0),
        ensures
            ({
                let m = Tile { x: (node.x + dx) as i32, y: (node.y + dy) as i32 };
                if best is Some {
                    r == best
                } else if fits_i32(node.x + dx) && fits_i32(node.y + dy) && self.calculated.in_bounds(m)
                    && self.calculated.cell(m) is Reached && self.calculated.cell(m)->Reached_0 + (
                if dx == 0 || dy == 0 {
                    ORTHOGONAL_COST
                } else {
                    DIAGONAL_COST
                }) == c {
                    r == Some((m, self.calculated.cell(m)->Reached_0))
                } else {
                    r is None
                }
            }),
    {
        if best.is_some() {
            return best;
        }
        let step: u128 = if dx == 0 || dy == 0 { ORTHOGONAL_COST } else { DIAGONAL_COST };
        match neighbor(node, dx, dy) {
            Some(n) => match self.reached_cost(n) {
                Some(cn) => {
                    if c >= step && cn == c - step {
                        Some((n, cn))
                    } else {
                        None
                    }
                },
                None => None,
            },
            None => None,
        }
    }

    /// The neighbour `node` was reached from: a reached neighbour whose cost
    /// plus the step to `node` is `c` (`node`'s cost). Orthogonal neighbours
    /// come first, in the order up, down, right, left, then diagonal ones,
    /// up-left, up-right, down-left, down-right; the first that fits wins.
    fn cheapest_neighbor(&self, node: Tile, c: u128) -> (r: Option<(Tile, u128)>)
        requires
            self.calculated.wf(),
        ensures
            r matches Some((n, cn)) ==> adjacent8(node, n) && self.calculated.in_bounds(n)
                && self.calculated.cell(n) == SearchCell::Reached(cn) && cn + step_cost(n, node)
                == c,
            forall|m: Tile|
                #![trigger adjacent8(node, m)]
                adjacent8(node, m) && self.calculated.in_bounds(m) && self.calculated.cell(m) is Reached
                    && self.calculated.cell(m)->Reached_0 + step_cost(m, node) == c ==> {
                    &&& r is Some
                    &&& orth_adjacent(node, m) ==> (r matches Some((n, _)) && orth_adjacent(node, n))
                },
    {
        let b0: Option<(Tile, u128)> = None;
        let b1 = self.parent_step(b0, node, 0, 1, c);
        let b2 = self.parent_step(b1, node, 0, -1, c);
        let b3 = self.parent_step(b2, node, 1, 0, c);
        let b4 = self.parent_step(b3, node, -1, 0, c);
        let b5 = self.parent_step(b4, node, -1, 1, c);
        let b6 = self.parent_step(b5, node, 1, 1, c);
        let b7 = self.parent_step(b6, node, -1, -1, c);
        let b8 = self.parent_step(b7, node, 1, -1, c);
        b8
    }

    /// The cost recorded for `t`, when `t` is on the grid and reached.
    fn reached_cost(&self, t: Tile) -> (r: Option<u128>)
        requires
            self.calculated.wf(),
        ensures
            r matches Some(c) ==> self.calculated.in_bounds(t) && self.calculated.cell(t)
                == SearchCell::Reached(c),
            r is None ==> !(self.calculated.in_bounds(t) && self.calculated.cell(t) is Reached),
    {
        match self.calculated.get(t) {
            Ok(SearchCell::Reached(c)) => Some(*c),
            _ => None,
        }
    }
}

/// A tile other than `goal` is at least ten tenths away from it.
proof fn lemma_heuristic_off_goal(t: Tile, goal: Tile, h: nat)
    requires
        is_isqrt(sq_dist_tenths(t, goal), h),
    ensures
        t == goal ==> h == 0,
        t != goal ==> h >= 10,
{
    let dx = t.x - goal.x;
    let dy = t.y - goal.y;
    if t == goal {
        assert(dx == 0 && dy == 0);
        assert(dx * dx + dy * dy == 0) by (nonlinear_arith)
            requires dx == 0 && dy == 0;
        assert(sq_dist_tenths(t, goal) == 0);
        assert(h * h <= 0);
        assert(h == 0) by (nonlinear_arith)
            requires h * h <= 0, h >= 0;
    } else {
        assert(dx * dx + dy * dy >= 1) by (nonlinear_arith)
            requires dx != 0 || dy != 0;
        assert(h >= 10) by (nonlinear_arith)
            requires
                100 * (dx * dx + dy * dy) < (h + 1) * (h + 1),
                dx * dx + dy * dy >= 1,
                h >= 0,
        ;
    }
}

/// A walk to `a` extends to a free tile of the grid next to it.
proof fn lemma_walk_extend(cache: CollisionGridCache, scale: TileSize, start: Tile, a: Tile, b: Tile)
    requires
        reachable(cache, scale, start, a),
        adjacent8(a, b),
        cache.grid.in_bounds(b),
        cache.free_at(b, scale),
    ensures
        reachable(cache, scale, start, b),
{
    let w = choose|w: Seq<Tile>| is_walk(cache, scale, start, a, w);
    let w2 = w.push(b);
    assert forall|i: int| 0 <= i < w2.len() - 1 implies #[trigger] adjacent8(w2[i], w2[i + 1]) by {
        if i < w.len() - 1 {
            assert(w2[i] == w[i] && w2[i + 1] == w[i + 1]);
        }
    }
    assert forall|i: int| 0 <= i < w2.len() implies cache.grid.in_bounds(#[trigger] w2[i]) by {
        if i < w.len() {
            assert(w2[i] == w[i]);
        }
    }
    assert forall|i: int| 1 <= i < w2.len() implies cache.free_at(#[trigger] w2[i], scale) by {
        if i < w.len() {
            assert(w2[i] == w[i]);
        }
    }
    assert(is_walk(cache, scale, start, b, w2));
}

/// Every tile of a walk from the start is reached, once each reached tile
/// is closed and blocked tiles are never free.
proof fn lemma_walk_reached(
    st: AStar2DSearchState,
    cache: CollisionGridCache,
    scale: TileSize,
    start: Tile,
    goal: Tile,
    walk: Seq<Tile>,
    k: int,
)
    requires
        st.wf(cache, scale, start),
        st.calculated.in_bounds(start),
        st.calculated.cell(start) == SearchCell::Reached(0),
        forall|t: Tile|
            #![trigger st.calculated.cell(t)]
            st.calculated.in_bounds(t) && st.calculated.cell(t) is Reached ==> st.closed(t),
        is_walk(cache, scale, start, goal, walk),
        0 <= k < walk.len(),
    ensures
        st.calculated.cell(walk[k]) is Reached,
    decreases k,
{
    if k > 0 {
        lemma_walk_reached(st, cache, scale, start, goal, walk, k - 1);
        let prev = walk[k - 1];
        let t = walk[k];
        assert(adjacent8(walk[k - 1], walk[k - 1 + 1]));
        assert(cache.grid.in_bounds(prev));
        assert(st.closed(prev));
        assert(cache.grid.in_bounds(t));
        assert(!(st.calculated.cell(t) is Unseen));
        assert(cache.free_at(t, scale));
    }
}

/// The forward phase of the search: expands tiles from the start until the
/// goal is taken from the frontier, and returns the search state with the
/// goal's recorded cost. `None` exactly when no walk over free tiles of the
/// grid leads from the start to the goal.
fn search_forward(cache: &CollisionGridCache, start: &Transform2D, goal: Tile) -> (r: Option<(AStar2DSearchState, u128)>)
    requires
        cache.wf(),
        point_has_tile(start.loc.xy()),
        goal != start.tile_spec(),
    ensures
        r is None <==> !reachable(*cache, start.scale, start.tile_spec(), goal),
        r matches Some((st, g)) ==> {
            &&& st.wf(*cache, start.scale, start.tile_spec())
            &&& st.aligned(start.tile_spec(), goal)
            &&& st.calculated.in_bounds(goal)
            &&& st.calculated.cell(goal) == SearchCell::Reached(g)
        },
        orth_adjacent(start.tile_spec(), goal) && cache.grid.in_bounds(start.tile_spec())
            && cache.grid.in_bounds(goal) && cache.free_at(goal, start.scale) ==> (r matches Some(
            (_, g),
        ) && g == ORTHOGONAL_COST),
{
    let s = start.as_tile();
    let ghost scale = start.scale;
    let ghost adj = orth_adjacent(s, goal) && cache.grid.in_bounds(goal) && cache.free_at(
        goal,
        scale,
    );
    let mut state = match AStar2DSearchState::new(cache, s, Ghost(scale), Ghost(goal)) {
        Some(st) => st,
        None => {
            proof {
                if reachable(*cache, scale, s, goal) {
                    let walk = choose|walk: Seq<Tile>| is_walk(*cache, scale, s, goal, walk);
                    assert(cache.grid.in_bounds(walk[0]));
                }
            }
            return None;
        },
    };
    let mut cur: Tile = s;
    let mut g: u128 = 0;
    let ghost mut first = true;
    proof {
        lemma_count_unseen_bound(state.calculated.data@);
        assert(is_walk(*cache, scale, s, s, seq![s]));
        assert forall|t: Tile|
            #![trigger state.calculated.cell(t)]
            state.calculated.in_bounds(t) && state.calculated.cell(t) is Reached implies reachable(
                *cache,
                scale,
                s,
                t,
            ) by {
            assert(t == s);
        }
    }
    loop
        invariant_except_break
            forall|t: Tile|
                #![trigger state.calculated.cell(t)]
                state.calculated.in_bounds(t) && state.calculated.cell(t) is Reached && t != cur
                    ==> state.queued(t) || state.closed(t),
            state.calculated.in_bounds(goal) && state.calculated.cell(goal) is Reached
                ==> state.queued(goal),
            adj ==> first,
            first ==> cur == s && g == 0 && state.to_explore@.len() == 0 && forall|t: Tile|
                #![trigger state.calculated.cell(t)]
                state.calculated.in_bounds(t) && t != s ==> state.calculated.cell(t)
                    == SearchCell::Unseen,
        invariant
            forall|t: Tile|
                #![trigger state.calculated.cell(t)]
                state.calculated.in_bounds(t) && state.calculated.cell(t) is Reached ==> reachable(
                    *cache,
                    scale,
                    s,
                    t,
                ),
            cache.wf(),
            state.wf(*cache, scale, s),
            state.aligned(s, goal),
            state.calculated.in_bounds(cur),
            state.calculated.cell(cur) == SearchCell::Reached(g),
            scale == start.scale,
            s == start.tile_spec(),
            s != goal,
            adj == (orth_adjacent(s, goal) && cache.grid.in_bounds(goal) && cache.free_at(goal, scale)),
        ensures
            reachable(*cache, scale, s, goal),
            adj ==> g == ORTHOGONAL_COST,
            cache.wf(),
            state.wf(*cache, scale, s),
            state.aligned(s, goal),
            state.calculated.in_bounds(goal),
            state.calculated.cell(goal) == SearchCell::Reached(g),
            scale == start.scale,
            s == start.tile_spec(),
            s != goal,
            adj == (orth_adjacent(s, goal) && cache.grid.in_bounds(goal) && cache.free_at(goal, scale)),
        decreases state.measure(),
    {
        proof {
            assert(state.calculated.cell(cur) is Reached);
        }
        let ghost before = state;
        state.explore_neighbors(cache, start, cur, goal, g, Ghost(s));
        proof {
            if adj {
                assert(orth_adjacent(cur, goal));
                assert(before.calculated.cell(goal) is Unseen);
            }
        }
        let ghost explored = state;
        proof {
            assert forall|t: Tile|
                #![trigger explored.calculated.cell(t)]
                explored.calculated.in_bounds(t) && explored.calculated.cell(t) is Reached
                    implies reachable(*cache, scale, s, t) by {
                if before.calculated.cell(t) is Unseen {
                    assert(adjacent8(cur, t));
                    assert(t != s);
                    lemma_walk_extend(*cache, scale, s, cur, t);
                } else {
                    assert(before.calculated.cell(t) == explored.calculated.cell(t));
                }
            }
            assert forall|t: Tile|
                #![trigger explored.calculated.cell(t)]
                explored.calculated.in_bounds(t) && explored.calculated.cell(t) is Reached
                    implies explored.queued(t) || explored.closed(t) by {
                if t != cur && !(before.calculated.cell(t) is Unseen) {
                    if before.queued(t) {
                        let j = choose|j: int| 0 <= j < before.to_explore@.len() && (#[trigger] before.to_explore@[j]).1 == t;
                        assert(explored.to_explore@[j] == before.to_explore@[j]);
                    } else {
                        assert forall|n: Tile|
                            #![trigger explored.calculated.cell(n)]
                            adjacent8(t, n) && explored.calculated.in_bounds(n) implies !(explored.calculated.cell(n) is Unseen) by {
                            assert(!(before.calculated.cell(n) is Unseen));
                        }
                    }
                }
            }
            if explored.calculated.in_bounds(goal) && explored.calculated.cell(goal) is Reached {
                if !(before.calculated.cell(goal) is Unseen) {
                    let j = choose|j: int| 0 <= j < before.to_explore@.len() && (#[trigger] before.to_explore@[j]).1 == goal;
                    assert(explored.to_explore@[j] == before.to_explore@[j]);
                }
                assert(explored.queued(goal));
            }
        }
        match state.select_next_node(Ghost(*cache), Ghost(scale), Ghost(s), Ghost(goal)) {
            None => {
                proof {
                    if adj {
                        assert(orth_adjacent(cur, goal));
                        let ig = choose|i: int|
                            0 <= i < explored.to_explore@.len() && (#[trigger] explored.to_explore@[i]).1 == goal;
                        assert(explored.to_explore@[ig].1 == goal);
                    }
                    assert(!explored.queued(goal));
                    if reachable(*cache, scale, s, goal) {
                        let walk = choose|walk: Seq<Tile>| is_walk(*cache, scale, s, goal, walk);
                        assert forall|t: Tile|
                            #![trigger explored.calculated.cell(t)]
                            explored.calculated.in_bounds(t) && explored.calculated.cell(t) is Reached
                                implies explored.closed(t) by {
                            assert(!explored.queued(t));
                        }
                        lemma_walk_reached(explored, *cache, scale, s, goal, walk, walk.len() - 1);
                    }
                }
                return None;
            },
            Some((g2, t)) => {
                proof {
                    if adj {
                        assert(orth_adjacent(cur, goal));
                        let ig = choose|i: int|
                            0 <= i < explored.to_explore@.len() && (#[trigger] explored.to_explore@[i]).1 == goal;
                        let i = choose|i: int|
                            0 <= i < explored.to_explore@.len() && (#[trigger] explored.to_explore@[i]).1 == t
                                && state.to_explore@ == explored.to_explore@.remove(i)
                                && forall|j: int|
                                0 <= j < explored.to_explore@.len() ==> frontier_le(
                                    explored.to_explore@[i],
                                    #[trigger] explored.to_explore@[j],
                                );
                        let eg = explored.to_explore@[ig];
                        let ei = explored.to_explore@[i];
                        assert(frontier_le(ei, eg));
                        lemma_heuristic_off_goal(goal, goal, (eg.0 - explored.calculated.cell(goal)->Reached_0) as nat);
                        lemma_heuristic_off_goal(t, goal, (ei.0 - explored.calculated.cell(t)->Reached_0) as nat);
                        assert(explored.calculated.cell(t)->Reached_0 >= ORTHOGONAL_COST);
                        assert(t == goal);
                        assert(state.calculated == explored.calculated);
                        assert(g2 == ORTHOGONAL_COST);
                    }
                }
                proof {
                    let i = choose|i: int|
                        0 <= i < explored.to_explore@.len() && (#[trigger] explored.to_explore@[i]).1 == t
                            && state.to_explore@ == explored.to_explore@.remove(i)
                            && forall|j: int|
                            0 <= j < explored.to_explore@.len() ==> frontier_le(
                                explored.to_explore@[i],
                                #[trigger] explored.to_explore@[j],
                            );
                    assert forall|u: Tile|
                        #![trigger state.calculated.cell(u)]
                        state.calculated.in_bounds(u) && state.calculated.cell(u) is Reached && u != t
                            && explored.queued(u) implies state.queued(u) by {
                        let j = choose|j: int| 0 <= j < explored.to_explore@.len() && (#[trigger] explored.to_explore@[j]).1 == u;
                        if j < i {
                            assert(state.to_explore@[j] == explored.to_explore@[j]);
                        } else {
                            assert(state.to_explore@[j - 1] == explored.to_explore@[j]);
                        }
                    }
                    assert(state.calculated == explored.calculated);
                    if t != goal && explored.calculated.in_bounds(goal) && explored.calculated.cell(goal) is Reached {
                        let j = choose|j: int| 0 <= j < explored.to_explore@.len() && (#[trigger] explored.to_explore@[j]).1 == goal;
                        if j < i {
                            assert(state.to_explore@[j] == explored.to_explore@[j]);
                        } else {
                            assert(state.to_explore@[j - 1] == explored.to_explore@[j]);
                        }
                    }
                }
                g = g2;
                cur = t;
                proof {
                    first = false;
                }
                if t == goal {
                    break;
                }
            },
        }
    }
    Some((state, g))
}

/// Walks back from `goal` to the start along the tiles each was reached
/// from (see `cheapest_neighbor`), giving the route goal first, start last.
/// Its step costs add up to the goal's recorded cost `g`.
fn rebuild_route(
    cache: &CollisionGridCache,
    state: &AStar2DSearchState,
    s: Tile,
    goal: Tile,
    g: u128,
    Ghost(scale): Ghost<TileSize>,
) -> (path: Vec<Tile>)
    requires
        cache.wf(),
        state.wf(*cache, scale, s),
        state.aligned(s, goal),
        s != goal,
        state.calculated.in_bounds(goal),
        state.calculated.cell(goal) == SearchCell::Reached(g),
    ensures
        is_route(*cache, scale, s, goal, path@),
        route_cost(path@) == g,
        orth_adjacent(s, goal) && g == ORTHOGONAL_COST ==> path@ == seq![goal, s],
{
    let mut path: Vec<Tile> = Vec::new();
    path.push(goal);
    let mut node: Tile = goal;
    let mut c: u128 = g;
    proof {
        assert(path@ =~= seq![goal]);
    }
    while node != s
        invariant
            cache.wf(),
            state.wf(*cache, scale, s),
            state.aligned(s, goal),
            s != goal,
            state.calculated.in_bounds(node),
            state.calculated.cell(node) == SearchCell::Reached(c),
            path@.len() >= 1,
            path@[0] == goal,
            path@.last() == node,
            forall|i: int| 0 <= i < path@.len() - 1 ==> #[trigger] adjacent8(path@[i], path@[i + 1]),
            forall|i: int| 0 <= i < path@.len() - 1 ==> (#[trigger] path@[i]) != s && cache.free_at(path@[i], scale),
            route_cost(path@) + c == g,
            orth_adjacent(s, goal) && g == ORTHOGONAL_COST ==> (path@ == seq![goal] && node == goal)
                || (path@ == seq![goal, s] && node == s),
        decreases c,
    {
        proof {
            assert(state.calculated.cell(node) is Reached);
            assert(state.has_parent(node));
        }
        match state.cheapest_neighbor(node, c) {
            None => {
                proof {
                    let m = choose|m: Tile|
                        #![trigger state.calculated.cell(m)]
                        adjacent8(node, m) && state.calculated.in_bounds(m) && state.calculated.cell(m) is Reached
                            && state.calculated.cell(m)->Reached_0 + step_cost(m, node)
                            == state.calculated.cell(node)->Reached_0;
                    assert(adjacent8(node, m));
                    assert(false);
                }
                return path;
            },
            Some((n, cn)) => {
                proof {
                    if orth_adjacent(s, goal) && g == ORTHOGONAL_COST && node == goal {
                        assert(orth_adjacent(node, s));
                        assert(adjacent8(node, s));
                        if n != s {
                            assert(state.calculated.cell(n)->Reached_0 >= ORTHOGONAL_COST);
                        }
                    }
                }
                let ghost p0 = path@;
                path.push(n);
                proof {
                    assert(path@[p0.len() - 1] == node);
                    assert(path@.drop_last() =~= p0);
                    assert(step_cost(node, n) == step_cost(n, node));
                    assert forall|i: int| 0 <= i < path@.len() - 1 implies #[trigger] adjacent8(path@[i], path@[i + 1]) by {
                        if i < p0.len() - 1 {
                            assert(path@[i] == p0[i] && path@[i + 1] == p0[i + 1]);
                        }
                    }
                    assert forall|i: int| 0 <= i < path@.len() - 1 implies (#[trigger] path@[i]) != s && cache.free_at(path@[i], scale) by {
                        if i < p0.len() - 1 {
                            assert(path@[i] == p0[i]);
                        }
                    }
                    if orth_adjacent(s, goal) && g == ORTHOGONAL_COST {
                        assert(path@ =~= seq![goal, s]);
                    }
                }
                node = n;
                c = cn;
            },
        }
    }
    proof {
        assert(c == 0);
    }
    path
}

/// The cost, in tenths of a tile, that the search records for `goal` when it
/// takes it from the frontier (zero when the goal is the start's tile): the
/// sum of the step costs of a route from the start to the goal. `Some`
/// exactly when a walk over free tiles of the grid leads from the tile under
/// `start` to `goal`. The search fixes a tile's cost when it first finds it
/// and its estimate can exceed the remaining cost on long diagonals, so the
/// cost is not promised to be the least possible.
pub fn search_goal_cost(cache: &CollisionGridCache, start: &Transform2D, goal: Tile) -> (r: Option<u128>)
    requires
        cache.wf(),
        point_has_tile(start.loc.xy()),
    ensures
        r is Some <==> reachable(*cache, start.scale, start.tile_spec(), goal),
        goal == start.tile_spec() && cache.grid.in_bounds(goal) ==> r == Some(0u128),
        r matches Some(g) ==> exists|path: Seq<Tile>|
            is_route(*cache, start.scale, start.tile_spec(), goal, path) && route_cost(path) == g,
{
    let s = start.as_tile();
    if s == goal {
        if cache.grid.rect().contains_exclusive_max(s) {
            proof {
                assert(is_walk(*cache, start.scale, s, s, seq![s]));
                assert(is_route(*cache, start.scale, s, goal, seq![s]));
                assert(route_cost(seq![s]) == 0);
            }
            return Some(0);
        } else {
            proof {
                if reachable(*cache, start.scale, s, goal) {
                    let walk = choose|walk: Seq<Tile>| is_walk(*cache, start.scale, s, goal, walk);
                    assert(cache.grid.in_bounds(walk[0]));
                }
            }
            return None;
        }
    }
    match search_forward(cache, start, goal) {
        Some((state, g)) => {
            let path = rebuild_route(cache, &state, s, goal, g, Ghost(start.scale));
            proof {
                assert(is_route(*cache, start.scale, s, goal, path@) && route_cost(path@) == g);
            }
            Some(g)
        },
        None => None,
    }
}

/// Searches for a route for an entity shaped like `start` from the tile under
/// it to `goal`, with A* over the cache's tiles: eight neighbours per tile
/// (`ORTHOGONAL_COST` / `DIAGONAL_COST`), Euclidean estimate to the goal, and
/// tiles where the entity would collide or leave the grid never expanded. Once
/// the goal is taken from the frontier, the route is rebuilt from the goal by
/// stepping each time to the neighbour the tile was reached from (its cost
/// plus the step equals the tile's cost; orthogonal neighbours first), until
/// the start is reached, so the route's step costs add up to the goal's
/// recorded cost (`search_goal_cost`). The route is returned goal first, start
/// last. `None` exactly when no walk over free tiles of the grid leads from the
/// start to the goal (in particular when either is off the grid).
///
/// The route is not promised to be the cheapest: tile costs are fixed when
/// first found, and the Euclidean estimate, at ten tenths per tile, exceeds
/// the 14-tenth diagonal step on long diagonals (8 diagonal steps cost 112,
/// the estimate is 113).
pub fn calc_optimal_path(cache: &CollisionGridCache, start: &Transform2D, goal: Tile) -> (r: Option<Vec<Tile>>)
    requires
        cache.wf(),
        point_has_tile(start.loc.xy()),
    ensures
        r matches Some(path) ==> is_route(*cache, start.scale, start.tile_spec(), goal, path@),
        goal == start.tile_spec() && cache.grid.in_bounds(goal) ==> (r matches Some(path)
            && path@ == seq![goal]),
        goal == start.tile_spec() && !cache.grid.in_bounds(goal) ==> r is None,
        goal != start.tile_spec() && orth_adjacent(start.tile_spec(), goal) && cache.grid.in_bounds(
            start.tile_spec(),
        ) && cache.grid.in_bounds(goal) && cache.free_at(goal, start.scale) ==> (r matches Some(
            path,
        ) && path@ == seq![goal, start.tile_spec()]),
        goal != start.tile_spec() && !cache.free_at(goal, start.scale) ==> r is None,
        goal != start.tile_spec() && enclosed(*cache, start.scale, start.tile_spec(), goal)
            ==> r is None,
        goal != start.tile_spec() ==> (r is Some <==> reachable(
            *cache,
            start.scale,
            start.tile_spec(),
            goal,
        )),
{
    let s = start.as_tile();
    if s == goal {
        if !cache.grid.rect().contains_exclusive_max(s) {
            return None;
        }
        let path = vec![goal];
        assert(path@ == seq![goal]);
        return Some(path);
    }
    match search_forward(cache, start, goal) {
        Some((state, g)) => {
            let path = rebuild_route(cache, &state, s, goal, g, Ghost(start.scale));
            proof {
                lemma_route_leaves_goal(*cache, start.scale, s, goal, path@);
            }
            Some(path)
        },
        None => None,
    }
}

} // verus!
