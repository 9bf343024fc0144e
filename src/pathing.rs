use vstd::prelude::*;

use crate::error::LightError;
use crate::grid::Grid2D;
use crate::rect2d::{Rect2D, Tile, TileSize};
use crate::transform::{footprint_at, footprint_fits, Transform2D};

verus! {

broadcast use vstd::std_specs::hash::group_hash_axioms;

/// A stable identifier of an entity.
#[derive(Clone, Copy, Debug, PartialEq, Eq, Structural)]
pub struct EntityId(pub u64);

/// Marks an entity that blocks tiles and never moves (a wall).
#[derive(Clone, Copy, Debug, PartialEq, Eq, Structural)]
pub struct ImmobileObstacle;

/// Marks a moving entity: it must not land on an `ImmobileObstacle`, but it
/// may share tiles with other `LayerableCollider`s.
#[derive(Clone, Copy, Debug, PartialEq, Eq, Structural)]
pub struct LayerableCollider;

/// Which tiles entities occupy: a grid of occupants and the last footprint
/// recorded for each entity (keyed by the entity's id).
#[derive(Debug)]
pub struct CollisionGridCache {
    pub grid: Grid2D<Option<EntityId>>,
    pub entities: std::collections::HashMap<u64, Rect2D>,
}

/// `a` comes before `b` in the scan order of a footprint: by column, then by row.
pub open spec fn scan_before(a: Tile, b: Tile) -> bool {
    a.x < b.x || (a.x == b.x && a.y < b.y)
}

/// A footprint of `scale` tiles placed at `t` lies wholly inside `rect`
/// (an empty footprint always does).
pub open spec fn placed_within(rect: Rect2D, t: Tile, scale: TileSize) -> bool {
    scale.x == 0 || scale.y == 0 || (rect.min.x <= t.x && t.x + scale.x <= rect.max.x
        && rect.min.y <= t.y && t.y + scale.y <= rect.max.y)
}

/// Sets every in-grid tile of `o` to unoccupied.
fn clear_footprint(grid: &mut Grid2D<Option<EntityId>>, o: Rect2D)
    requires
        old(grid).wf(),
    ensures
        final(grid).wf(),
        final(grid).rect == old(grid).rect,
        forall|t: Tile|
            #![trigger final(grid).cell(t)]
            final(grid).in_bounds(t) ==> final(grid).cell(t) == if o.has_tile(t) {
                None
            } else {
                old(grid).cell(t)
            },
{
    let ghost g0 = *grid;
    let mut x: i32 = o.min.x;
    while x < o.max.x
        invariant
            grid.wf(),
            grid.rect == g0.rect,
            o.min.x <= x,
            x <= o.max.x || o.max.x <= o.min.x,
            forall|t: Tile|
                #![trigger grid.cell(t)]
                grid.in_bounds(t) ==> grid.cell(t) == if o.has_tile(t) && t.x < x {
                    None
                } else {
                    g0.cell(t)
                },
        decreases o.max.x - x,
    {
        let mut y: i32 = o.min.y;
        while y < o.max.y
            invariant
                grid.wf(),
                grid.rect == g0.rect,
                o.min.x <= x < o.max.x,
                o.min.y <= y,
                y <= o.max.y || o.max.y <= o.min.y,
                forall|t: Tile|
                    #![trigger grid.cell(t)]
                    grid.in_bounds(t) ==> grid.cell(t) == if o.has_tile(t) && scan_before(
                        t,
                        Tile { x, y },
                    ) {
                        None
                    } else {
                        g0.cell(t)
                    },
            decreases o.max.y - y,
        {
            let _ = grid.set(Tile { x, y }, None);
            y = y + 1;
        }
        x = x + 1;
    }
}

/// Gives each in-grid tile of `f` that is unoccupied to `id`; occupied tiles
/// keep their occupant.
fn claim_footprint(grid: &mut Grid2D<Option<EntityId>>, f: Rect2D, id: EntityId)
    requires
        old(grid).wf(),
    ensures
        final(grid).wf(),
        final(grid).rect == old(grid).rect,
        forall|t: Tile|
            #![trigger final(grid).cell(t)]
            final(grid).in_bounds(t) ==> final(grid).cell(t) == if f.has_tile(t) && old(
                grid,
            ).cell(t) is None {
                Some(id)
            } else {
                old(grid).cell(t)
            },
{
    let ghost g0 = *grid;
    let mut x: i32 = f.min.x;
    while x < f.max.x
        invariant
            grid.wf(),
            grid.rect == g0.rect,
            f.min.x <= x,
            x <= f.max.x || f.max.x <= f.min.x,
            forall|t: Tile|
                #![trigger grid.cell(t)]
                grid.in_bounds(t) ==> grid.cell(t) == if f.has_tile(t) && t.x < x && g0.cell(
                    t,
                ) is None {
                    Some(id)
                } else {
                    g0.cell(t)
                },
        decreases f.max.x - x,
    {
        let mut y: i32 = f.min.y;
        while y < f.max.y
            invariant
                grid.wf(),
                grid.rect == g0.rect,
                f.min.x <= x < f.max.x,
                f.min.y <= y,
                y <= f.max.y || f.max.y <= f.min.y,
                forall|t: Tile|
                    #![trigger grid.cell(t)]
                    grid.in_bounds(t) ==> grid.cell(t) == if f.has_tile(t) && scan_before(
                        t,
                        Tile { x, y },
                    ) && g0.cell(t) is None {
                        Some(id)
                    } else {
                        g0.cell(t)
                    },
            decreases f.max.y - y,
        {
            let p = Tile { x, y };
            let free = match grid.get(p) {
                Ok(v) => v.is_none(),
                Err(_) => false,
            };
            if free {
                let _ = grid.set(p, Some(id));
            }
            y = y + 1;
        }
        x = x + 1;
    }
}

impl CollisionGridCache {
    pub open spec fn occupant(&self, t: Tile) -> Option<EntityId> {
        self.grid.cell(t)
    }

    /// Every occupied tile lies in the recorded footprint of its occupant.
    pub open spec fn wf(&self) -> bool {
        &&& self.grid.wf()
        &&& forall|t: Tile|
            #![trigger self.grid.cell(t)]
            self.grid.in_bounds(t) && self.grid.cell(t) is Some ==> {
                let e = self.grid.cell(t)->Some_0;
                self.entities@.contains_key(e.0) && self.entities@[e.0].has_tile(t)
            }
    }

    /// The occupant of `t` once `id`'s recorded footprint has been cleared.
    pub open spec fn cleared_occupant(&self, id: EntityId, t: Tile) -> Option<EntityId> {
        if self.entities@.contains_key(id.0) && self.entities@[id.0].has_tile(t) {
            None
        } else {
            self.occupant(t)
        }
    }

    /// The occupant of `t` after `move_entity` gives `id` the footprint `f`:
    /// the old footprint is cleared, then each free tile of `f` is claimed.
    pub open spec fn moved_occupant(&self, f: Rect2D, id: EntityId, t: Tile) -> Option<EntityId> {
        if f.has_tile(t) && self.cleared_occupant(id, t) is None {
            Some(id)
        } else {
            self.cleared_occupant(id, t)
        }
    }

    /// `new` is what `move_entity` makes of `self` for footprint `f` and `id`.
    pub open spec fn moved_to(&self, new: CollisionGridCache, f: Rect2D, id: EntityId) -> bool {
        &&& new.grid.rect == self.grid.rect
        &&& new.entities@ == self.entities@.insert(id.0, f)
        &&& forall|t: Tile|
            #![trigger new.grid.cell(t)]
            new.grid.in_bounds(t) ==> new.grid.cell(t) == self.moved_occupant(f, id, t)
    }

    /// Some tile of the footprint at `t` is occupied.
    pub open spec fn blocked_at(&self, t: Tile, scale: TileSize) -> bool {
        exists|q: Tile|
            #![trigger self.grid.cell(q)]
            footprint_at(t, scale).has_tile(q) && self.grid.cell(q) is Some
    }

    /// An entity of `scale` tiles could stand at `t`: its footprint lies in
    /// the grid and no tile of it is occupied.
    pub open spec fn free_at(&self, t: Tile, scale: TileSize) -> bool {
        placed_within(self.grid.rect, t, scale) && !self.blocked_at(t, scale)
    }

    /// Tile `t` holds an occupant other than `id`.
    pub open spec fn conflicts(&self, t: Tile, id: EntityId) -> bool {
        self.grid.cell(t) is Some && self.grid.cell(t)->Some_0 != id
    }

    /// Every tile of `f` scanned before `t` is on the grid and holds no
    /// occupant other than `id`.
    pub open spec fn clear_before(&self, f: Rect2D, id: EntityId, t: Tile) -> bool {
        forall|q: Tile|
            #![trigger f.has_tile(q)]
            f.has_tile(q) && scan_before(q, t) ==> self.grid.in_bounds(q) && !self.conflicts(q, id)
    }

    /// `r` is what a scan of footprint `f`, in scan order, for an occupant
    /// other than `id` reports: the first such occupant, or `OutOfBoundsError`
    /// when a tile off the grid comes first, or `None` when every tile is on
    /// the grid and none holds another entity.
    pub open spec fn reports_conflict(
        &self,
        f: Rect2D,
        id: EntityId,
        r: Result<Option<EntityId>, LightError>,
    ) -> bool {
        match r {
            Ok(None) => forall|q: Tile|
                #![trigger f.has_tile(q)]
                f.has_tile(q) ==> self.grid.in_bounds(q) && !self.conflicts(q, id),
            Ok(Some(e)) => exists|t: Tile|
                #![trigger f.has_tile(t)]
                f.has_tile(t) && self.grid.in_bounds(t) && self.grid.cell(t) == Some(e) && e != id
                    && self.clear_before(f, id, t),
            Err(e) => e == LightError::OutOfBoundsError && exists|t: Tile|
                #![trigger f.has_tile(t)]
                f.has_tile(t) && !self.grid.in_bounds(t) && self.clear_before(f, id, t),
        }
    }

    /// Some tile of `f` on the grid holds another entity than `id` and comes,
    /// in scan order, before every tile of `f` off the grid.
    pub open spec fn overlaps_first(&self, f: Rect2D, id: EntityId) -> bool {
        exists|t: Tile|
            #![trigger f.has_tile(t)]
            f.has_tile(t) && self.grid.in_bounds(t) && self.conflicts(t, id) && self.clear_before(
                f,
                id,
                t,
            )
    }

    /// An empty cache covering `size` tiles from `origin`.
    pub fn new(origin: Tile, size: TileSize) -> (r: CollisionGridCache)
        requires
            footprint_fits(origin, size),
            size.x * size.y <= usize::MAX,
        ensures
            r.wf(),
            r.grid.rect == footprint_at(origin, size),
            r.entities@ == Map::<u64, Rect2D>::empty(),
            forall|t: Tile| #[trigger] r.grid.in_bounds(t) ==> r.occupant(t) is None,
    {
        CollisionGridCache {
            grid: Grid2D::new(origin, size, None),
            entities: std::collections::HashMap::new(),
        }
    }

    /// Whether tile `p` is occupied; `OutOfBoundsError` when `p` is not on the grid.
    pub fn collides(&self, p: Tile) -> (r: Result<bool, LightError>)
        requires
            self.wf(),
        ensures
            match r {
                Ok(b) => self.grid.in_bounds(p) && b == self.occupant(p) is Some,
                Err(e) => !self.grid.in_bounds(p) && e == LightError::OutOfBoundsError,
            },
    {
        let v = self.grid.get(p)?;
        Ok(v.is_some())
    }

    /// Scans the footprint of `obj` by column, then row, and reports the first
    /// occupant other than `id`. Reaching a tile off the grid before any such
    /// occupant gives `OutOfBoundsError`; `None` when every tile is on the grid
    /// and none holds another entity.
    pub fn transform_collides_with(&self, obj: &Transform2D, id: EntityId) -> (r: Result<
        Option<EntityId>,
        LightError,
    >)
        requires
            self.wf(),
            obj.fits(),
        ensures
            self.reports_conflict(obj.footprint(), id, r),
            r matches Ok(Some(_)) <==> self.overlaps_first(obj.footprint(), id),
    {
        let f = obj.as_rect2d();
        let mut x: i32 = f.min.x;
        while x < f.max.x
            invariant
                self.wf(),
                f == obj.footprint(),
                f.min.x <= x,
                x <= f.max.x || f.max.x <= f.min.x,
                forall|q: Tile|
                    #![trigger f.has_tile(q)]
                    f.has_tile(q) && q.x < x ==> self.grid.in_bounds(q) && !self.conflicts(q, id),
            decreases f.max.x - x,
        {
            let mut y: i32 = f.min.y;
            while y < f.max.y
                invariant
                    self.wf(),
                    f == obj.footprint(),
                    f.min.x <= x < f.max.x,
                    f.min.y <= y,
                    y <= f.max.y || f.max.y <= f.min.y,
                    self.clear_before(f, id, Tile { x, y }),
                decreases f.max.y - y,
            {
                let p = Tile { x, y };
                assert(f.has_tile(p));
                match self.grid.get(p) {
                    Err(_) => {
                        proof {
                            lemma_report_exclusive(*self, f, id, Err(LightError::OutOfBoundsError));
                        }
                        return Err(LightError::OutOfBoundsError);
                    },
                    Ok(v) => {
                        match *v {
                            Some(e) => {
                                if e != id {
                                    proof {
                                        assert(self.grid.cell(p) == Some(e));
                                        lemma_report_exclusive(*self, f, id, Ok(Some(e)));
                                    }
                                    return Ok(Some(e));
                                }
                            },
                            None => {},
                        }
                    },
                }
                y = y + 1;
            }
            x = x + 1;
        }
        proof {
            lemma_report_exclusive(*self, f, id, Ok(None));
        }
        Ok(None)
    }

    /// Whether an entity shaped like `obj`, moved so that its lower-left tile
    /// is `new_loc`, would overlap an occupied tile. The cache is not changed.
    /// `OutOfBoundsError` when the moved footprint does not lie wholly on the grid.
    pub fn would_collide_if_moved(&self, obj: &Transform2D, new_loc: &Tile) -> (r: Result<
        bool,
        LightError,
    >)
        requires
            self.wf(),
        ensures
            r is Err <==> !placed_within(self.grid.rect, *new_loc, obj.scale),
            r is Err ==> r == Err::<bool, LightError>(LightError::OutOfBoundsError),
            r matches Ok(b) ==> b == self.blocked_at(*new_loc, obj.scale),
            r == Ok::<bool, LightError>(false) <==> self.free_at(*new_loc, obj.scale),
    {
        let g = self.grid.rect();
        let t = *new_loc;
        let sx = obj.scale.x as i64;
        let sy = obj.scale.y as i64;
        let inside = sx == 0 || sy == 0 || (g.min.x <= t.x && t.x as i64 + sx <= g.max.x as i64
            && g.min.y <= t.y && t.y as i64 + sy <= g.max.y as i64);
        if !inside {
            return Err(LightError::OutOfBoundsError);
        }
        if sx == 0 || sy == 0 {
            proof {
                assert forall|q: Tile| #![trigger self.grid.cell(q)] !(footprint_at(t, obj.scale).has_tile(q)
                    && self.grid.cell(q) is Some) by {}
            }
            return Ok(false);
        }
        let f = Rect2D {
            min: t,
            max: Tile { x: (t.x as i64 + sx) as i32, y: (t.y as i64 + sy) as i32 },
        };
        assert(f.max.x == t.x + obj.scale.x && f.max.y == t.y + obj.scale.y);
        assert(f == footprint_at(t, obj.scale));
        let mut x: i32 = f.min.x;
        while x < f.max.x
            invariant
                self.wf(),
                f == footprint_at(t, obj.scale),
                t == *new_loc,
                placed_within(self.grid.rect, t, obj.scale),
                self.grid.rect.covers(f),
                f.min.x < f.max.x,
                f.min.y < f.max.y,
                f.min.x <= x <= f.max.x,
                forall|q: Tile|
                    #![trigger self.grid.cell(q)]
                    f.has_tile(q) && q.x < x ==> self.grid.cell(q) is None,
            decreases f.max.x - x,
        {
            let mut y: i32 = f.min.y;
            while y < f.max.y
                invariant
                    self.wf(),
                    f == footprint_at(t, obj.scale),
                    t == *new_loc,
                    placed_within(self.grid.rect, t, obj.scale),
                    self.grid.rect.covers(f),
                    f.min.y < f.max.y,
                    f.min.x <= x < f.max.x,
                    f.min.y <= y <= f.max.y,
                    forall|q: Tile|
                        #![trigger self.grid.cell(q)]
                        f.has_tile(q) && scan_before(q, Tile { x, y }) ==> self.grid.cell(q) is None,
                decreases f.max.y - y,
            {
                let p = Tile { x, y };
                assert(f.has_tile(p));
                match self.collides(p) {
                    Ok(true) => {
                        assert(self.grid.cell(p) is Some);
                        return Ok(true);
                    },
                    _ => {},
                }
                y = y + 1;
            }
            x = x + 1;
        }
        Ok(false)
    }

    /// Records `transform`'s footprint for `id`: the tiles of the footprint
    /// recorded before (if any) are cleared, then each unoccupied tile of the
    /// new footprint is claimed for `id`. A tile that another entity holds is
    /// left to it (the first writer wins); tiles off the grid are skipped.
    pub fn move_entity(&mut self, transform: &Transform2D, id: EntityId)
        requires
            old(self).wf(),
            transform.fits(),
        ensures
            final(self).wf(),
            old(self).moved_to(*final(self), transform.footprint(), id),
    {
        let ghost c0 = *self;
        let f = transform.as_rect2d();
        let prev = self.entities.insert(id.0, f);
        let ghost g1 = self.grid;
        match prev {
            Some(o) => {
                clear_footprint(&mut self.grid, o);
            },
            None => {},
        }
        let ghost g2 = self.grid;
        assert forall|t: Tile| #![trigger g2.cell(t)] g2.in_bounds(t) implies g2.cell(t)
            == c0.cleared_occupant(id, t) by {}
        claim_footprint(&mut self.grid, f, id);
        proof {
            assert forall|t: Tile|
                #![trigger self.grid.cell(t)]
                self.grid.in_bounds(t) && self.grid.cell(t) is Some implies {
                    let e = self.grid.cell(t)->Some_0;
                    self.entities@.contains_key(e.0) && self.entities@[e.0].has_tile(t)
                } by {
                assert(g2.cell(t) == c0.cleared_occupant(id, t));
                assert(c0.grid.cell(t) == c0.occupant(t));
            }
        }
    }
}

/// A scan reports an occupant exactly when a conflicting tile comes before
/// every tile off the grid.
pub proof fn lemma_report_exclusive(
    c: CollisionGridCache,
    f: Rect2D,
    id: EntityId,
    r: Result<Option<EntityId>, LightError>,
)
    requires
        c.reports_conflict(f, id, r),
    ensures
        r matches Ok(Some(_)) <==> c.overlaps_first(f, id),
{
    if c.overlaps_first(f, id) {
        let t = choose|t: Tile|
            #![trigger f.has_tile(t)]
            f.has_tile(t) && c.grid.in_bounds(t) && c.conflicts(t, id) && c.clear_before(f, id, t);
        match r {
            Ok(None) => {
                assert(c.grid.in_bounds(t) && !c.conflicts(t, id));
            },
            Err(_) => {
                let u = choose|u: Tile|
                    #![trigger f.has_tile(u)]
                    f.has_tile(u) && !c.grid.in_bounds(u) && c.clear_before(f, id, u);
                if scan_before(t, u) {
                    assert(!c.conflicts(t, id));
                } else {
                    assert(scan_before(u, t));
                    assert(c.grid.in_bounds(u));
                }
            },
            Ok(Some(_)) => {},
        }
    }
    if let Ok(Some(e)) = r {
        let t = choose|t: Tile|
            #![trigger f.has_tile(t)]
            f.has_tile(t) && c.grid.in_bounds(t) && c.grid.cell(t) == Some(e) && e != id
                && c.clear_before(f, id, t);
        assert(c.conflicts(t, id));
    }
}

/// Moving an entity twice leaves none of the tiles of its first footprint
/// that lie outside its second footprint marked with it.
pub proof fn lemma_move_clears_old_footprint(
    c0: CollisionGridCache,
    c1: CollisionGridCache,
    c2: CollisionGridCache,
    f1: Rect2D,
    f2: Rect2D,
    id: EntityId,
)
    requires
        c0.moved_to(c1, f1, id),
        c1.moved_to(c2, f2, id),
    ensures
        forall|t: Tile|
            #![trigger c2.grid.cell(t)]
            c2.grid.in_bounds(t) && f1.has_tile(t) && !f2.has_tile(t) ==> c2.occupant(t) != Some(
                id,
            ),
{
    assert forall|t: Tile|
        #![trigger c2.grid.cell(t)]
        c2.grid.in_bounds(t) && f1.has_tile(t) && !f2.has_tile(t) implies c2.occupant(t) != Some(
            id,
        ) by {
        assert(c1.entities@.contains_key(id.0) && c1.entities@[id.0] == f1);
    }
}

/// A tile held by entity `a` stays with `a` when entity `b` moves onto it,
/// unless the tile was part of `b`'s own previous footprint (which `b` clears).
pub proof fn lemma_first_writer_wins(
    c0: CollisionGridCache,
    c1: CollisionGridCache,
    f: Rect2D,
    a: EntityId,
    b: EntityId,
    t: Tile,
)
    requires
        c0.moved_to(c1, f, b),
        c0.grid.in_bounds(t),
        c0.occupant(t) == Some(a),
        a != b,
        f.has_tile(t),
        !(c0.entities@.contains_key(b.0) && c0.entities@[b.0].has_tile(t)),
    ensures
        c1.occupant(t) == Some(a),
{
    assert(c1.grid.in_bounds(t));
    assert(c1.grid.cell(t) == c0.moved_occupant(f, b, t));
}

/// When a tile of `b`'s footprint, wholly on the grid, is held by `a` and no
/// other tile of it holds an entity other than `b`, the collision scan for
/// `b` reports `a`.
pub proof fn lemma_conflict_reports_holder(
    c: CollisionGridCache,
    f: Rect2D,
    a: EntityId,
    b: EntityId,
    t: Tile,
    r: Result<Option<EntityId>, LightError>,
)
    requires
        c.reports_conflict(f, b, r),
        c.grid.rect.covers(f),
        f.has_tile(t),
        c.occupant(t) == Some(a),
        a != b,
        forall|q: Tile| #![trigger c.grid.cell(q)] f.has_tile(q) && q != t ==> !c.conflicts(q, b),
    ensures
        r == Ok::<Option<EntityId>, LightError>(Some(a)),
{
    assert(c.conflicts(t, b));
    match r {
        Ok(Some(e)) => {
            let w = choose|w: Tile|
                #![trigger f.has_tile(w)]
                f.has_tile(w) && c.grid.in_bounds(w) && c.grid.cell(w) == Some(e) && e != b
                    && c.clear_before(f, b, w);
            if w != t {
                assert(c.conflicts(w, b));
            }
        },
        Ok(None) => {},
        Err(_) => {
            let u = choose|u: Tile|
                #![trigger f.has_tile(u)]
                f.has_tile(u) && !c.grid.in_bounds(u) && c.clear_before(f, b, u);
            assert(c.grid.in_bounds(u));
        },
    }
}

} // verus!
