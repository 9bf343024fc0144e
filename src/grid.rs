use vstd::prelude::*;

use crate::error::LightError;
use crate::rect2d::{lemma_index_in_area, lemma_index_injective, Rect2D, Tile, TileSize};
use crate::transform::{footprint_at, footprint_fits};

verus! {

/// A dense rectangular array of cells addressed by tile coordinates. `rect`
/// is the region of world space that the grid covers; cells are stored row by
/// row.
#[derive(Clone, Debug)]
pub struct Grid2D<T> {
    pub data: Vec<T>,
    pub rect: Rect2D,
}

impl<T> Grid2D<T> {
    /// Every tile of `rect` has exactly one cell.
    pub open spec fn wf(&self) -> bool {
        self.rect.wf() && self.data@.len() == self.rect.area()
    }

    /// The cell of tile `p` (meaningful when `p` is a tile of `rect`).
    pub open spec fn cell(&self, p: Tile) -> T {
        self.data@[self.rect.index_spec(p)]
    }

    /// Whether `p` is a tile of the grid.
    pub open spec fn in_bounds(&self, p: Tile) -> bool {
        self.rect.has_tile(p)
    }

    /// `new` is `old` with the cell of `p` replaced by `v`.
    pub open spec fn is_set_of(&self, old: Grid2D<T>, p: Tile, v: T) -> bool {
        &&& self.rect == old.rect
        &&& self.data@ == old.data@.update(old.rect.index_spec(p), v)
    }

    /// Builds a grid from its cells, stored row by row, and the region it covers.
    pub fn from_parts(data: Vec<T>, rect: Rect2D) -> (r: Grid2D<T>)
        ensures
            r.data@ == data@,
            r.rect == rect,
    {
        Grid2D { data, rect }
    }

    pub fn rect(&self) -> (r: &Rect2D)
        ensures
            *r == self.rect,
    {
        &self.rect
    }

    fn idx_for_point(&self, p: Tile) -> (r: Result<usize, LightError>)
        requires
            self.wf(),
        ensures
            match r {
                Ok(i) => self.in_bounds(p) && i == self.rect.index_spec(p) && i < self.data@.len(),
                Err(e) => !self.in_bounds(p) && e == LightError::OutOfBoundsError,
            },
    {
        assert(self.data@.len() == self.data.len());
        match self.rect.index_for_point(p) {
            Some(i) => Ok(i),
            None => Err(LightError::OutOfBoundsError),
        }
    }

    /// The cell of `p`, or `OutOfBoundsError` when `p` is not a tile of the grid.
    pub fn get(&self, p: Tile) -> (r: Result<&T, LightError>)
        requires
            self.wf(),
        ensures
            match r {
                Ok(v) => self.in_bounds(p) && *v == self.cell(p),
                Err(e) => !self.in_bounds(p) && e == LightError::OutOfBoundsError,
            },
    {
        let i = self.idx_for_point(p)?;
        Ok(&self.data[i])
    }

    /// The cell of `p`, for writing; `OutOfBoundsError` when `p` is not a tile
    /// of the grid.
    pub fn get_mut(&mut self, p: Tile) -> (r: Result<&mut T, LightError>)
        requires
            old(self).wf(),
        ensures
            old(self).in_bounds(p) ==> (r matches Ok(m) && *m == old(self).cell(p)
                && final(self).is_set_of(*old(self), p, *final(m))),
            !old(self).in_bounds(p) ==> r == Err::<&mut T, LightError>(LightError::OutOfBoundsError)
                && *final(self) == *old(self),
    {
        let i = match self.idx_for_point(p) {
            Ok(i) => i,
            Err(e) => return Err(e),
        };
        Ok(&mut self.data[i])
    }

    /// Replaces the cell at row-major index `idx`.
    pub fn set_idx(&mut self, idx: usize, v: T)
        requires
            idx < old(self).data@.len(),
        ensures
            final(self).rect == old(self).rect,
            final(self).data@ == old(self).data@.update(idx as int, v),
    {
        self.data.set(idx, v);
    }

    /// Stores `v` in the cell of `p`. A tile outside the grid gives
    /// `OutOfBoundsError` and leaves every cell as it was.
    pub fn set(&mut self, p: Tile, v: T) -> (r: Result<(), LightError>)
        requires
            old(self).wf(),
        ensures
            final(self).wf(),
            r is Ok <==> old(self).in_bounds(p),
            r is Ok ==> final(self).is_set_of(*old(self), p, v),
            r is Err ==> r == Err::<(), LightError>(LightError::OutOfBoundsError) && *final(self)
                == *old(self),
            forall|q: Tile|
                #![trigger final(self).cell(q)]
                final(self).in_bounds(q) ==> final(self).cell(q) == if r is Ok && q == p {
                    v
                } else {
                    old(self).cell(q)
                },
    {
        let i = self.idx_for_point(p)?;
        self.data.set(i, v);
        proof {
            assert forall|q: Tile| #![trigger self.cell(q)] self.in_bounds(q) implies self.cell(q)
                == if q == p { v } else { old(self).cell(q) } by {
                lemma_index_in_area(self.rect, q);
                if q != p {
                    lemma_index_injective(self.rect, p, q);
                }
            }
        }
        Ok(())
    }
}

impl<T: Copy> Grid2D<T> {
    /// A grid covering `size` tiles from `topleft`, every cell holding `fill`.
    pub fn new(topleft: Tile, size: TileSize, fill: T) -> (r: Grid2D<T>)
        requires
            footprint_fits(topleft, size),
            size.x * size.y <= usize::MAX,
        ensures
            r.wf(),
            r.rect == footprint_at(topleft, size),
            forall|p: Tile| #[trigger] r.in_bounds(p) ==> r.cell(p) == fill,
    {
        let n: usize = (size.x as u64 * size.y as u64) as usize;
        let mut data: Vec<T> = Vec::new();
        let mut k: usize = 0;
        while k < n
            invariant
                k <= n,
                data@.len() == k,
                forall|j: int| 0 <= j < k ==> data@[j] == fill,
            decreases n - k,
        {
            data.push(fill);
            k = k + 1;
        }
        let max = Tile {
            x: (topleft.x as i64 + size.x as i64) as i32,
            y: (topleft.y as i64 + size.y as i64) as i32,
        };
        let rect = Rect2D::from_corners(topleft, max);
        let r = Grid2D { data, rect };
        proof {
            assert forall|p: Tile| #[trigger] r.in_bounds(p) implies r.cell(p) == fill by {
                lemma_index_in_area(r.rect, p);
            }
        }
        r
    }
}

/// Reading a tile of the grid after writing `v` to it gives `v`.
pub proof fn lemma_set_then_get<T>(g0: Grid2D<T>, g1: Grid2D<T>, p: Tile, v: T)
    requires
        g0.wf(),
        g0.in_bounds(p),
        g1.is_set_of(g0, p, v),
    ensures
        g1.wf(),
        g1.in_bounds(p),
        g1.cell(p) == v,
{
    lemma_index_in_area(g0.rect, p);
}

} // verus!
