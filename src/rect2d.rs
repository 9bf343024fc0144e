use vstd::prelude::*;

use crate::arith::{floor_div, floor_div_tile, MAX_COORD, UNITS_PER_TILE};

verus! {

/// An integer tile coordinate.
#[derive(Clone, Copy, Debug, PartialEq, Eq, Structural)]
pub struct Tile {
    pub x: i32,
    pub y: i32,
}

/// A width and a height, in tiles.
#[derive(Clone, Copy, Debug, PartialEq, Eq, Structural)]
pub struct TileSize {
    pub x: u32,
    pub y: u32,
}

/// A continuous 2D position in fixed point: `UNITS_PER_TILE` units per tile.
#[derive(Clone, Copy, Debug, PartialEq, Eq, Structural)]
pub struct Point2 {
    pub x: i64,
    pub y: i64,
}

impl Tile {
    pub fn new(x: i32, y: i32) -> (r: Tile)
        ensures
            r == (Tile { x, y }),
    {
        Tile { x, y }
    }
}

impl TileSize {
    pub fn new(x: u32, y: u32) -> (r: TileSize)
        ensures
            r == (TileSize { x, y }),
    {
        TileSize { x, y }
    }
}

impl Point2 {
    pub fn new(x: i64, y: i64) -> (r: Point2)
        ensures
            r == (Point2 { x, y }),
    {
        Point2 { x, y }
    }

    /// Both coordinates lie within `MAX_COORD` of the origin.
    pub open spec fn in_range(self) -> bool {
        -MAX_COORD <= self.x <= MAX_COORD && -MAX_COORD <= self.y <= MAX_COORD
    }
}

/// The tile that covers the fixed-point coordinate `a`.
pub open spec fn tile_coord(a: i64) -> int {
    floor_div(a as int, UNITS_PER_TILE as int)
}

pub open spec fn fits_i32(v: int) -> bool {
    i32::MIN <= v <= i32::MAX
}

/// A continuous position whose covering tile is representable.
pub open spec fn point_has_tile(p: Point2) -> bool {
    fits_i32(tile_coord(p.x)) && fits_i32(tile_coord(p.y))
}

/// The tile covering `p`: both axes are floored.
pub open spec fn tile_of(p: Point2) -> Tile {
    Tile { x: tile_coord(p.x) as i32, y: tile_coord(p.y) as i32 }
}

/// The fixed-point position of a tile's lower-left corner.
pub open spec fn tile_origin(t: Tile) -> Point2 {
    Point2 { x: (t.x * UNITS_PER_TILE) as i64, y: (t.y * UNITS_PER_TILE) as i64 }
}

/// Maps a continuous position to its covering tile by flooring both axes.
pub fn tile_from_vec2(p: Point2) -> (r: Tile)
    requires
        point_has_tile(p),
    ensures
        r == tile_of(p),
{
    let x = floor_div_tile(p.x);
    let y = floor_div_tile(p.y);
    Tile { x: x as i32, y: y as i32 }
}

/// The fixed-point position of a tile's lower-left corner.
pub fn tile_to_point(t: Tile) -> (r: Point2)
    ensures
        r == tile_origin(t),
        point_has_tile(r),
        tile_of(r) == t,
{
    let r = Point2 { x: t.x as i64 * UNITS_PER_TILE, y: t.y as i64 * UNITS_PER_TILE };
    proof {
        assert((t.x as int * 1000) / 1000 == t.x) by (nonlinear_arith);
        assert((t.y as int * 1000) / 1000 == t.y) by (nonlinear_arith);
    }
    r
}

pub open spec fn min_i32(a: i32, b: i32) -> i32 {
    if a <= b { a } else { b }
}

pub open spec fn max_i32(a: i32, b: i32) -> i32 {
    if a >= b { a } else { b }
}

/// An axis-aligned integer rectangle given by its minimum and maximum corners.
#[derive(Clone, Copy, Debug, PartialEq, Eq, Structural)]
pub struct Rect2D {
    /// The minimum corner.
    pub min: Tile,
    /// The maximum corner.
    pub max: Tile,
}

impl Rect2D {
    /// `min <= max` on both axes.
    pub open spec fn wf(self) -> bool {
        self.min.x <= self.max.x && self.min.y <= self.max.y
    }

    pub open spec fn width_spec(self) -> int {
        self.max.x - self.min.x
    }

    pub open spec fn height_spec(self) -> int {
        self.max.y - self.min.y
    }

    /// Number of tiles in `[min, max)`.
    pub open spec fn area(self) -> int {
        self.width_spec() * self.height_spec()
    }

    pub open spec fn is_empty_spec(self) -> bool {
        self.min.x >= self.max.x || self.min.y >= self.max.y
    }

    /// `p` lies in the closed rectangle `[min, max]`.
    pub open spec fn contains_spec(self, p: Tile) -> bool {
        self.min.x <= p.x <= self.max.x && self.min.y <= p.y <= self.max.y
    }

    /// `p` lies in the half-open rectangle `[min, max)`: the tiles of the rectangle.
    pub open spec fn has_tile(self, p: Tile) -> bool {
        self.min.x <= p.x < self.max.x && self.min.y <= p.y < self.max.y
    }

    /// Row-major position of `p` among the rectangle's tiles.
    pub open spec fn index_spec(self, p: Tile) -> int {
        (p.y - self.min.y) * self.width_spec() + (p.x - self.min.x)
    }

    /// Every tile of `r` is a tile of `self` (vacuous when `r` is empty).
    pub open spec fn covers(self, r: Rect2D) -> bool {
        r.is_empty_spec() || (self.min.x <= r.min.x && r.max.x <= self.max.x && self.min.y
            <= r.min.y && r.max.y <= self.max.y)
    }

    pub open spec fn from_corners_spec(p0: Tile, p1: Tile) -> Rect2D {
        Rect2D {
            min: Tile {
                x: if p0.x <= p1.x { p0.x } else { p1.x },
                y: if p0.y <= p1.y { p0.y } else { p1.y },
            },
            max: Tile {
                x: if p0.x <= p1.x { p1.x } else { p0.x },
                y: if p0.y <= p1.y { p1.y } else { p0.y },
            },
        }
    }

    /// The rectangle with corners `(x0, y0)` and `(x1, y1)`, in either order.
    pub fn new(x0: i32, y0: i32, x1: i32, y1: i32) -> (r: Rect2D)
        ensures
            r == Rect2D::from_corners_spec(Tile { x: x0, y: y0 }, Tile { x: x1, y: y1 }),
            r.wf(),
    {
        Rect2D::from_corners(Tile { x: x0, y: y0 }, Tile { x: x1, y: y1 })
    }

    /// The rectangle with opposite corners `p0` and `p1`, in either order.
    pub fn from_corners(p0: Tile, p1: Tile) -> (r: Rect2D)
        ensures
            r == Rect2D::from_corners_spec(p0, p1),
            r.wf(),
    {
        let min = Tile {
            x: if p0.x <= p1.x { p0.x } else { p1.x },
            y: if p0.y <= p1.y { p0.y } else { p1.y },
        };
        let max = Tile {
            x: if p0.x <= p1.x { p1.x } else { p0.x },
            y: if p0.y <= p1.y { p1.y } else { p0.y },
        };
        Rect2D { min, max }
    }

    /// The rectangle is degenerate: it holds no tile.
    pub fn is_empty(&self) -> (r: bool)
        ensures
            r == self.is_empty_spec(),
            r <==> (forall|p: Tile| !self.has_tile(p)),
    {
        proof {
            if !self.is_empty_spec() {
                assert(self.has_tile(self.min));
            }
        }
        self.min.x >= self.max.x || self.min.y >= self.max.y
    }

    pub fn width(&self) -> (r: i32)
        requires
            fits_i32(self.width_spec()),
        ensures
            r == self.width_spec(),
    {
        self.max.x - self.min.x
    }

    pub fn height(&self) -> (r: i32)
        requires
            fits_i32(self.height_spec()),
        ensures
            r == self.height_spec(),
    {
        self.max.y - self.min.y
    }

    /// `max - min` on both axes.
    pub fn size(&self) -> (r: Tile)
        requires
            fits_i32(self.width_spec()),
            fits_i32(self.height_spec()),
        ensures
            r.x == self.width_spec(),
            r.y == self.height_spec(),
    {
        Tile { x: self.max.x - self.min.x, y: self.max.y - self.min.y }
    }

    /// Half of `size()`, as a fixed-point offset.
    pub fn half_size(&self) -> (r: Point2)
        ensures
            r.x == self.width_spec() * (UNITS_PER_TILE / 2),
            r.y == self.height_spec() * (UNITS_PER_TILE / 2),
    {
        let w = self.max.x as i64 - self.min.x as i64;
        let h = self.max.y as i64 - self.min.y as i64;
        Point2 { x: w * (UNITS_PER_TILE / 2), y: h * (UNITS_PER_TILE / 2) }
    }

    /// The midpoint of the two corners, as a fixed-point position.
    pub fn center(&self) -> (r: Point2)
        ensures
            r.x == (self.min.x + self.max.x) * (UNITS_PER_TILE / 2),
            r.y == (self.min.y + self.max.y) * (UNITS_PER_TILE / 2),
    {
        let x = self.min.x as i64 + self.max.x as i64;
        let y = self.min.y as i64 + self.max.y as i64;
        Point2 { x: x * (UNITS_PER_TILE / 2), y: y * (UNITS_PER_TILE / 2) }
    }

    /// `p` lies within the rectangle, edges included.
    pub fn contains(&self, p: Tile) -> (r: bool)
        ensures
            r == self.contains_spec(p),
    {
        self.min.x <= p.x && p.x <= self.max.x && self.min.y <= p.y && p.y <= self.max.y
    }

    /// `p` lies within the rectangle, the maximum edges excluded.
    pub fn contains_exclusive_max(&self, p: Tile) -> (r: bool)
        ensures
            r == self.has_tile(p),
    {
        self.min.x <= p.x && p.x < self.max.x && self.min.y <= p.y && p.y < self.max.y
    }

    /// The smallest rectangle enclosing both rectangles.
    pub fn union(&self, other: Rect2D) -> (r: Rect2D)
        ensures
            r.min.x == if self.min.x <= other.min.x { self.min.x } else { other.min.x },
            r.min.y == if self.min.y <= other.min.y { self.min.y } else { other.min.y },
            r.max.x == if self.max.x >= other.max.x { self.max.x } else { other.max.x },
            r.max.y == if self.max.y >= other.max.y { self.max.y } else { other.max.y },
    {
        Rect2D {
            min: Tile {
                x: if self.min.x <= other.min.x { self.min.x } else { other.min.x },
                y: if self.min.y <= other.min.y { self.min.y } else { other.min.y },
            },
            max: Tile {
                x: if self.max.x >= other.max.x { self.max.x } else { other.max.x },
                y: if self.max.y >= other.max.y { self.max.y } else { other.max.y },
            },
        }
    }

    /// The smallest rectangle enclosing the rectangle and the point `p`.
    pub fn union_point(&self, p: Tile) -> (r: Rect2D)
        ensures
            r.min.x == if self.min.x <= p.x { self.min.x } else { p.x },
            r.min.y == if self.min.y <= p.y { self.min.y } else { p.y },
            r.max.x == if self.max.x >= p.x { self.max.x } else { p.x },
            r.max.y == if self.max.y >= p.y { self.max.y } else { p.y },
            self.wf() ==> r.contains_spec(p),
    {
        Rect2D {
            min: Tile {
                x: if self.min.x <= p.x { self.min.x } else { p.x },
                y: if self.min.y <= p.y { self.min.y } else { p.y },
            },
            max: Tile {
                x: if self.max.x >= p.x { self.max.x } else { p.x },
                y: if self.max.y >= p.y { self.max.y } else { p.y },
            },
        }
    }

    /// The largest rectangle inside both. Disjoint rectangles give a collapsed
    /// rectangle (its minimum is pulled down to its maximum), which `is_empty`.
    pub fn intersect(&self, other: Rect2D) -> (r: Rect2D)
        ensures
            r.max.x == min_i32(self.max.x, other.max.x),
            r.max.y == min_i32(self.max.y, other.max.y),
            r.min.x == min_i32(max_i32(self.min.x, other.min.x), r.max.x),
            r.min.y == min_i32(max_i32(self.min.y, other.min.y), r.max.y),
            r.wf(),
            forall|p: Tile| r.has_tile(p) <==> (self.has_tile(p) && other.has_tile(p)),
    {
        let max = Tile {
            x: if self.max.x <= other.max.x { self.max.x } else { other.max.x },
            y: if self.max.y <= other.max.y { self.max.y } else { other.max.y },
        };
        let lo_x = if self.min.x >= other.min.x { self.min.x } else { other.min.x };
        let lo_y = if self.min.y >= other.min.y { self.min.y } else { other.min.y };
        let min = Tile {
            x: if lo_x <= max.x { lo_x } else { max.x },
            y: if lo_y <= max.y { lo_y } else { max.y },
        };
        Rect2D { min, max }
    }

    /// Grows the rectangle by `inset` on every side (shrinks it when negative);
    /// a minimum that passes the maximum is pulled down to it.
    pub fn inset(&self, inset: i32) -> (r: Rect2D)
        requires
            fits_i32(self.min.x - inset),
            fits_i32(self.min.y - inset),
            fits_i32(self.max.x + inset),
            fits_i32(self.max.y + inset),
        ensures
            r.max.x == self.max.x + inset,
            r.max.y == self.max.y + inset,
            r.min.x == if self.min.x - inset <= self.max.x + inset {
                self.min.x - inset
            } else {
                self.max.x + inset
            },
            r.min.y == if self.min.y - inset <= self.max.y + inset {
                self.min.y - inset
            } else {
                self.max.y + inset
            },
            r.wf(),
    {
        let max = Tile { x: self.max.x + inset, y: self.max.y + inset };
        let lo_x = self.min.x - inset;
        let lo_y = self.min.y - inset;
        let min = Tile {
            x: if lo_x <= max.x { lo_x } else { max.x },
            y: if lo_y <= max.y { lo_y } else { max.y },
        };
        Rect2D { min, max }
    }

    /// The row-major index of tile `p`, or `None` when `p` is not a tile of the
    /// rectangle.
    pub fn index_for_point(&self, p: Tile) -> (r: Option<usize>)
        requires
            self.area() <= usize::MAX,
        ensures
            r is None <==> !self.has_tile(p),
            r matches Some(i) ==> i == self.index_spec(p) && i < self.area(),
    {
        if !self.contains_exclusive_max(p) {
            return None;
        }
        let dy = (p.y as i64 - self.min.y as i64) as u64;
        let dx = (p.x as i64 - self.min.x as i64) as u64;
        let w = (self.max.x as i64 - self.min.x as i64) as u64;
        proof {
            lemma_index_in_area(*self, p);
        }
        let i = dy * w + dx;
        Some(i as usize)
    }
}

/// The index of a tile of `r` lies in `[0, area)`.
pub proof fn lemma_index_in_area(r: Rect2D, p: Tile)
    requires
        r.has_tile(p),
    ensures
        0 <= r.index_spec(p) < r.area(),
        r.index_spec(p) == (p.y - r.min.y) * r.width_spec() + (p.x - r.min.x),
{
    let dy = p.y - r.min.y;
    let dx = p.x - r.min.x;
    let w = r.width_spec();
    let h = r.height_spec();
    assert(0 <= dy * w + dx < w * h) by (nonlinear_arith)
        requires 0 <= dy < h, 0 <= dx < w;
}

/// Distinct tiles of a rectangle have distinct indices.
pub proof fn lemma_index_injective(r: Rect2D, p: Tile, q: Tile)
    requires
        r.has_tile(p),
        r.has_tile(q),
        p != q,
    ensures
        r.index_spec(p) != r.index_spec(q),
{
    let w = r.width_spec();
    let (py, px, qy, qx) = (p.y - r.min.y, p.x - r.min.x, q.y - r.min.y, q.x - r.min.x);
    if py == qy {
        assert(px != qx);
    } else {
        assert(py * w + px != qy * w + qx) by (nonlinear_arith)
            requires py != qy, 0 <= px < w, 0 <= qx < w, py >= 0, qy >= 0;
    }
}

} // verus!
