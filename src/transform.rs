use vstd::prelude::*;

use crate::arith::{floor_div, floor_div_tile, MAX_COORD, UNITS_PER_TILE};
use crate::rect2d::{fits_i32, point_has_tile, tile_from_vec2, tile_of, Point2, Rect2D, Tile, TileSize};

verus! {

/// A fixed-point position with a depth level (`UNITS_PER_TILE` units per tile).
#[derive(Clone, Copy, Debug, PartialEq, Eq, Structural)]
pub struct Loc {
    pub x: i64,
    pub y: i64,
    pub z: i64,
}

/// An entity's continuous position and its integer scale in tiles.
#[derive(Clone, Copy, Debug, PartialEq, Eq, Structural)]
pub struct Transform2D {
    pub scale: TileSize,
    pub loc: Loc,
}

impl Loc {
    pub open spec fn xy(self) -> Point2 {
        Point2 { x: self.x, y: self.y }
    }
}

/// The footprint of an entity of scale `scale` whose lower-left tile is `t`.
pub open spec fn footprint_at(t: Tile, scale: TileSize) -> Rect2D {
    Rect2D {
        min: t,
        max: Tile { x: (t.x + scale.x) as i32, y: (t.y + scale.y) as i32 },
    }
}

/// A footprint at `t` is representable.
pub open spec fn footprint_fits(t: Tile, scale: TileSize) -> bool {
    fits_i32(t.x + scale.x) && fits_i32(t.y + scale.y)
}

/// `z` in tiles, rounded to the nearest whole tile, halves away from zero.
pub open spec fn round_tile(z: int) -> int {
    if z >= 0 {
        floor_div(z + UNITS_PER_TILE / 2, UNITS_PER_TILE as int)
    } else {
        -floor_div(-z + UNITS_PER_TILE / 2, UNITS_PER_TILE as int)
    }
}

impl Transform2D {
    /// The footprint can be represented in tile coordinates.
    pub open spec fn fits(self) -> bool {
        point_has_tile(self.loc.xy()) && footprint_fits(tile_of(self.loc.xy()), self.scale)
    }

    pub open spec fn tile_spec(self) -> Tile {
        tile_of(self.loc.xy())
    }

    /// The rectangle of tiles that the entity covers.
    pub open spec fn footprint(self) -> Rect2D {
        footprint_at(self.tile_spec(), self.scale)
    }

    /// The depth level, rounded to the nearest whole tile (halves away from zero).
    pub fn z_lvl(&self) -> (r: i32)
        requires
            -MAX_COORD <= self.loc.z <= MAX_COORD,
            fits_i32(round_tile(self.loc.z as int)),
        ensures
            r == round_tile(self.loc.z as int),
    {
        let z = self.loc.z;
        if z >= 0 {
            let q = floor_div_tile(z + 500);
            q as i32
        } else {
            let q = floor_div_tile(-z + 500);
            (-q) as i32
        }
    }

    /// The tile under the entity's position.
    pub fn as_tile(&self) -> (r: Tile)
        requires
            point_has_tile(self.loc.xy()),
        ensures
            r == self.tile_spec(),
    {
        tile_from_vec2(Point2 { x: self.loc.x, y: self.loc.y })
    }

    /// The footprint: from the position's tile, `scale` tiles on each axis.
    pub fn as_rect2d(&self) -> (r: Rect2D)
        requires
            self.fits(),
        ensures
            r == self.footprint(),
            r.wf(),
    {
        Rect2D::from_transform2d(self)
    }
}

impl Rect2D {
    /// The footprint of `transform`: its position floored to a tile, spanning
    /// `scale` tiles.
    pub fn from_transform2d(transform: &Transform2D) -> (r: Rect2D)
        requires
            transform.fits(),
        ensures
            r == transform.footprint(),
            r.wf(),
    {
        let p0 = tile_from_vec2(Point2 { x: transform.loc.x, y: transform.loc.y });
        let p1 = Tile {
            x: (p0.x as i64 + transform.scale.x as i64) as i32,
            y: (p0.y as i64 + transform.scale.y as i64) as i32,
        };
        Rect2D::from_corners(p0, p1)
    }
}

} // verus!
