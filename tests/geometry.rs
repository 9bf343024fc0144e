use dorf::arith::{floor_div_tile, isqrt};
use dorf::rect2d::{tile_from_vec2, tile_to_point, Point2, Rect2D, Tile};
use dorf::transform::{Loc, Transform2D};
use dorf::rect2d::TileSize;

#[test]
fn rect_from_corners_orders_corners() {
    let r = Rect2D::new(2, 3, 5, -1);
    assert_eq!(r.min, Tile::new(2, -1));
    assert_eq!(r.max, Tile::new(5, 3));
    assert_eq!(r.width(), 3);
    assert_eq!(r.height(), 4);
    assert_eq!(r.size(), Tile::new(3, 4));
}

#[test]
fn rect_intersect_overlapping() {
    let r1 = Rect2D::new(0, 0, 5, 1);
    let r2 = Rect2D::new(1, -1, 3, 3);
    let r = r1.intersect(r2);
    assert_eq!(r.min, Tile::new(1, 0));
    assert_eq!(r.max, Tile::new(3, 1));
    assert!(!r.is_empty());
}

#[test]
fn rect_intersect_disjoint_is_empty() {
    let r1 = Rect2D::new(0, 0, 2, 2);
    let r2 = Rect2D::new(5, 5, 8, 8);
    let r = r1.intersect(r2);
    assert!(r.is_empty());
    assert_eq!(r.min, Tile::new(2, 2));
    assert_eq!(r.max, Tile::new(2, 2));
}

#[test]
fn rect_union_and_union_point() {
    let r1 = Rect2D::new(0, 0, 5, 1);
    let r2 = Rect2D::new(1, -1, 3, 3);
    let u = r1.union(r2);
    assert_eq!(u.min, Tile::new(0, -1));
    assert_eq!(u.max, Tile::new(5, 3));
    let p = r1.union_point(Tile::new(3, 6));
    assert_eq!(p.min, Tile::new(0, 0));
    assert_eq!(p.max, Tile::new(5, 6));
}

#[test]
fn rect_inset_grows_and_collapses() {
    let r = Rect2D::new(0, 0, 5, 1);
    let g = r.inset(3);
    assert_eq!(g.min, Tile::new(-3, -3));
    assert_eq!(g.max, Tile::new(8, 4));
    let s = r.inset(-1);
    assert_eq!(s.max, Tile::new(4, 0));
    assert_eq!(s.min, Tile::new(1, 0));
    assert!(s.is_empty());
}

#[test]
fn rect_contains_inclusive_and_exclusive() {
    let r = Rect2D::new(0, 0, 5, 1);
    assert!(r.contains(Tile::new(5, 1)));
    assert!(!r.contains_exclusive_max(Tile::new(5, 1)));
    assert!(r.contains_exclusive_max(Tile::new(4, 0)));
    assert!(!r.contains(Tile::new(-1, 0)));
}

#[test]
fn rect_index_for_point_row_major() {
    let r = Rect2D::new(-2, 10, 3, 14);
    assert_eq!(r.index_for_point(Tile::new(-2, 10)), Some(0));
    assert_eq!(r.index_for_point(Tile::new(1, 10)), Some(3));
    assert_eq!(r.index_for_point(Tile::new(-2, 11)), Some(5));
    assert_eq!(r.index_for_point(Tile::new(2, 13)), Some(19));
    assert_eq!(r.index_for_point(Tile::new(3, 13)), None);
    assert_eq!(r.index_for_point(Tile::new(0, 9)), None);
}

#[test]
fn rect_center_and_half_size() {
    let r = Rect2D::new(0, 0, 5, 1);
    assert_eq!(r.center(), Point2::new(2_500, 500));
    assert_eq!(r.half_size(), Point2::new(2_500, 500));
}

#[test]
fn tile_from_vec2_floors_both_axes() {
    assert_eq!(tile_from_vec2(Point2::new(2_999, 0)), Tile::new(2, 0));
    assert_eq!(tile_from_vec2(Point2::new(-1, -1_000)), Tile::new(-1, -1));
    assert_eq!(tile_from_vec2(Point2::new(-1_001, 1_000)), Tile::new(-2, 1));
    assert_eq!(tile_to_point(Tile::new(-3, 4)), Point2::new(-3_000, 4_000));
    assert_eq!(floor_div_tile(-1), -1);
    assert_eq!(floor_div_tile(999), 0);
}

#[test]
fn transform_footprint_and_depth() {
    let t = Transform2D { scale: TileSize::new(1, 5), loc: Loc { x: 3_400, y: -200, z: 1_500 } };
    assert_eq!(t.as_tile(), Tile::new(3, -1));
    let r = t.as_rect2d();
    assert_eq!(r.min, Tile::new(3, -1));
    assert_eq!(r.max, Tile::new(4, 4));
    assert_eq!(Rect2D::from_transform2d(&t), r);
    assert_eq!(t.z_lvl(), 2);
    let u = Transform2D { scale: TileSize::new(1, 1), loc: Loc { x: 0, y: 0, z: -1_500 } };
    assert_eq!(u.z_lvl(), -2);
    let v = Transform2D { scale: TileSize::new(1, 1), loc: Loc { x: 0, y: 0, z: 1_499 } };
    assert_eq!(v.z_lvl(), 1);
}

#[test]
fn isqrt_exact_values() {
    assert_eq!(isqrt(0), 0);
    assert_eq!(isqrt(1), 1);
    assert_eq!(isqrt(200), 14);
    assert_eq!(isqrt(1_000_000), 1_000);
    assert_eq!(isqrt(999_999), 999);
}
