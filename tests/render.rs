use dorf::rect2d::Point2;
use dorf::render::{normalize_point, normalized_point_to_tile};

// Positions are fixed point (1000 units per tile); normalized values are thousandths.

#[test]
fn test_normalize_point() {
    let min = Point2::new(0, 0);
    let max = Point2::new(10_000, 10_000);

    let norm_min = normalize_point(min, max, min);
    assert_eq!(norm_min, Point2::new(0, 0));
    let norm_max = normalize_point(max, max, min);
    assert_eq!(norm_max, Point2::new(1000, 1000));
    assert_eq!(normalize_point(Point2::new(5_000, 5_000), max, min), Point2::new(500, 500));

    let min = Point2::new(0, 0);
    let max = Point2::new(10_000, 20_000);
    assert_eq!(normalize_point(Point2::new(5_000, 5_000), max, min), Point2::new(500, 250));
}

#[test]
fn test_normalize_point_to_tile() {
    assert_eq!(normalized_point_to_tile(Point2::new(0, 0), 10, 10), (0u16, 0u16));
    assert_eq!(normalized_point_to_tile(Point2::new(1000, 1000), 10, 10), (10u16, 10u16));
    assert_eq!(normalized_point_to_tile(Point2::new(500, 500), 10, 10), (5u16, 5u16));

    assert_eq!(normalized_point_to_tile(Point2::new(500, 500), 10, 20), (5u16, 10u16));
}

#[test]
fn normalize_point_below_min_is_negative() {
    let min = Point2::new(1_000, 0);
    let max = Point2::new(5_000, 4_000);
    assert_eq!(normalize_point(Point2::new(0, 1_000), max, min), Point2::new(-250, 250));
}

#[test]
fn normalized_point_to_tile_clamps() {
    assert_eq!(normalized_point_to_tile(Point2::new(-500, 2_000), 10, 40_000), (0u16, 65535u16));
}
