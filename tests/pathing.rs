use dorf::error::LightError;
use dorf::pathing::{CollisionGridCache, EntityId};
use dorf::rect2d::{Tile, TileSize};
use dorf::transform::{Loc, Transform2D};

fn at(x: i32, y: i32, w: u32, h: u32) -> Transform2D {
    Transform2D {
        scale: TileSize::new(w, h),
        loc: Loc { x: x as i64 * 1000, y: y as i64 * 1000, z: 0 },
    }
}

fn occupant(c: &CollisionGridCache, x: i32, y: i32) -> Option<EntityId> {
    *c.grid.get(Tile::new(x, y)).unwrap()
}

#[test]
fn new_cache_is_empty() {
    let c = CollisionGridCache::new(Tile::new(0, 0), TileSize::new(4, 4));
    for x in 0..4 {
        for y in 0..4 {
            assert_eq!(c.collides(Tile::new(x, y)), Ok(false));
        }
    }
    assert_eq!(c.collides(Tile::new(4, 0)), Err(LightError::OutOfBoundsError));
    assert!(c.entities.is_empty());
}

#[test]
fn move_entity_marks_footprint() {
    let mut c = CollisionGridCache::new(Tile::new(0, 0), TileSize::new(10, 10));
    let wall = EntityId(7);
    c.move_entity(&at(3, 0, 1, 5), wall);
    for y in 0..5 {
        assert_eq!(occupant(&c, 3, y), Some(wall));
    }
    assert_eq!(occupant(&c, 3, 5), None);
    assert_eq!(occupant(&c, 2, 0), None);
    assert_eq!(c.collides(Tile::new(3, 4)), Ok(true));
}

#[test]
fn move_entity_clears_old_footprint() {
    let mut c = CollisionGridCache::new(Tile::new(0, 0), TileSize::new(10, 10));
    let id = EntityId(1);
    c.move_entity(&at(0, 0, 2, 2), id);
    c.move_entity(&at(1, 1, 2, 2), id);
    assert_eq!(occupant(&c, 0, 0), None);
    assert_eq!(occupant(&c, 1, 0), None);
    assert_eq!(occupant(&c, 0, 1), None);
    assert_eq!(occupant(&c, 1, 1), Some(id));
    assert_eq!(occupant(&c, 2, 2), Some(id));
    assert_eq!(c.entities.get(&1).map(|r| r.min), Some(Tile::new(1, 1)));
}

#[test]
fn first_writer_wins() {
    let mut c = CollisionGridCache::new(Tile::new(0, 0), TileSize::new(10, 10));
    let a = EntityId(1);
    let b = EntityId(2);
    c.move_entity(&at(4, 4, 1, 1), a);
    c.move_entity(&at(3, 4, 2, 1), b);
    assert_eq!(occupant(&c, 4, 4), Some(a));
    assert_eq!(occupant(&c, 3, 4), Some(b));
    assert_eq!(c.transform_collides_with(&at(3, 4, 2, 1), b), Ok(Some(a)));
    assert_eq!(c.transform_collides_with(&at(4, 4, 1, 1), a), Ok(None));
}

#[test]
fn transform_collides_with_reports_first_in_scan_order() {
    let mut c = CollisionGridCache::new(Tile::new(0, 0), TileSize::new(10, 10));
    c.move_entity(&at(2, 1, 1, 1), EntityId(5));
    c.move_entity(&at(1, 2, 1, 1), EntityId(6));
    // Columns are scanned first: (1, 2) comes before (2, 1).
    assert_eq!(c.transform_collides_with(&at(1, 1, 2, 2), EntityId(9)), Ok(Some(EntityId(6))));
    assert_eq!(
        c.transform_collides_with(&at(9, 9, 2, 1), EntityId(9)),
        Err(LightError::OutOfBoundsError)
    );
}

#[test]
fn moving_away_frees_shared_tile() {
    let mut c = CollisionGridCache::new(Tile::new(0, 0), TileSize::new(10, 10));
    let a = EntityId(1);
    let b = EntityId(2);
    c.move_entity(&at(4, 4, 1, 1), a);
    c.move_entity(&at(4, 4, 1, 1), b);
    assert_eq!(occupant(&c, 4, 4), Some(a));
    c.move_entity(&at(0, 0, 1, 1), a);
    assert_eq!(occupant(&c, 4, 4), None);
    assert_eq!(occupant(&c, 0, 0), Some(a));
}

#[test]
fn would_collide_if_moved_checks_moved_footprint() {
    let mut c = CollisionGridCache::new(Tile::new(0, 0), TileSize::new(10, 10));
    c.move_entity(&at(3, 0, 1, 5), EntityId(1));
    let agent = at(0, 0, 1, 1);
    for y in 0..5 {
        assert_eq!(c.would_collide_if_moved(&agent, &Tile::new(3, y)), Ok(true));
    }
    assert_eq!(c.would_collide_if_moved(&agent, &Tile::new(3, 5)), Ok(false));
    assert_eq!(c.would_collide_if_moved(&at(0, 0, 2, 1), &Tile::new(2, 7)), Ok(false));
    assert_eq!(c.would_collide_if_moved(&at(0, 0, 2, 1), &Tile::new(2, 4)), Ok(true));
    assert_eq!(
        c.would_collide_if_moved(&agent, &Tile::new(10, 0)),
        Err(LightError::OutOfBoundsError)
    );
    assert_eq!(
        c.would_collide_if_moved(&at(0, 0, 2, 2), &Tile::new(9, 0)),
        Err(LightError::OutOfBoundsError)
    );
    assert_eq!(occupant(&c, 0, 0), None);
}

#[test]
fn footprint_partly_off_grid_claims_inside_tiles() {
    let mut c = CollisionGridCache::new(Tile::new(0, 0), TileSize::new(3, 3));
    c.move_entity(&at(2, 2, 2, 2), EntityId(4));
    assert_eq!(occupant(&c, 2, 2), Some(EntityId(4)));
    assert_eq!(occupant(&c, 1, 1), None);
}

#[test]
fn conflict_before_off_grid_tile_is_reported() {
    let mut c = CollisionGridCache::new(Tile::new(0, 0), TileSize::new(5, 5));
    c.move_entity(&at(3, 2, 1, 1), EntityId(1));
    // Footprint columns 3..6: column 3 holds the wall, column 5 is off the grid.
    assert_eq!(c.transform_collides_with(&at(3, 2, 3, 1), EntityId(2)), Ok(Some(EntityId(1))));
    // Here the off-grid column comes first.
    assert_eq!(
        c.transform_collides_with(&at(-1, 2, 5, 1), EntityId(2)),
        Err(LightError::OutOfBoundsError)
    );
}
