use dorf::error::LightError;
use dorf::grid::Grid2D;
use dorf::rect2d::{Tile, TileSize};

#[test]
fn grid_set_then_get_round_trip() {
    let mut g = Grid2D::new(Tile::new(-2, 3), TileSize::new(4, 3), 0u8);
    for x in -2..2 {
        for y in 3..6 {
            let v = ((x + 10) * 7 + y) as u8;
            assert_eq!(g.set(Tile::new(x, y), v), Ok(()));
            assert_eq!(g.get(Tile::new(x, y)), Ok(&v));
        }
    }
    assert_eq!(g.get(Tile::new(-2, 3)), Ok(&((8 * 7 + 3) as u8)));
    assert_eq!(g.data.len(), 12);
}

#[test]
fn grid_out_of_bounds_is_reported() {
    let mut g = Grid2D::new(Tile::new(0, 0), TileSize::new(3, 2), 1u32);
    assert_eq!(g.get(Tile::new(3, 0)), Err(LightError::OutOfBoundsError));
    assert_eq!(g.get(Tile::new(0, 2)), Err(LightError::OutOfBoundsError));
    assert_eq!(g.get(Tile::new(-1, 1)), Err(LightError::OutOfBoundsError));
    assert_eq!(g.set(Tile::new(3, 0), 9), Err(LightError::OutOfBoundsError));
    assert_eq!(g.set(Tile::new(0, -1), 9), Err(LightError::OutOfBoundsError));
    assert!(g.data.iter().all(|v| *v == 1));
}

#[test]
fn grid_get_mut_writes_one_cell() {
    let mut g = Grid2D::new(Tile::new(5, 5), TileSize::new(2, 2), 'a');
    *g.get_mut(Tile::new(6, 5)).unwrap() = 'b';
    assert_eq!(g.get(Tile::new(6, 5)), Ok(&'b'));
    assert_eq!(g.get(Tile::new(5, 6)), Ok(&'a'));
    assert!(g.get_mut(Tile::new(7, 5)).is_err());
    g.set_idx(3, 'c');
    assert_eq!(g.get(Tile::new(6, 6)), Ok(&'c'));
    assert_eq!(g.rect().min, Tile::new(5, 5));
}
