//! How services number their tiles.

use okibi::error::Error;
use okibi::tile::{Scheme, Tile};

#[test]
fn geographic_is_twice_as_wide_as_it_is_tall() {
    assert_eq!(Scheme::Geographic.grid(3), (16, 8));
    assert_eq!(Scheme::GeographicTms.grid(0), (2, 1));
    assert_eq!(Scheme::WebMercator.grid(3), (8, 8));
    assert_eq!(Scheme::WebMercatorTms.grid(32), (1 << 32, 1 << 32));
}

#[test]
fn the_deepest_countable_grids() {
    assert_eq!(Scheme::WebMercator.grid(63), (1 << 63, 1 << 63));
    assert_eq!(Scheme::Geographic.grid(62), (1 << 63, 1 << 62));
}

#[test]
fn a_tile_must_lie_in_its_grid() {
    assert!(Tile::new(Scheme::WebMercator, 2, 3, 3).is_ok());
    assert_eq!(
        Tile::new(Scheme::WebMercator, 2, 4, 0),
        Err(Error::OutOfGrid { level: 2, x: 4, y: 0, columns: 4, rows: 4 })
    );
    assert!(Tile::new(Scheme::Geographic, 2, 7, 3).is_ok());
    assert_eq!(Tile::new(Scheme::Geographic, 33, 0, 0), Err(Error::LevelTooDeep { level: 33, max: 32 }));
}

#[test]
fn tms_rows_count_from_the_south() {
    assert_eq!(Scheme::WebMercatorTms.y_from_north(2, 0), 3);
    assert_eq!(Scheme::WebMercator.y_from_north(2, 0), 0);
    assert_eq!(Scheme::GeographicTms.y_from_north(1, 1), 0);
}
