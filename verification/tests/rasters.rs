use rose_map::error::MapError;
use rose_map::extremes::ElevationExtremes;
use rose_map::grid::Grid;
use rose_map::raster::{level_of, rasterize};

// The samples below 2^23 stand for the multiples of the least positive
// number, so that between them a level is a plain quotient of integers.

#[test]
fn least_is_black_and_greatest_is_white() {
    assert_eq!(level_of(-300, -300, 1200), 0);
    assert_eq!(level_of(1200, -300, 1200), 255);
    assert_eq!(level_of(i32::MIN, i32::MIN, i32::MAX), 0);
    assert_eq!(level_of(i32::MAX, i32::MIN, i32::MAX), 255);
    assert_eq!(level_of(0, 0, 1), 0);
    assert_eq!(level_of(1, 0, 1), 255);
}

#[test]
fn levels_are_rounded_to_the_nearest() {
    // 255 * 5 / 10 = 127.5
    assert_eq!(level_of(5, 0, 10), 128);
    // 255 * 1 / 3 = 85
    assert_eq!(level_of(1, 0, 3), 85);
    // 255 * 1 / 2 = 127.5
    assert_eq!(level_of(1, 0, 2), 128);
    // 255 * 1 / 1000 = 0.255, 255 * 2 / 1000 = 0.51
    assert_eq!(level_of(1, 0, 1000), 0);
    assert_eq!(level_of(2, 0, 1000), 1);
    // 255 * 999 / 1000 = 254.745
    assert_eq!(level_of(999, 0, 1000), 255);
    // 255 * 997 / 1000 = 254.235
    assert_eq!(level_of(997, 0, 1000), 254);
    // 255 * 50 / 200 = 63.75
    assert_eq!(level_of(-50, -100, 100), 64);
    assert_eq!(level_of(0, i32::MIN, i32::MAX), 128);
}

#[test]
fn levels_are_cut_to_the_range() {
    assert_eq!(level_of(-1, 0, 10), 0);
    assert_eq!(level_of(i32::MIN, 0, 10), 0);
    assert_eq!(level_of(11, 0, 10), 255);
    assert_eq!(level_of(i32::MAX, 0, 10), 255);
}

#[test]
fn equal_extremes_give_black() {
    assert_eq!(level_of(7, 7, 7), 0);
    assert_eq!(level_of(0, 7, 7), 0);
    assert_eq!(level_of(100, 7, 7), 0);
    assert_eq!(level_of(5, 10, 0), 0);
}

#[test]
fn raster_has_the_extent_and_levels_of_the_field() {
    let field = Grid::from_cells(3, 2, vec![0, 5, 10, 2, 8, 20]).unwrap();
    let mut extremes = ElevationExtremes::new();
    extremes.observe(0);
    extremes.observe(10);
    let raster = rasterize(&field, &extremes).unwrap();
    assert_eq!(raster.extent(), (3, 2));
    // 2 -> 51, 8 -> 204, 20 is above the greatest
    assert_eq!(raster.into_levels(), vec![0, 128, 255, 51, 204, 255]);
}

#[test]
fn flat_field_is_drawn_black() {
    let field = Grid::filled(5, 4, 321).unwrap();
    let extremes = ElevationExtremes::of_region(&field, 4, 4);
    assert_eq!(extremes.range(), Some((321, 321)));
    let raster = rasterize(&field, &extremes).unwrap();
    assert_eq!(raster.extent(), (5, 4));
    assert_eq!(raster.into_levels(), vec![0u8; 20]);
}

#[test]
fn flat_field_with_other_padding_is_still_black() {
    let mut field = Grid::filled(3, 3, 0).unwrap();
    field.paste(0, 0, &Grid::filled(2, 2, -100).unwrap());
    let extremes = ElevationExtremes::of_region(&field, 2, 2);
    assert_eq!(extremes.range(), Some((-100, -100)));
    assert_eq!(rasterize(&field, &extremes).unwrap().into_levels(), vec![0u8; 9]);
}

#[test]
fn rasterizing_without_samples_fails() {
    let field = Grid::filled(2, 2, 0).unwrap();
    match rasterize(&field, &ElevationExtremes::new()) {
        Err(e) => assert_eq!(e, MapError::EmptyHeightField),
        Ok(_) => panic!("a field without samples was drawn"),
    }
}

#[test]
fn empty_field_gives_an_empty_raster() {
    let field = Grid::filled(0, 0, 0).unwrap();
    let mut extremes = ElevationExtremes::new();
    extremes.observe(1);
    let raster = rasterize(&field, &extremes).unwrap();
    assert_eq!(raster.extent(), (0, 0));
    assert_eq!(raster.into_levels(), Vec::<u8>::new());
}
