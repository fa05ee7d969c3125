use rose_map::assemble::assemble_heights;
use rose_map::coords::{BoundingRect, TileCoordinate};
use rose_map::elevation::{sample_from_bits, sample_parts, sample_to_bits, MAX_FINITE_SAMPLE};
use rose_map::extremes::ElevationExtremes;
use rose_map::grid::Grid;
use rose_map::raster::{level_of, rasterize};
use rose_map::tiles::Tile;

fn sample(value: f32) -> i32 {
    sample_from_bits(value.to_bits()).unwrap()
}

fn number(sample: i32) -> f32 {
    f32::from_bits(sample_to_bits(sample).unwrap())
}

fn flat_tile(x: u32, y: u32, value: f32) -> Tile {
    Tile { coordinate: TileCoordinate { x, y }, cells: Grid::filled(65, 65, sample(value)).unwrap() }
}

fn nearest_level(h: f32, lo: f32, hi: f32) -> u8 {
    let exact = 255.0 * (f64::from(h) - f64::from(lo)) / (f64::from(hi) - f64::from(lo));
    (exact + 0.5).floor().clamp(0.0, 255.0) as u8
}

#[test]
fn samples_of_known_numbers() {
    assert_eq!(sample(0.0), 0);
    assert_eq!(sample(-0.0), 0);
    assert_eq!(sample(1.0), 0x3f80_0000);
    assert_eq!(sample(-1.0), -0x3f80_0000);
    assert_eq!(sample(f32::MAX), MAX_FINITE_SAMPLE);
    assert_eq!(sample(f32::MIN), -MAX_FINITE_SAMPLE);
    assert_eq!(sample(f32::from_bits(1)), 1);
    assert_eq!(sample(-2.5), -0x4020_0000);
}

#[test]
fn what_is_not_finite_has_no_sample() {
    assert_eq!(sample_from_bits(f32::INFINITY.to_bits()), None);
    assert_eq!(sample_from_bits(f32::NEG_INFINITY.to_bits()), None);
    assert_eq!(sample_from_bits(f32::NAN.to_bits()), None);
    assert_eq!(sample_from_bits(0x7f80_0001), None);
    assert_eq!(sample_from_bits(0xffff_ffff), None);
    assert_eq!(sample_to_bits(MAX_FINITE_SAMPLE + 1), None);
    assert_eq!(sample_to_bits(-MAX_FINITE_SAMPLE - 1), None);
    assert_eq!(sample_to_bits(i32::MIN), None);
    assert_eq!(sample_to_bits(i32::MAX), None);
}

#[test]
fn samples_give_their_numbers_back() {
    for value in [0.0f32, 1.0, -1.0, 0.1, -0.1, 1234.5678, -98765.43, 1e-40, -1e-40, f32::MAX, f32::MIN, f32::MIN_POSITIVE, 3.0e38] {
        assert_eq!(number(sample(value)), value);
        assert_eq!(sample_to_bits(sample(value)), Some(value.to_bits()));
    }
    assert_eq!(sample_to_bits(0), Some(0));
    assert_eq!(number(sample(-0.0)).to_bits(), 0);
}

#[test]
fn samples_order_as_their_numbers() {
    let ascending = [
        f32::MIN, -1.0e30, -65536.0, -100.5, -100.25, -1.0, -0.5, -1.0e-30, -1.0e-45, 0.0, 1.0e-45,
        1.0e-40, f32::MIN_POSITIVE, 1.0e-30, 0.5, 1.0, 1.0000001, 100.25, 65536.0, 1.0e30, f32::MAX,
    ];
    for pair in ascending.windows(2) {
        assert!(pair[0] < pair[1]);
        assert!(sample(pair[0]) < sample(pair[1]), "{} and {}", pair[0], pair[1]);
    }
}

#[test]
fn parts_write_the_number() {
    // 1.0 = 2^23 * 2^-23, in units of 2^-149: 2^23 * 2^126
    assert_eq!(sample_parts(sample(1.0)), (0x80_0000, 126));
    assert_eq!(sample_parts(sample(-1.0)), (-0x80_0000, 126));
    // 1.5 = (2^23 + 2^22) * 2^-23
    assert_eq!(sample_parts(sample(1.5)), (0xc0_0000, 126));
    assert_eq!(sample_parts(sample(2.0)), (0x80_0000, 127));
    assert_eq!(sample_parts(sample(0.0)), (0, 0));
    assert_eq!(sample_parts(sample(f32::from_bits(5))), (5, 0));
    assert_eq!(sample_parts(sample(f32::MIN_POSITIVE)), (0x80_0000, 0));
    assert_eq!(sample_parts(sample(f32::MAX)), (0xff_ffff, 253));
    assert_eq!(sample_parts(i32::MIN), (-0x80_0000, 255));
}

#[test]
fn levels_of_numbers() {
    let level = |h: f32, lo: f32, hi: f32| level_of(sample(h), sample(lo), sample(hi));
    assert_eq!(level(0.0, 0.0, 1.0), 0);
    assert_eq!(level(1.0, 0.0, 1.0), 255);
    // 127.5 is rounded upwards
    assert_eq!(level(0.5, 0.0, 1.0), 128);
    // 63.75
    assert_eq!(level(0.25, 0.0, 1.0), 64);
    // 0.1 is a little more than a tenth: 25.5000004
    assert_eq!(level(0.1, 0.0, 1.0), 26);
    // a third: 85.0000025
    assert_eq!(level(1.0 / 3.0, 0.0, 1.0), 85);
    // 255 * 50.5 / 100.25 = 128.45
    assert_eq!(level(-150.0, -200.5, -100.25), 128);
    // 255 * 1300 / 4000 = 82.875
    assert_eq!(level(300.0, -1000.0, 3000.0), 83);
    assert_eq!(level(-1000.0, -1000.0, 3000.0), 0);
    assert_eq!(level(3000.0, -1000.0, 3000.0), 255);
    assert_eq!(level(-1000.5, -1000.0, 3000.0), 0);
    assert_eq!(level(1.0e9, -1000.0, 3000.0), 255);
    assert_eq!(level(f32::MAX, f32::MIN, f32::MAX), 255);
    assert_eq!(level(f32::MIN, f32::MIN, f32::MAX), 0);
    assert_eq!(level(0.0, f32::MIN, f32::MAX), 128);
}

#[test]
fn levels_are_exact_across_far_apart_magnitudes() {
    let level = |h: f32, lo: f32, hi: f32| level_of(sample(h), sample(lo), sample(hi));
    // just above and just below the middle, where 127.5 is the tie
    assert_eq!(level(1.0e-30, -1.0e30, 1.0e30), 128);
    assert_eq!(level(0.0, -1.0e30, 1.0e30), 128);
    assert_eq!(level(-1.0e-30, -1.0e30, 1.0e30), 127);
    assert_eq!(level(f32::from_bits(1), -1.0, 1.0), 128);
    assert_eq!(level(-f32::from_bits(1), -1.0, 1.0), 127);
    // 255 * h / hi crosses a half at h = hi / 510
    assert_eq!(level(1.0, 0.0, 510.0), 1);
    assert_eq!(level(0.99999994, 0.0, 510.0), 0);
    assert_eq!(level(1.0e-45, 0.0, 1.0e38), 0);
    assert_eq!(level(1.0e38, 1.0e-45, 1.0e38), 255);
    assert_eq!(level(9.9e37, 1.0e-45, 1.0e38), 252);
}

#[test]
fn levels_agree_with_double_precision() {
    let lo = -37.25f32;
    let hi = 211.0625f32;
    for i in 0..2000 {
        let h = lo + (i as f32) * 0.124_156;
        if h > hi {
            break;
        }
        assert_eq!(level_of(sample(h), sample(lo), sample(hi)), nearest_level(h, lo, hi), "{}", h);
    }
    for i in 0..500 {
        let h = (i as f32) * 7.3 - 1000.0;
        assert_eq!(
            level_of(sample(h), sample(-333.3), sample(2222.2)),
            nearest_level(h, -333.3, 2222.2),
            "{}",
            h
        );
    }
}

#[test]
fn two_by_two_elevations_are_stitched_with_their_extremes() {
    let rect = BoundingRect::new(30, 31, 30, 31).unwrap();
    let tiles = vec![
        flat_tile(30, 30, 12.5),
        flat_tile(31, 30, -3.25),
        flat_tile(30, 31, 100.0),
        flat_tile(31, 31, 0.125),
    ];
    let field = assemble_heights(&rect, &tiles).unwrap();
    for gy in 0..133usize {
        for gx in 0..133usize {
            let expected: f32 = if gx >= 130 || gy >= 130 {
                0.0
            } else {
                match (gx / 65, gy / 65) {
                    (0, 0) => 12.5,
                    (1, 0) => -3.25,
                    (0, 1) => 100.0,
                    _ => 0.125,
                }
            };
            assert_eq!(number(field.samples.get(gx, gy).unwrap()), expected, "cell ({}, {})", gx, gy);
        }
    }
    let (lo, hi) = field.extremes.range().unwrap();
    assert_eq!((number(lo), number(hi)), (-3.25, 100.0));
}

#[test]
fn extremes_of_a_tile_of_distinct_numbers() {
    let mut cells = Vec::new();
    let mut least = f32::MAX;
    let mut greatest = f32::MIN;
    for i in 0..65 * 65 {
        let h = ((i * 7919) % 4225) as f32 * 0.75 - 1000.0;
        least = least.min(h);
        greatest = greatest.max(h);
        cells.push(sample(h));
    }
    let tile = Tile {
        coordinate: TileCoordinate { x: 0, y: 0 },
        cells: Grid::from_cells(65, 65, cells).unwrap(),
    };
    let field = assemble_heights(&BoundingRect::new(0, 0, 0, 0).unwrap(), &vec![tile]).unwrap();
    let (lo, hi) = field.extremes.range().unwrap();
    assert_eq!((number(lo), number(hi)), (least, greatest));
    assert_eq!((least, greatest), (-1000.0, 4224.0 * 0.75 - 1000.0));
}

#[test]
fn raster_of_numbers() {
    let numbers = [10.0f32, 20.0, 15.0, 12.5, 17.5, 0.0];
    let field = Grid::from_cells(3, 2, numbers.iter().map(|h| sample(*h)).collect()).unwrap();
    let mut extremes = ElevationExtremes::new();
    extremes.observe(sample(10.0));
    extremes.observe(sample(20.0));
    let raster = rasterize(&field, &extremes).unwrap();
    // 12.5 -> 63.75, 17.5 -> 191.25, 0 lies below the least
    assert_eq!(raster.into_levels(), vec![0, 255, 128, 64, 191, 0]);
}

#[test]
fn flat_field_of_numbers_is_black() {
    let field = Grid::filled(4, 4, sample(-321.75)).unwrap();
    let extremes = ElevationExtremes::of_region(&field, 4, 4);
    assert_eq!(rasterize(&field, &extremes).unwrap().into_levels(), vec![0u8; 16]);
}
