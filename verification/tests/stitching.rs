use rose_map::assemble::{assemble_heights, assemble_tile_indices};
use rose_map::coords::{BoundingRect, TileCoordinate};
use rose_map::error::{MapError, TileShape};
use rose_map::grid::Grid;
use rose_map::tiles::{find_tile, Tile};

fn uniform_tile(x: u32, y: u32, side: usize, value: i32) -> Tile {
    Tile { coordinate: TileCoordinate { x, y }, cells: Grid::filled(side, side, value).unwrap() }
}

fn counting_tile(x: u32, y: u32, side: usize, base: i32) -> Tile {
    let mut cells = Vec::new();
    for row in 0..side {
        for col in 0..side {
            cells.push(base + (row * side + col) as i32);
        }
    }
    Tile { coordinate: TileCoordinate { x, y }, cells: Grid::from_cells(side, side, cells).unwrap() }
}

#[test]
fn single_tile_extents_are_69_and_17() {
    let rect = BoundingRect::new(0, 0, 0, 0).unwrap();
    assert_eq!(rect.spans(), (1, 1));
    assert_eq!(rect.map_extent(), Some((69, 69)));
    assert_eq!(rect.index_map_extent(), Some((17, 17)));
}

#[test]
fn extents_of_wider_rectangles() {
    let rect = BoundingRect::new(30, 31, 30, 32).unwrap();
    assert_eq!(rect.spans(), (2, 3));
    // 130 -> 132 + 1, 195 -> 196 + 1
    assert_eq!(rect.map_extent(), Some((133, 197)));
    assert_eq!(rect.index_map_extent(), Some((33, 49)));
    let four = BoundingRect::new(0, 3, 0, 0).unwrap();
    // 260 is a multiple of four already
    assert_eq!(four.map_extent(), Some((261, 69)));
    assert_eq!(four.index_map_extent(), Some((65, 17)));
}

#[test]
fn rectangle_bounds_must_be_ordered() {
    assert!(BoundingRect::new(2, 1, 0, 0).is_none());
    assert!(BoundingRect::new(0, 0, 5, 4).is_none());
    let rect = BoundingRect::new(1, 4, 2, 3).unwrap();
    assert_eq!((rect.x_min(), rect.x_max(), rect.y_min(), rect.y_max()), (1, 4, 2, 3));
    assert!(rect.contains(TileCoordinate { x: 4, y: 2 }));
    assert!(!rect.contains(TileCoordinate { x: 5, y: 2 }));
    assert!(!rect.contains(TileCoordinate { x: 1, y: 1 }));
}

#[test]
fn enclosing_rectangle_is_the_smallest() {
    let coords = vec![
        TileCoordinate { x: 31, y: 30 },
        TileCoordinate { x: 30, y: 33 },
        TileCoordinate { x: 32, y: 31 },
    ];
    let rect = BoundingRect::enclosing(&coords).unwrap();
    assert_eq!((rect.x_min(), rect.x_max(), rect.y_min(), rect.y_max()), (30, 32, 30, 33));
    assert!(BoundingRect::enclosing(&Vec::new()).is_none());
}

#[test]
fn two_by_two_heights_are_stitched_at_every_offset() {
    let rect = BoundingRect::new(10, 11, 20, 21).unwrap();
    let tiles = vec![
        uniform_tile(11, 21, 65, 400),
        uniform_tile(10, 20, 65, 100),
        uniform_tile(11, 20, 65, -200),
        uniform_tile(10, 21, 65, 300),
    ];
    let field = assemble_heights(&rect, &tiles).unwrap();
    assert_eq!(field.samples.width(), 133);
    assert_eq!(field.samples.height(), 133);
    for gy in 0..133usize {
        for gx in 0..133usize {
            let expected = if gx >= 130 || gy >= 130 {
                0
            } else {
                match (gx / 65, gy / 65) {
                    (0, 0) => 100,
                    (1, 0) => -200,
                    (0, 1) => 300,
                    _ => 400,
                }
            };
            assert_eq!(field.samples.get(gx, gy), Some(expected), "cell ({}, {})", gx, gy);
        }
    }
    assert_eq!(field.extremes.range(), Some((-200, 400)));
}

#[test]
fn extremes_ignore_the_padding() {
    let rect = BoundingRect::new(0, 0, 0, 0).unwrap();
    let tiles = vec![counting_tile(0, 0, 65, 1000)];
    let field = assemble_heights(&rect, &tiles).unwrap();
    assert_eq!(field.samples.get(68, 68), Some(0));
    assert_eq!(field.samples.get(64, 64), Some(1000 + 64 * 65 + 64));
    assert_eq!(field.samples.get(3, 2), Some(1000 + 2 * 65 + 3));
    assert_eq!(field.extremes.range(), Some((1000, 1000 + 65 * 65 - 1)));
}

#[test]
fn tile_ids_land_at_their_global_cell() {
    let rect = BoundingRect::new(5, 6, 7, 8).unwrap();
    let tiles = vec![
        counting_tile(5, 7, 16, 0),
        counting_tile(6, 7, 16, 1000),
        counting_tile(5, 8, 16, 2000),
        counting_tile(6, 8, 16, 3000),
    ];
    let grid = assemble_tile_indices(&rect, &tiles).unwrap();
    assert_eq!((grid.width(), grid.height()), (33, 33));
    for tile in &tiles {
        let c = tile.coordinate;
        for ly in 0..16usize {
            for lx in 0..16usize {
                let gx = (c.x - 5) as usize * 16 + lx;
                let gy = (c.y - 7) as usize * 16 + ly;
                assert_eq!(grid.get(gx, gy), tile.cells.get(lx, ly));
            }
        }
    }
    assert_eq!(grid.get(17, 1), Some(1000 + 16 + 1));
    assert_eq!(grid.get(32, 0), Some(0));
    assert_eq!(grid.get(0, 32), Some(0));
}

#[test]
fn misshapen_height_tile_is_reported_with_its_coordinate() {
    let rect = BoundingRect::new(0, 1, 0, 0).unwrap();
    let tiles = vec![uniform_tile(0, 0, 65, 1), Tile {
        coordinate: TileCoordinate { x: 1, y: 0 },
        cells: Grid::filled(64, 65, 1).unwrap(),
    }];
    match assemble_heights(&rect, &tiles) {
        Err(e) => assert_eq!(
            e,
            MapError::UnexpectedTileDimensions {
                coordinate: TileCoordinate { x: 1, y: 0 },
                expected: TileShape { width: 65, height: 65 },
                actual: TileShape { width: 64, height: 65 },
            }
        ),
        Ok(_) => panic!("a 64 x 65 tile was stitched"),
    }
}

#[test]
fn misshapen_index_tile_is_reported_with_its_coordinate() {
    let rect = BoundingRect::new(3, 3, 4, 5).unwrap();
    let tiles = vec![uniform_tile(3, 4, 16, 1), Tile {
        coordinate: TileCoordinate { x: 3, y: 5 },
        cells: Grid::filled(16, 17, 1).unwrap(),
    }];
    match assemble_tile_indices(&rect, &tiles) {
        Err(e) => assert_eq!(
            e,
            MapError::UnexpectedTileDimensions {
                coordinate: TileCoordinate { x: 3, y: 5 },
                expected: TileShape { width: 16, height: 16 },
                actual: TileShape { width: 16, height: 17 },
            }
        ),
        Ok(_) => panic!("a 16 x 17 tile was stitched"),
    }
}

#[test]
fn a_height_tile_is_not_an_index_tile() {
    let rect = BoundingRect::new(0, 0, 0, 0).unwrap();
    assert!(assemble_tile_indices(&rect, &vec![uniform_tile(0, 0, 65, 1)]).is_err());
    assert!(assemble_heights(&rect, &vec![uniform_tile(0, 0, 16, 1)]).is_err());
}

#[test]
fn missing_tile_is_reported_in_row_major_order() {
    let rect = BoundingRect::new(0, 1, 0, 1).unwrap();
    // (1, 0) and (0, 1) are both absent; (1, 0) comes first.
    let tiles = vec![uniform_tile(0, 0, 65, 1), uniform_tile(1, 1, 65, 1)];
    match assemble_heights(&rect, &tiles) {
        Err(e) => assert_eq!(e, MapError::MissingTile { coordinate: TileCoordinate { x: 1, y: 0 } }),
        Ok(_) => panic!("a map with gaps was stitched"),
    }
    match assemble_tile_indices(&rect, &Vec::new()) {
        Err(e) => assert_eq!(e, MapError::MissingTile { coordinate: TileCoordinate { x: 0, y: 0 } }),
        Ok(_) => panic!("a map without tiles was stitched"),
    }
}

#[test]
fn earlier_fault_wins_over_later_one() {
    let rect = BoundingRect::new(0, 2, 0, 0).unwrap();
    let tiles = vec![uniform_tile(0, 0, 65, 1), uniform_tile(1, 0, 3, 1)];
    match assemble_heights(&rect, &tiles) {
        Err(MapError::UnexpectedTileDimensions { coordinate, .. }) => {
            assert_eq!(coordinate, TileCoordinate { x: 1, y: 0 })
        },
        _ => panic!("the misshapen tile at (1, 0) was not the reported fault"),
    }
}

#[test]
fn first_tile_at_a_coordinate_is_the_one_used() {
    let rect = BoundingRect::new(0, 0, 0, 0).unwrap();
    let tiles = vec![uniform_tile(9, 9, 65, 5), uniform_tile(0, 0, 65, 7), uniform_tile(0, 0, 65, 8)];
    assert_eq!(find_tile(&tiles, TileCoordinate { x: 0, y: 0 }), Some(1));
    assert_eq!(find_tile(&tiles, TileCoordinate { x: 1, y: 0 }), None);
    let field = assemble_heights(&rect, &tiles).unwrap();
    assert_eq!(field.samples.get(0, 0), Some(7));
    assert_eq!(field.extremes.range(), Some((7, 7)));
}

#[test]
fn oversized_rectangle_is_refused() {
    let rect = BoundingRect::new(0, u32::MAX, 0, 0).unwrap();
    assert_eq!(rect.spans(), (1u64 << 32, 1));
    assert_eq!(rect.map_extent(), None);
    assert_eq!(rect.index_map_extent(), None);
    match assemble_heights(&rect, &Vec::new()) {
        Err(e) => assert_eq!(e, MapError::MapTooLarge),
        Ok(_) => panic!("a map wider than any image was stitched"),
    }
    match assemble_tile_indices(&rect, &Vec::new()) {
        Err(e) => assert_eq!(e, MapError::MapTooLarge),
        Ok(_) => panic!("a map wider than any image was stitched"),
    }
}
