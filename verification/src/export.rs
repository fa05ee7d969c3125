//! The whole conversion of one map, from its tiles and zone to the three
//! things that are written out.

use vstd::prelude::*;
use crate::assemble::{assemble_heights, assemble_tile_indices, comes_before, complete};
use crate::assemble::{first_fault, precedes, tile_fault};
use crate::assemble::{is_height_grid, stitched_cell, HeightField};
use crate::coords::{BoundingRect, TileCoordinate, HEIGHT_TILE_SIDE, INDEX_TILE_SIDE};
use crate::error::MapError;
use crate::extremes::spans_region;
use crate::raster::{draws, rasterize, GrayRaster};
use crate::tiles::{HeightTile, Tile, TileIndexTile};
use crate::zone::{merge_zone, resolved, TilemapOutput, ZoneRecord};

verus! {

/// What a conversion produces: the stitched elevations with their extremes,
/// their picture, and the tilemap description.
pub struct MapExport {
    pub heights: HeightField,
    pub heightmap: GrayRaster,
    pub tilemap: TilemapOutput,
}

/// Whether `rows` are the rows of the stitched tile-index grid of the rectangle.
pub open spec fn is_index_rows(rect: BoundingRect, tiles: Seq<Tile>, rows: Seq<Vec<i32>>) -> bool {
    &&& rows.len() == rect.tiles_y()
    &&& forall|y: int| 0 <= y < rect.tiles_y() ==> (#[trigger] rows[y])@.len() == rect.tiles_x()
    &&& forall|x: int, y: int|
        0 <= x < rect.tiles_x() && 0 <= y < rect.tiles_y() ==> rows[y]@[x] == #[trigger] stitched_cell(
            rect,
            tiles,
            INDEX_TILE_SIDE as nat,
            x,
            y,
        )
}

/// Why the map cannot be stitched at `c`, if it cannot: the fault of the
/// height tile there, or else the fault of the tile-index tile there.
pub open spec fn map_fault(heights: Seq<Tile>, indices: Seq<Tile>, c: TileCoordinate) -> Option<
    MapError,
> {
    match tile_fault(heights, c, HEIGHT_TILE_SIDE as nat) {
        Some(e) => Some(e),
        None => tile_fault(indices, c, INDEX_TILE_SIDE as nat),
    }
}

/// Whether `c` is the first coordinate of the rectangle, row by row, at
/// which the map cannot be stitched, and `e` says why.
pub open spec fn first_map_fault(
    rect: BoundingRect,
    heights: Seq<Tile>,
    indices: Seq<Tile>,
    c: TileCoordinate,
    e: MapError,
) -> bool {
    &&& rect.holds(c)
    &&& map_fault(heights, indices, c) == Some(e)
    &&& forall|d: TileCoordinate|
        rect.holds(d) && precedes(d, c) ==> (#[trigger] map_fault(heights, indices, d)) is None
}

/// A map has at most one first fault: the coordinate and the error that the
/// conversion fails with are determined by the rectangle and the tiles.
pub proof fn lemma_first_map_fault_unique(
    rect: BoundingRect,
    heights: Seq<Tile>,
    indices: Seq<Tile>,
    c1: TileCoordinate,
    e1: MapError,
    c2: TileCoordinate,
    e2: MapError,
)
    requires
        first_map_fault(rect, heights, indices, c1, e1),
        first_map_fault(rect, heights, indices, c2, e2),
    ensures
        c1 == c2,
        e1 == e2,
{
    if precedes(c1, c2) {
        assert(map_fault(heights, indices, c1) is None);
    } else if precedes(c2, c1) {
        assert(map_fault(heights, indices, c2) is None);
    }
}

/// The first fault of the height tiles alone is the first fault of the map
/// where no tile-index tile before it is faulty.
proof fn lemma_height_fault_is_first(
    rect: BoundingRect,
    heights: Seq<Tile>,
    indices: Seq<Tile>,
    c: TileCoordinate,
    e: MapError,
)
    requires
        first_fault(rect, heights, HEIGHT_TILE_SIDE as nat, c, e),
        forall|d: TileCoordinate|
            rect.holds(d) && precedes(d, c) ==> (#[trigger] tile_fault(
                indices,
                d,
                INDEX_TILE_SIDE as nat,
            )) is None,
    ensures
        first_map_fault(rect, heights, indices, c, e),
{
    assert forall|d: TileCoordinate| rect.holds(d) && precedes(d, c) implies (#[trigger] map_fault(
        heights,
        indices,
        d,
    )) is None by {
        assert(tile_fault(heights, d, HEIGHT_TILE_SIDE as nat) is None);
        assert(tile_fault(indices, d, INDEX_TILE_SIDE as nat) is None);
    }
}

/// The first fault of the tile-index tiles alone is the first fault of the
/// map where no height tile before it or beside it is faulty.
proof fn lemma_index_fault_is_first(
    rect: BoundingRect,
    heights: Seq<Tile>,
    indices: Seq<Tile>,
    c: TileCoordinate,
    e: MapError,
)
    requires
        first_fault(rect, indices, INDEX_TILE_SIDE as nat, c, e),
        forall|d: TileCoordinate|
            rect.holds(d) && (d == c || precedes(d, c)) ==> (#[trigger] tile_fault(
                heights,
                d,
                HEIGHT_TILE_SIDE as nat,
            )) is None,
    ensures
        first_map_fault(rect, heights, indices, c, e),
{
    assert(tile_fault(heights, c, HEIGHT_TILE_SIDE as nat) is None);
    assert forall|d: TileCoordinate| rect.holds(d) && precedes(d, c) implies (#[trigger] map_fault(
        heights,
        indices,
        d,
    )) is None by {
        assert(tile_fault(heights, d, HEIGHT_TILE_SIDE as nat) is None);
        assert(tile_fault(indices, d, INDEX_TILE_SIDE as nat) is None);
    }
}

/// Converts one map: stitches the height tiles and the tile-index tiles,
/// draws the elevations, and resolves the zone's catalog.
///
/// Either everything is produced or nothing is. The coordinates of the
/// rectangle are taken row by row, each row from the left, and at each
/// coordinate the height tile before the tile-index tile: the first tile
/// that is missing or misshapen gives the error, whatever is wrong later.
pub fn export_map(
    rect: &BoundingRect,
    height_tiles: &Vec<HeightTile>,
    index_tiles: &Vec<TileIndexTile>,
    zone: ZoneRecord,
) -> (out: Result<MapExport, MapError>)
    ensures
        match out {
            Ok(map) => {
                &&& rect.fits()
                &&& complete(*rect, height_tiles@, HEIGHT_TILE_SIDE as nat)
                &&& complete(*rect, index_tiles@, INDEX_TILE_SIDE as nat)
                &&& is_height_grid(*rect, height_tiles@, map.heights.samples)
                &&& map.heights.extremes.bounds() matches Some((lo, hi)) && spans_region(
                    map.heights.samples,
                    rect.span_x() * 65,
                    rect.span_y() * 65,
                    lo,
                    hi,
                ) && draws(map.heightmap, map.heights.samples, lo, hi)
                &&& map.tilemap.textures == zone.textures
                &&& map.tilemap.tiles@.len() == zone.tiles@.len()
                &&& forall|i: int|
                    0 <= i < zone.tiles@.len() ==> #[trigger] map.tilemap.tiles@[i] == resolved(
                        zone.tiles@[i],
                    )
                &&& is_index_rows(*rect, index_tiles@, map.tilemap.tilemap@)
            },
            Err(e) => if !rect.fits() {
                e == MapError::MapTooLarge
            } else {
                exists|c: TileCoordinate| first_map_fault(*rect, height_tiles@, index_tiles@, c, e)
            },
        },
{
    let stitched_heights = assemble_heights(rect, height_tiles);
    let stitched_indices = assemble_tile_indices(rect, index_tiles);
    let (heights, tile_indices) = match (stitched_heights, stitched_indices) {
        (Ok(heights), Ok(tile_indices)) => (heights, tile_indices),
        (Err(eh), Ok(_)) => {
            proof {
                if rect.fits() {
                    let c = choose|c: TileCoordinate|
                        first_fault(*rect, height_tiles@, HEIGHT_TILE_SIDE as nat, c, eh);
                    lemma_height_fault_is_first(*rect, height_tiles@, index_tiles@, c, eh);
                }
            }
            return Err(eh);
        },
        (Ok(_), Err(ei)) => {
            proof {
                if rect.fits() {
                    let c = choose|c: TileCoordinate|
                        first_fault(*rect, index_tiles@, INDEX_TILE_SIDE as nat, c, ei);
                    lemma_index_fault_is_first(*rect, height_tiles@, index_tiles@, c, ei);
                }
            }
            return Err(ei);
        },
        (Err(eh), Err(ei)) => {
            let ghost ch = choose|c: TileCoordinate|
                first_fault(*rect, height_tiles@, HEIGHT_TILE_SIDE as nat, c, eh);
            let ghost ci = choose|c: TileCoordinate|
                first_fault(*rect, index_tiles@, INDEX_TILE_SIDE as nat, c, ei);
            match (eh.coordinate(), ei.coordinate()) {
                (Some(at_height), Some(at_index)) => {
                    if comes_before(at_index, at_height) {
                        proof {
                            if rect.fits() {
                                assert(at_height == ch && at_index == ci);
                                lemma_index_fault_is_first(*rect, height_tiles@, index_tiles@, ci, ei);
                            }
                        }
                        return Err(ei);
                    } else {
                        proof {
                            if rect.fits() {
                                assert(at_height == ch && at_index == ci);
                                lemma_height_fault_is_first(*rect, height_tiles@, index_tiles@, ch, eh);
                            }
                        }
                        return Err(eh);
                    }
                },
                _ => {
                    return Err(eh);
                },
            }
        },
    };
    let heightmap = rasterize(&heights.samples, &heights.extremes)?;
    let tilemap = merge_zone(zone, &tile_indices);
    proof {
        assert forall|x: int, y: int|
            0 <= x < rect.tiles_x() && 0 <= y < rect.tiles_y() implies tilemap.tilemap@[y]@[x]
            == #[trigger] stitched_cell(*rect, index_tiles@, INDEX_TILE_SIDE as nat, x, y) by {
            assert(tilemap.tilemap@[y]@[x] == tile_indices.at(x, y));
        }
    }
    Ok(MapExport { heights, heightmap, tilemap })
}

} // verus!
