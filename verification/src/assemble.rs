//! Stitching tiles into one global grid.

use vstd::prelude::*;
use crate::coords::{BoundingRect, TileCoordinate, HEIGHT_TILE_SIDE, INDEX_TILE_SIDE};
use crate::coords::{lemma_index_extent_bounds, lemma_padded_extent_bounds};
use crate::error::{MapError, TileShape};
use crate::extremes::{spans_region, ElevationExtremes};
use crate::grid::Grid;
use crate::tiles::{find_tile, has_tile, lemma_first_is_position, tile_position};
use crate::tiles::{HeightTile, Tile, TileIndexTile};

verus! {

/// Why the tile at `c` cannot be stitched, if it cannot: the list has no tile
/// there, or the first one there is not `side × side`.
pub open spec fn tile_fault(tiles: Seq<Tile>, c: TileCoordinate, side: nat) -> Option<MapError> {
    if !has_tile(tiles, c) {
        Some(MapError::MissingTile { coordinate: c })
    } else {
        let cells = tiles[tile_position(tiles, c)].cells;
        if cells.cols() != side || cells.rows() != side {
            Some(
                MapError::UnexpectedTileDimensions {
                    coordinate: c,
                    expected: TileShape { width: side as usize, height: side as usize },
                    actual: TileShape { width: cells.cols() as usize, height: cells.rows() as usize },
                },
            )
        } else {
            None
        }
    }
}

/// Whether `a` is visited before `b` when coordinates are walked row by row,
/// each row from the left.
pub open spec fn precedes(a: TileCoordinate, b: TileCoordinate) -> bool {
    a.y < b.y || (a.y == b.y && a.x < b.x)
}

/// Tells whether `a` is visited before `b`.
pub fn comes_before(a: TileCoordinate, b: TileCoordinate) -> (out: bool)
    ensures
        out == precedes(a, b),
{
    a.y < b.y || (a.y == b.y && a.x < b.x)
}

/// Whether `c` is the first coordinate of the rectangle, row by row, whose
/// tile cannot be stitched, and `e` says why.
pub open spec fn first_fault(
    rect: BoundingRect,
    tiles: Seq<Tile>,
    side: nat,
    c: TileCoordinate,
    e: MapError,
) -> bool {
    &&& rect.holds(c)
    &&& tile_fault(tiles, c, side) == Some(e)
    &&& forall|d: TileCoordinate|
        rect.holds(d) && precedes(d, c) ==> (#[trigger] tile_fault(tiles, d, side)) is None
}

/// Whether every coordinate of the rectangle has a tile of the right shape.
pub open spec fn complete(rect: BoundingRect, tiles: Seq<Tile>, side: nat) -> bool {
    forall|c: TileCoordinate| rect.holds(c) ==> (#[trigger] tile_fault(tiles, c, side)) is None
}

/// A rectangle has at most one first fault: the coordinate and the error
/// that stitching fails with are determined by the rectangle and the tiles.
pub proof fn lemma_first_fault_unique(
    rect: BoundingRect,
    tiles: Seq<Tile>,
    side: nat,
    c1: TileCoordinate,
    e1: MapError,
    c2: TileCoordinate,
    e2: MapError,
)
    requires
        first_fault(rect, tiles, side, c1, e1),
        first_fault(rect, tiles, side, c2, e2),
    ensures
        c1 == c2,
        e1 == e2,
{
    if precedes(c1, c2) {
        assert(tile_fault(tiles, c1, side) is None);
    } else if precedes(c2, c1) {
        assert(tile_fault(tiles, c2, side) is None);
    }
}

/// A rectangle with a first fault is not complete.
pub proof fn lemma_fault_is_incomplete(
    rect: BoundingRect,
    tiles: Seq<Tile>,
    side: nat,
    c: TileCoordinate,
    e: MapError,
)
    requires
        first_fault(rect, tiles, side, c, e),
    ensures
        !complete(rect, tiles, side),
{
    assert(tile_fault(tiles, c, side) is Some);
}

/// The value that stitching puts at global cell `(gx, gy)`: the cell
/// `(gx % side, gy % side)` of the tile in column `gx / side` and row
/// `gy / side` of the rectangle, and zero in the padding beyond the tiles.
pub open spec fn stitched_cell(rect: BoundingRect, tiles: Seq<Tile>, side: nat, gx: int, gy: int) -> i32 {
    if 0 <= gx < rect.span_x() * side && 0 <= gy < rect.span_y() * side {
        let c = TileCoordinate {
            x: (rect.left() + gx / (side as int)) as u32,
            y: (rect.top() + gy / (side as int)) as u32,
        };
        tiles[tile_position(tiles, c)].cells.at(gx % (side as int), gy % (side as int))
    } else {
        0
    }
}

/// The grid after the tiles before column `dx` of row `dy` have been
/// stitched in: their cells hold their final values, all others zero.
spec fn stitched_upto(
    rect: BoundingRect,
    tiles: Seq<Tile>,
    side: nat,
    dx: int,
    dy: int,
    gx: int,
    gy: int,
) -> i32 {
    if gy / (side as int) < dy || (gy / (side as int) == dy && gx / (side as int) < dx) {
        stitched_cell(rect, tiles, side, gx, gy)
    } else {
        0
    }
}

/// The cells `d * side .. d * side + side` are those whose quotient by
/// `side` is `d`, and their remainder is their distance from `d * side`.
proof fn lemma_block_of(side: int, g: int, d: int)
    requires
        side > 0,
        0 <= g,
        0 <= d,
    ensures
        (d * side <= g < d * side + side) <==> g / side == d,
        g / side == d ==> g % side == g - d * side,
        g / side >= 0,
{
    vstd::arithmetic::div_mod::lemma_fundamental_div_mod(g, side);
    vstd::arithmetic::div_mod::lemma_mod_bound(g, side);
    let q = g / side;
    let r = g % side;
    assert(g == side * q + r);
    if q < d {
        assert(side * q + side <= side * d) by (nonlinear_arith)
            requires
                q < d,
                side > 0,
        ;
        assert(side * d == d * side) by (nonlinear_arith);
    } else if q > d {
        assert(side * d + side <= side * q) by (nonlinear_arith)
            requires
                q > d,
                side > 0,
        ;
        assert(side * d == d * side) by (nonlinear_arith);
    } else {
        assert(side * q == d * side) by (nonlinear_arith)
            requires
                q == d,
        ;
    }
    if q < 0 {
        assert(side * q <= -side) by (nonlinear_arith)
            requires
                q < 0,
                side > 0,
        ;
    }
}

/// A cell lies before the end of `span` blocks exactly when its quotient by
/// `side` is less than `span`.
proof fn lemma_within_span(side: int, g: int, span: int)
    requires
        side > 0,
        0 <= g,
        0 <= span,
    ensures
        g < span * side <==> g / side < span,
{
    let q = g / side;
    lemma_block_of(side, g, q);
    if q < span {
        assert(q * side + side <= span * side) by (nonlinear_arith)
            requires
                q < span,
                side > 0,
        ;
    } else {
        assert(span * side <= q * side) by (nonlinear_arith)
            requires
                span <= q,
                side > 0,
        ;
    }
}

/// Stitching places cell `(lx, ly)` of the tile at `c` at global cell
/// `((c.x - left) * side + lx, (c.y - top) * side + ly)`.
pub proof fn lemma_stitched_placement(
    rect: BoundingRect,
    tiles: Seq<Tile>,
    side: nat,
    c: TileCoordinate,
    lx: int,
    ly: int,
)
    requires
        rect.ordered(),
        rect.holds(c),
        0 <= lx < side,
        0 <= ly < side,
    ensures
        stitched_cell(
            rect,
            tiles,
            side,
            (c.x - rect.left()) * side + lx,
            (c.y - rect.top()) * side + ly,
        ) == tiles[tile_position(tiles, c)].cells.at(lx, ly),
{
    let s = side as int;
    let dx = c.x - rect.left();
    let dy = c.y - rect.top();
    let gx = dx * s + lx;
    let gy = dy * s + ly;
    assert(0 <= dx * s) by (nonlinear_arith)
        requires
            0 <= dx,
            0 < s,
    ;
    assert(0 <= dy * s) by (nonlinear_arith)
        requires
            0 <= dy,
            0 < s,
    ;
    lemma_block_of(s, gx, dx);
    lemma_block_of(s, gy, dy);
    lemma_within_span(s, gx, rect.span_x() as int);
    lemma_within_span(s, gy, rect.span_y() as int);
}

/// Pastes, row by row and each row from the left, the tile of every
/// coordinate of the rectangle into an all-zero grid, and stops at the first
/// coordinate whose tile is missing or misshapen.
fn stitch(rect: &BoundingRect, tiles: &Vec<Tile>, side: usize, blank: Grid) -> (out: Result<
    Grid,
    MapError,
>)
    requires
        0 < side <= 65,
        rect.span_x() * side <= blank.cols(),
        rect.span_y() * side <= blank.rows(),
        forall|gx: int, gy: int|
            0 <= gx < blank.cols() && 0 <= gy < blank.rows() ==> #[trigger] blank.at(gx, gy) == 0,
    ensures
        match out {
            Ok(g) => {
                &&& complete(*rect, tiles@, side as nat)
                &&& g.cols() == blank.cols()
                &&& g.rows() == blank.rows()
                &&& forall|gx: int, gy: int|
                    0 <= gx < g.cols() && 0 <= gy < g.rows() ==> #[trigger] g.at(gx, gy)
                        == stitched_cell(*rect, tiles@, side as nat, gx, gy)
            },
            Err(e) => exists|c: TileCoordinate| first_fault(*rect, tiles@, side as nat, c, e),
        },
{
    let (sx, sy) = rect.spans();
    let left = rect.x_min();
    let top = rect.y_min();
    let width = blank.width();
    let height = blank.height();
    let ghost s = side as int;
    let mut g = blank;
    proof {
        assert forall|gx: int, gy: int| 0 <= gx < width && 0 <= gy < height implies #[trigger] g.at(
            gx,
            gy,
        ) == stitched_upto(*rect, tiles@, side as nat, 0, 0, gx, gy) by {
            lemma_block_of(s, gx, 0);
            lemma_block_of(s, gy, 0);
        }
    }
    let mut dy: u64 = 0;
    while dy < sy
        invariant
            rect.ordered(),
            sx == rect.span_x(),
            sy == rect.span_y(),
            left == rect.left(),
            top == rect.top(),
            s == side,
            0 < side <= 65,
            rect.span_x() * side <= width,
            rect.span_y() * side <= height,
            dy <= sy,
            g.cols() == width,
            g.rows() == height,
            forall|gx: int, gy: int|
                0 <= gx < width && 0 <= gy < height ==> #[trigger] g.at(gx, gy) == stitched_upto(
                    *rect,
                    tiles@,
                    side as nat,
                    0,
                    dy as int,
                    gx,
                    gy,
                ),
            forall|c: TileCoordinate|
                rect.holds(c) && c.y < top + dy ==> (#[trigger] tile_fault(tiles@, c, side as nat)) is None,
        decreases sy - dy,
    {
        let mut dx: u64 = 0;
        while dx < sx
            invariant
                rect.ordered(),
                sx == rect.span_x(),
                sy == rect.span_y(),
                left == rect.left(),
                top == rect.top(),
                s == side,
                0 < side <= 65,
                rect.span_x() * side <= width,
                rect.span_y() * side <= height,
                dy < sy,
                dx <= sx,
                g.cols() == width,
                g.rows() == height,
                forall|gx: int, gy: int|
                    0 <= gx < width && 0 <= gy < height ==> #[trigger] g.at(gx, gy) == stitched_upto(
                        *rect,
                        tiles@,
                        side as nat,
                        dx as int,
                        dy as int,
                        gx,
                        gy,
                    ),
                forall|c: TileCoordinate|
                    rect.holds(c) && (c.y < top + dy || (c.y == top + dy && c.x < left + dx)) ==> (
                    #[trigger] tile_fault(tiles@, c, side as nat)) is None,
            decreases sx - dx,
        {
            let c = TileCoordinate { x: left + dx as u32, y: top + dy as u32 };
            match find_tile(tiles, c) {
                None => {
                    let e = MapError::MissingTile { coordinate: c };
                    assert(first_fault(*rect, tiles@, side as nat, c, e));
                    return Err(e);
                },
                Some(i) => {
                    proof {
                        lemma_first_is_position(tiles@, c, i as int);
                    }
                    let tile = &tiles[i];
                    let tw = tile.cells.width();
                    let th = tile.cells.height();
                    if tw != side || th != side {
                        let e = MapError::UnexpectedTileDimensions {
                            coordinate: c,
                            expected: TileShape { width: side, height: side },
                            actual: TileShape { width: tw, height: th },
                        };
                        assert(first_fault(*rect, tiles@, side as nat, c, e));
                        return Err(e);
                    }
                    proof {
                        assert((dx + 1) * s <= sx * s) by (nonlinear_arith)
                            requires
                                dx < sx,
                                s > 0,
                        ;
                        assert((dy + 1) * s <= sy * s) by (nonlinear_arith)
                            requires
                                dy < sy,
                                s > 0,
                        ;
                        assert(0 <= dx * s && 0 <= dy * s) by (nonlinear_arith)
                            requires
                                0 <= dx,
                                0 <= dy,
                                s > 0,
                        ;
                        assert(dx * s <= dx * 65 && dy * s <= dy * 65) by (nonlinear_arith)
                            requires
                                0 <= dx,
                                0 <= dy,
                                s <= 65,
                        ;
                    }
                    assert(dx * s + s <= width && dy * s + s <= height) by (nonlinear_arith)
                        requires
                            (dx + 1) * s <= sx * s,
                            (dy + 1) * s <= sy * s,
                            sx * s <= width,
                            sy * s <= height,
                    ;
                    let x0: usize = (dx * (side as u64)) as usize;
                    let y0: usize = (dy * (side as u64)) as usize;
                    let ghost before = g;
                    let done = g.paste(x0, y0, &tile.cells);
                    proof {
                        assert(done);
                        assert forall|gx: int, gy: int|
                            0 <= gx < width && 0 <= gy < height implies #[trigger] g.at(gx, gy)
                            == stitched_upto(*rect, tiles@, side as nat, dx + 1, dy as int, gx, gy) by {
                            lemma_block_of(s, gx, dx as int);
                            lemma_block_of(s, gy, dy as int);
                            lemma_within_span(s, gx, sx as int);
                            lemma_within_span(s, gy, sy as int);
                            assert(before.at(gx, gy) == stitched_upto(
                                *rect,
                                tiles@,
                                side as nat,
                                dx as int,
                                dy as int,
                                gx,
                                gy,
                            ));
                        }
                        assert(tile_fault(tiles@, c, side as nat) is None);
                    }
                },
            }
            dx = dx + 1;
        }
        proof {
            assert forall|gx: int, gy: int| 0 <= gx < width && 0 <= gy < height implies #[trigger] g.at(
                gx,
                gy,
            ) == stitched_upto(*rect, tiles@, side as nat, 0, dy + 1, gx, gy) by {
                lemma_within_span(s, gx, sx as int);
                lemma_block_of(s, gy, dy as int);
            }
        }
        dy = dy + 1;
    }
    proof {
        assert forall|gx: int, gy: int| 0 <= gx < width && 0 <= gy < height implies #[trigger] g.at(
            gx,
            gy,
        ) == stitched_cell(*rect, tiles@, side as nat, gx, gy) by {
            lemma_within_span(s, gy, sy as int);
        }
    }
    Ok(g)
}

/// The stitched elevations of a map with the least and the greatest of its
/// samples. The padding beyond the tiles holds the sample of the number
/// zero and counts as no sample.
pub struct HeightField {
    pub samples: Grid,
    pub extremes: ElevationExtremes,
}

/// Whether `field` is the stitched elevation grid of the rectangle: of the
/// padded extent, every cell as `stitched_cell` says.
pub open spec fn is_height_grid(rect: BoundingRect, tiles: Seq<Tile>, field: Grid) -> bool {
    &&& field.cols() == rect.map_width()
    &&& field.rows() == rect.map_height()
    &&& forall|gx: int, gy: int|
        0 <= gx < field.cols() && 0 <= gy < field.rows() ==> #[trigger] field.at(gx, gy)
            == stitched_cell(rect, tiles, HEIGHT_TILE_SIDE as nat, gx, gy)
}

/// Whether `field` is the stitched tile-index grid of the rectangle: one
/// cell for every four elevation samples along each axis, every cell as
/// `stitched_cell` says.
pub open spec fn is_index_grid(rect: BoundingRect, tiles: Seq<Tile>, field: Grid) -> bool {
    &&& field.cols() == rect.tiles_x()
    &&& field.rows() == rect.tiles_y()
    &&& forall|gx: int, gy: int|
        0 <= gx < field.cols() && 0 <= gy < field.rows() ==> #[trigger] field.at(gx, gy)
            == stitched_cell(rect, tiles, INDEX_TILE_SIDE as nat, gx, gy)
}

/// The extremes of a stitched elevation grid bound every sample of every
/// tile of the rectangle.
pub proof fn lemma_extremes_bound_every_sample(
    rect: BoundingRect,
    tiles: Seq<Tile>,
    field: Grid,
    lo: i32,
    hi: i32,
    c: TileCoordinate,
    lx: int,
    ly: int,
)
    requires
        rect.ordered(),
        is_height_grid(rect, tiles, field),
        spans_region(field, rect.span_x() * 65, rect.span_y() * 65, lo, hi),
        rect.holds(c),
        0 <= lx < 65,
        0 <= ly < 65,
    ensures
        lo <= tiles[tile_position(tiles, c)].cells.at(lx, ly) <= hi,
{
    let gx = (c.x - rect.left()) * 65 + lx;
    let gy = (c.y - rect.top()) * 65 + ly;
    lemma_stitched_placement(rect, tiles, 65, c, lx, ly);
    lemma_padded_extent_bounds(rect.span_x());
    lemma_padded_extent_bounds(rect.span_y());
    assert(lo <= field.at(gx, gy) <= hi);
}

/// Stitches the height tiles of every coordinate of the rectangle into one
/// elevation grid and finds the extremes of their samples.
///
/// The coordinates are visited row by row, each row from the left; the first
/// one without a tile, or whose tile is not 65 × 65, ends the work with its
/// error. A rectangle whose grid does not fit fails before any tile is read.
pub fn assemble_heights(rect: &BoundingRect, tiles: &Vec<HeightTile>) -> (out: Result<
    HeightField,
    MapError,
>)
    ensures
        match out {
            Ok(field) => {
                &&& rect.fits()
                &&& complete(*rect, tiles@, HEIGHT_TILE_SIDE as nat)
                &&& is_height_grid(*rect, tiles@, field.samples)
                &&& field.extremes.bounds() matches Some((lo, hi)) && spans_region(
                    field.samples,
                    rect.span_x() * 65,
                    rect.span_y() * 65,
                    lo,
                    hi,
                )
            },
            Err(e) => if rect.fits() {
                exists|c: TileCoordinate| first_fault(*rect, tiles@, HEIGHT_TILE_SIDE as nat, c, e)
            } else {
                e == MapError::MapTooLarge
            },
        },
{
    let (sx, sy) = rect.spans();
    proof {
        lemma_padded_extent_bounds(rect.span_x());
        lemma_padded_extent_bounds(rect.span_y());
    }
    let (width, height) = match rect.map_extent() {
        Some(extent) => extent,
        None => {
            return Err(MapError::MapTooLarge);
        },
    };
    let blank = match Grid::filled(width, height, 0) {
        Some(grid) => grid,
        None => {
            return Err(MapError::MapTooLarge);
        },
    };
    let samples = stitch(rect, tiles, HEIGHT_TILE_SIDE, blank)?;
    let extremes = ElevationExtremes::of_region(
        &samples,
        (sx * 65) as usize,
        (sy * 65) as usize,
    );
    Ok(HeightField { samples, extremes })
}

/// Stitches the tile-index tiles of every coordinate of the rectangle into
/// one grid of tile-ids, each id copied as it is.
///
/// The coordinates are visited row by row, each row from the left; the first
/// one without a tile, or whose tile is not 16 × 16, ends the work with its
/// error. A rectangle whose elevation grid does not fit fails before any
/// tile is read.
pub fn assemble_tile_indices(rect: &BoundingRect, tiles: &Vec<TileIndexTile>) -> (out: Result<
    Grid,
    MapError,
>)
    ensures
        match out {
            Ok(field) => {
                &&& rect.fits()
                &&& complete(*rect, tiles@, INDEX_TILE_SIDE as nat)
                &&& is_index_grid(*rect, tiles@, field)
            },
            Err(e) => if rect.fits() {
                exists|c: TileCoordinate| first_fault(*rect, tiles@, INDEX_TILE_SIDE as nat, c, e)
            } else {
                e == MapError::MapTooLarge
            },
        },
{
    proof {
        lemma_index_extent_bounds(rect.span_x());
        lemma_index_extent_bounds(rect.span_y());
        lemma_padded_extent_bounds(rect.span_x());
        lemma_padded_extent_bounds(rect.span_y());
    }
    let (width, height) = match rect.index_map_extent() {
        Some(extent) => extent,
        None => {
            return Err(MapError::MapTooLarge);
        },
    };
    proof {
        assert(4 * (width * height) <= 4 * (rect.map_width() * rect.map_height())) by (nonlinear_arith)
            requires
                0 <= width <= rect.map_width(),
                0 <= height <= rect.map_height(),
        ;
    }
    let blank = match Grid::filled(width, height, 0) {
        Some(grid) => grid,
        None => {
            return Err(MapError::MapTooLarge);
        },
    };
    stitch(rect, tiles, INDEX_TILE_SIDE, blank)
}

} // verus!
