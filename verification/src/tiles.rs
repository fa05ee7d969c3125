//! Map tiles as they come from disk: a coordinate and a matrix of cells.

use vstd::prelude::*;
use crate::coords::TileCoordinate;
use crate::grid::Grid;

verus! {

/// One world tile: its grid position and its matrix of cells. Row `y` of the
/// matrix is the tile's `y`-th line from the top, column `x` its `x`-th cell
/// from the left.
pub struct Tile {
    pub coordinate: TileCoordinate,
    pub cells: Grid,
}

/// A tile of elevations, 65 × 65 when well formed. Each cell is the sample
/// of a 32-bit floating-point elevation, as the `elevation` module defines it.
pub type HeightTile = Tile;

/// A tile of tile-ids, 16 × 16 when well formed.
pub type TileIndexTile = Tile;

/// Whether some tile of the list sits at `c`.
pub open spec fn has_tile(tiles: Seq<Tile>, c: TileCoordinate) -> bool {
    exists|i: int| 0 <= i < tiles.len() && (#[trigger] tiles[i]).coordinate == c
}

/// Whether `i` is the position of the first tile of the list that sits at `c`.
pub open spec fn is_first_at(tiles: Seq<Tile>, c: TileCoordinate, i: int) -> bool {
    &&& 0 <= i < tiles.len()
    &&& tiles[i].coordinate == c
    &&& forall|j: int| 0 <= j < i ==> (#[trigger] tiles[j]).coordinate != c
}

/// The position of the first tile of the list that sits at `c`; meaningful
/// where `has_tile` holds.
pub open spec fn tile_position(tiles: Seq<Tile>, c: TileCoordinate) -> int {
    choose|i: int| is_first_at(tiles, c, i)
}

/// The first tile at a coordinate is the one that `tile_position` names.
pub proof fn lemma_first_is_position(tiles: Seq<Tile>, c: TileCoordinate, i: int)
    requires
        is_first_at(tiles, c, i),
    ensures
        has_tile(tiles, c),
        tile_position(tiles, c) == i,
{
    let k = tile_position(tiles, c);
    assert(is_first_at(tiles, c, k));
    if k < i {
        assert(tiles[k].coordinate != c);
    } else if i < k {
        assert(tiles[i].coordinate != c);
    }
}

/// The position of the first tile at `c`, or `None` when the list has none there.
pub fn find_tile(tiles: &Vec<Tile>, c: TileCoordinate) -> (out: Option<usize>)
    ensures
        match out {
            Some(i) => is_first_at(tiles@, c, i as int),
            None => !has_tile(tiles@, c),
        },
{
    let mut i: usize = 0;
    while i < tiles.len()
        invariant
            i <= tiles.len(),
            forall|j: int| 0 <= j < i ==> (#[trigger] tiles@[j]).coordinate != c,
        decreases tiles.len() - i,
    {
        let at = tiles[i].coordinate;
        if at.x == c.x && at.y == c.y {
            return Some(i);
        }
        i = i + 1;
    }
    None
}

} // verus!
