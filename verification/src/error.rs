//! The ways in which a map conversion fails.

use vstd::prelude::*;
use crate::coords::TileCoordinate;

verus! {

/// Width and height of a tile's matrix, in cells.
#[derive(Clone, Copy, Debug, PartialEq, Eq, Structural)]
pub struct TileShape {
    pub width: usize,
    pub height: usize,
}

/// Every failure is fatal to the conversion: nothing is produced beside it.
#[derive(Clone, Copy, Debug, PartialEq, Eq, Structural)]
pub enum MapError {
    /// No file name in the directory names a height tile.
    NoTilesFound,
    /// The file name at `index` has the height-tile extension, but the
    /// segments before it are not two decimal integers.
    CoordinateParse { index: usize },
    /// A coordinate inside the bounding rectangle has no tile.
    MissingTile { coordinate: TileCoordinate },
    /// The tile at `coordinate` does not have the fixed shape of its kind.
    UnexpectedTileDimensions { coordinate: TileCoordinate, expected: TileShape, actual: TileShape },
    /// Rasterising was asked for with no elevation sample seen.
    EmptyHeightField,
    /// The stitched map has more cells than one allocation can hold, or is
    /// wider or taller than an image can be.
    MapTooLarge,
}

impl MapError {
    /// The coordinate of the tile that the error is about, where it is about one.
    pub open spec fn place(self) -> Option<TileCoordinate> {
        match self {
            MapError::MissingTile { coordinate } => Some(coordinate),
            MapError::UnexpectedTileDimensions { coordinate, .. } => Some(coordinate),
            _ => None,
        }
    }

    /// The coordinate of the tile that the error is about, where it is about one.
    pub fn coordinate(&self) -> (out: Option<TileCoordinate>)
        ensures
            out == self.place(),
    {
        match self {
            MapError::MissingTile { coordinate } => Some(*coordinate),
            MapError::UnexpectedTileDimensions { coordinate, .. } => Some(*coordinate),
            _ => None,
        }
    }
}

} // verus!
