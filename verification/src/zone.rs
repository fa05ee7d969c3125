//! Turning a zone's tile catalog and the stitched tile-index grid into the
//! tilemap description.

use vstd::prelude::*;
use crate::grid::Grid;

verus! {

/// Orientation in which a tile is drawn.
#[derive(Clone, Copy, Debug, PartialEq, Eq, Structural)]
pub enum Rotation {
    Unknown,
    Upright,
    FlipHorizontal,
    FlipVertical,
    Flip,
    Clockwise90,
    CounterClockwise90,
}

/// One entry of a zone's tile catalog; a tile-id of the tile-index grid is a
/// position in that catalog.
#[derive(Clone, Copy, Debug, PartialEq, Eq, Structural)]
pub struct ZoneTileDefinition {
    pub layer1: i32,
    pub layer2: i32,
    pub offset1: i32,
    pub offset2: i32,
    pub rotation: Rotation,
}

/// What the conversion reads of a zone: its textures and its tile catalog,
/// both in file order.
pub struct ZoneRecord {
    pub textures: Vec<String>,
    pub tiles: Vec<ZoneTileDefinition>,
}

/// A catalog entry with its offsets applied: the two layers as positions in
/// the texture list. The sums are kept as they are, also where they point
/// outside the texture list.
#[derive(Clone, Copy, Debug, PartialEq, Eq, Structural)]
pub struct TilemapTile {
    pub layer1: i64,
    pub layer2: i64,
    pub rotation: Rotation,
}

/// The tilemap description: the textures, the resolved catalog, and the grid
/// of tile-ids as rows of cells. A tile-id is a position in `tiles`.
pub struct TilemapOutput {
    pub textures: Vec<String>,
    pub tiles: Vec<TilemapTile>,
    pub tilemap: Vec<Vec<i32>>,
}

/// The catalog entry `tile` with its offsets applied.
pub open spec fn resolved(tile: ZoneTileDefinition) -> TilemapTile {
    TilemapTile {
        layer1: (tile.layer1 + tile.offset1) as i64,
        layer2: (tile.layer2 + tile.offset2) as i64,
        rotation: tile.rotation,
    }
}

/// Whether `rows` lists the cells of `grid` row by row.
pub open spec fn rows_of(grid: Grid, rows: Seq<Vec<i32>>) -> bool {
    &&& rows.len() == grid.rows()
    &&& forall|y: int| 0 <= y < grid.rows() ==> (#[trigger] rows[y])@.len() == grid.cols()
    &&& forall|x: int, y: int|
        0 <= x < grid.cols() && 0 <= y < grid.rows() ==> rows[y]@[x] == #[trigger] grid.at(x, y)
}

/// Applies the offsets of one catalog entry.
pub fn resolve_tile(tile: &ZoneTileDefinition) -> (out: TilemapTile)
    ensures
        out == resolved(*tile),
        out.layer1 == tile.layer1 + tile.offset1,
        out.layer2 == tile.layer2 + tile.offset2,
{
    TilemapTile {
        layer1: tile.layer1 as i64 + tile.offset1 as i64,
        layer2: tile.layer2 as i64 + tile.offset2 as i64,
        rotation: tile.rotation,
    }
}

/// Builds the tilemap description of a zone: the textures as they are, every
/// catalog entry resolved, in catalog order, and the tile-index grid as rows.
pub fn merge_zone(zone: ZoneRecord, tile_indices: &Grid) -> (out: TilemapOutput)
    ensures
        out.textures == zone.textures,
        out.tiles@.len() == zone.tiles@.len(),
        forall|i: int| 0 <= i < zone.tiles@.len() ==> #[trigger] out.tiles@[i] == resolved(zone.tiles@[i]),
        rows_of(*tile_indices, out.tilemap@),
{
    let ZoneRecord { textures, tiles: catalog } = zone;
    let mut tiles: Vec<TilemapTile> = Vec::new();
    let mut i: usize = 0;
    while i < catalog.len()
        invariant
            i <= catalog@.len(),
            tiles@.len() == i,
            forall|k: int| 0 <= k < i ==> #[trigger] tiles@[k] == resolved(catalog@[k]),
        decreases catalog@.len() - i,
    {
        let entry = resolve_tile(&catalog[i]);
        tiles.push(entry);
        i = i + 1;
    }
    TilemapOutput { textures, tiles, tilemap: tile_indices.to_rows() }
}

/// Whether both layers of a resolved entry are positions in a list of
/// `textures` textures.
pub open spec fn is_bound(tile: TilemapTile, textures: nat) -> bool {
    0 <= tile.layer1 < textures && 0 <= tile.layer2 < textures
}

/// The position of the first resolved entry with a layer outside the
/// texture list, or `None` where every layer of every entry names a texture.
/// Merging keeps such entries as they are; this is the way to find them.
pub fn first_unbound_tile(out: &TilemapOutput) -> (at: Option<usize>)
    ensures
        match at {
            Some(i) => {
                &&& i < out.tiles@.len()
                &&& !is_bound(out.tiles@[i as int], out.textures@.len())
                &&& forall|k: int| 0 <= k < i ==> is_bound(#[trigger] out.tiles@[k], out.textures@.len())
            },
            None => forall|k: int|
                0 <= k < out.tiles@.len() ==> is_bound(#[trigger] out.tiles@[k], out.textures@.len()),
        },
{
    let textures = out.textures.len();
    let mut i: usize = 0;
    while i < out.tiles.len()
        invariant
            i <= out.tiles@.len(),
            textures == out.textures@.len(),
            forall|k: int| 0 <= k < i ==> is_bound(#[trigger] out.tiles@[k], textures as nat),
        decreases out.tiles@.len() - i,
    {
        let tile = out.tiles[i];
        if tile.layer1 < 0 || tile.layer2 < 0 || tile.layer1 as u64 >= textures as u64 || tile.layer2 as u64
            >= textures as u64 {
            return Some(i);
        }
        i = i + 1;
    }
    None
}

/// The resolved catalog entry that a tile-id of the grid names, or `None`
/// where the id is negative or beyond the catalog.
pub fn catalog_entry(tiles: &Vec<TilemapTile>, tile_id: i32) -> (out: Option<TilemapTile>)
    ensures
        out == if 0 <= tile_id < tiles@.len() {
            Some(tiles@[tile_id as int])
        } else {
            None
        },
{
    if tile_id < 0 {
        return None;
    }
    let at = tile_id as usize;
    if at < tiles.len() {
        Some(tiles[at])
    } else {
        None
    }
}

} // verus!
