//! The names of the files that a conversion reads and writes.

use vstd::prelude::*;
use vstd::string::*;
use crate::coords::TileCoordinate;
use crate::scan::{all_digits, decimal_value, digits_value, first_segment, name_kind, unsigned};
use crate::scan::{extension_dot, is_tile_extension, named_tile, stem_coordinate, NameKind, TileKind};

verus! {

/// The decimal digits of a number, the most significant first, none of them
/// a needless zero.
pub open spec fn digits_of(n: nat) -> Seq<u8>
    decreases n,
{
    if n < 10 {
        seq![(48 + n) as u8]
    } else {
        digits_of(n / 10).push((48 + n % 10) as u8)
    }
}

/// The extension with which the file of a tile is written, in upper case.
pub open spec fn tile_extension(kind: TileKind) -> Seq<u8> {
    match kind {
        TileKind::Height => seq![72u8, 73u8, 77u8],
        TileKind::Index => seq![84u8, 73u8, 76u8],
    }
}

/// The file name with which the tile of a kind at a coordinate is written:
/// `<x>_<y>.<EXT>`. Reading takes the extension in any case, see `scan`.
pub open spec fn tile_name(c: TileCoordinate, kind: TileKind) -> Seq<u8> {
    digits_of(c.x as nat) + seq![95u8] + digits_of(c.y as nat) + seq![46u8] + tile_extension(kind)
}

/// The digits of a number are digits, at least one, and write that number.
pub proof fn lemma_digits_of_reads_back(n: nat)
    ensures
        digits_of(n).len() > 0,
        all_digits(digits_of(n)),
        digits_value(digits_of(n)) == n,
    decreases n,
{
    if n < 10 {
        let s = digits_of(n);
        assert(s.drop_last() =~= Seq::<u8>::empty());
        assert(digits_value(s.drop_last()) == 0);
    } else {
        lemma_digits_of_reads_back(n / 10);
        let s = digits_of(n);
        assert(s.drop_last() =~= digits_of(n / 10));
    }
}

/// Reading the digits of a number that fits in `u32` gives the number back.
pub proof fn lemma_decimal_round_trip(n: u32)
    ensures
        decimal_value(digits_of(n as nat)) == Some(n),
{
    lemma_digits_of_reads_back(n as nat);
    let s = digits_of(n as nat);
    assert(48 <= s[0] <= 57);
    assert(unsigned(s) == s);
}

/// The file name of a height tile is read back as the tile at its coordinate.
pub proof fn lemma_height_name_reads_back(c: TileCoordinate)
    ensures
        name_kind(tile_name(c, TileKind::Height)) == NameKind::Tile(c),
{
    lemma_tile_name_reads_back(c, TileKind::Height);
}

/// The file name of a tile names the tile of its kind at its coordinate.
pub proof fn lemma_tile_name_reads_back(c: TileCoordinate, kind: TileKind)
    ensures
        named_tile(tile_name(c, kind), kind) == Some(c),
{
    let dx = digits_of(c.x as nat);
    let dy = digits_of(c.y as nat);
    let name = tile_name(c, kind);
    let stem = dx + seq![95u8] + dy;
    let dot = stem.len() as int;
    lemma_digits_of_reads_back(c.x as nat);
    lemma_digits_of_reads_back(c.y as nat);
    lemma_decimal_round_trip(c.x);
    lemma_decimal_round_trip(c.y);
    assert(name[dot] == 46);
    assert forall|j: int| 0 <= j < name.len() && j != dot implies name[j] != 46 by {
        if j < dx.len() {
            assert(name[j] == dx[j]);
        } else if j == dx.len() {
        } else if j < dot {
            assert(name[j] == dy[j - dx.len() - 1]);
        } else {
        }
    }
    name.index_of_last_ensures(46u8);
    assert(name.contains(46u8));
    assert(name.index_of_last(46u8) == Some(dot));
    assert(extension_dot(name) == Some(dot));
    assert(name.subrange(dot + 1, name.len() as int) =~= tile_extension(kind));
    assert(is_tile_extension(tile_extension(kind), kind));
    assert(name.subrange(0, dot) =~= stem);
    let sep = dx.len() as int;
    assert(stem[sep] == 95);
    assert forall|j: int| 0 <= j < stem.len() && j != sep implies stem[j] != 95 by {
        if j < dx.len() {
            assert(stem[j] == dx[j]);
        } else {
            assert(stem[j] == dy[j - dx.len() - 1]);
        }
    }
    stem.index_of_first_ensures(95u8);
    assert(stem.contains(95u8));
    assert(stem.index_of_first(95u8) == Some(sep));
    assert(stem.subrange(0, sep) =~= dx);
    assert(stem.subrange(sep + 1, stem.len() as int) =~= dy);
    dy.index_of_first_ensures(95u8);
    assert(dy.index_of_first(95u8) is None) by {
        if dy.contains(95u8) {
            let k = choose|k: int| 0 <= k < dy.len() && dy[k] == 95u8;
            assert(48 <= dy[k] <= 57);
        }
    }
    assert(first_segment(dy) == dy);
    assert(stem_coordinate(stem) == Some(c));
}

/// Appends the decimal digits of `n`.
fn push_decimal(out: &mut Vec<u8>, n: u32)
    ensures
        final(out)@ == old(out)@ + digits_of(n as nat),
    decreases n,
{
    if n >= 10 {
        push_decimal(out, n / 10);
    }
    out.push(48 + (n % 10) as u8);
    assert(out@ =~= old(out)@ + digits_of(n as nat));
}

/// The file name under which the tile of a kind at a coordinate is stored.
pub fn tile_file_name(c: TileCoordinate, kind: TileKind) -> (out: Vec<u8>)
    ensures
        out@ == tile_name(c, kind),
{
    let mut out: Vec<u8> = Vec::new();
    push_decimal(&mut out, c.x);
    out.push(95);
    push_decimal(&mut out, c.y);
    out.push(46);
    match kind {
        TileKind::Height => {
            out.push(72);
            out.push(73);
            out.push(77);
        },
        TileKind::Index => {
            out.push(84);
            out.push(73);
            out.push(76);
        },
    }
    assert(out@ =~= tile_name(c, kind));
    out
}

/// The file that the picture of the elevations is written to: `<map>.png`.
pub fn heightmap_file_name(map_name: &str) -> (out: String)
    ensures
        out@ == map_name@ + ".png"@,
{
    String::from_str(map_name).concat(".png")
}

/// The file that the zone is dumped to: `<map>.json`.
pub fn zone_dump_file_name(map_name: &str) -> (out: String)
    ensures
        out@ == map_name@ + ".json"@,
{
    String::from_str(map_name).concat(".json")
}

/// The file that the tilemap description is written to: `<map>_tilemap.json`.
pub fn tilemap_file_name(map_name: &str) -> (out: String)
    ensures
        out@ == map_name@ + "_tilemap.json"@,
{
    String::from_str(map_name).concat("_tilemap.json")
}

} // verus!
