//! Finding the tiles of a map from the file names of its directory.
//!
//! A height tile is stored under `<x>_<y>.him`, the extension in any mix of
//! upper and lower case, `x` and `y` in decimal.

use vstd::prelude::*;
use vstd::slice::slice_subrange;
use crate::coords::{encloses, BoundingRect, TileCoordinate};
use crate::error::MapError;

verus! {

/// What a file name says about the file.
#[derive(Clone, Copy, Debug, PartialEq, Eq, Structural)]
pub enum NameKind {
    /// Not a height tile: no extension, or another one.
    Other,
    /// The extension of a height tile, but no coordinate before it.
    Malformed,
    /// The height tile at this coordinate.
    Tile(TileCoordinate),
}

/// The two kinds of tile files of a map directory.
#[derive(Clone, Copy, Debug, PartialEq, Eq, Structural)]
pub enum TileKind {
    /// Elevation samples, stored under the extension `him`.
    Height,
    /// Tile-ids, stored under the extension `til`.
    Index,
}

/// The ASCII letter in lower case; any other byte as it is.
pub open spec fn lower(b: u8) -> u8 {
    if 65 <= b <= 90 {
        (b + 32) as u8
    } else {
        b
    }
}

/// Whether the bytes spell `him` in any mix of upper and lower case.
pub open spec fn is_height_extension(ext: Seq<u8>) -> bool {
    ext.len() == 3 && lower(ext[0]) == 104 && lower(ext[1]) == 105 && lower(ext[2]) == 109
}

/// Whether the bytes spell `til` in any mix of upper and lower case.
pub open spec fn is_index_extension(ext: Seq<u8>) -> bool {
    ext.len() == 3 && lower(ext[0]) == 116 && lower(ext[1]) == 105 && lower(ext[2]) == 108
}

/// Whether the bytes spell `zon` in any mix of upper and lower case.
pub open spec fn is_zone_extension(ext: Seq<u8>) -> bool {
    ext.len() == 3 && lower(ext[0]) == 122 && lower(ext[1]) == 111 && lower(ext[2]) == 110
}

/// Whether the bytes spell the extension of a kind of tile, in any mix of
/// upper and lower case.
pub open spec fn is_tile_extension(ext: Seq<u8>, kind: TileKind) -> bool {
    match kind {
        TileKind::Height => is_height_extension(ext),
        TileKind::Index => is_index_extension(ext),
    }
}

/// The value of a decimal digit, and zero for any other byte.
pub open spec fn digit_value(b: u8) -> nat {
    if 48 <= b <= 57 {
        (b - 48) as nat
    } else {
        0
    }
}

/// Whether every byte is a decimal digit.
pub open spec fn all_digits(s: Seq<u8>) -> bool {
    forall|i: int| 0 <= i < s.len() ==> 48 <= #[trigger] s[i] <= 57
}

/// The number that a run of decimal digits writes, the first digit the most
/// significant.
pub open spec fn digits_value(s: Seq<u8>) -> nat
    decreases s.len(),
{
    if s.len() == 0 {
        0
    } else {
        digits_value(s.drop_last()) * 10 + digit_value(s.last())
    }
}

/// The bytes without one leading plus sign.
pub open spec fn unsigned(s: Seq<u8>) -> Seq<u8> {
    if s.len() > 0 && s[0] == 43 {
        s.subrange(1, s.len() as int)
    } else {
        s
    }
}

/// The number that the bytes write in decimal: an optional plus sign, then
/// one or more digits, the value no more than `u32::MAX`. `None` for
/// anything else.
pub open spec fn decimal_value(s: Seq<u8>) -> Option<u32> {
    let digits = unsigned(s);
    if digits.len() > 0 && all_digits(digits) && digits_value(digits) <= u32::MAX {
        Some(digits_value(digits) as u32)
    } else {
        None
    }
}

/// Where the extension of a file name begins: at its last dot, unless the
/// name has none or only the one it starts with.
pub open spec fn extension_dot(name: Seq<u8>) -> Option<int> {
    match name.index_of_last(46u8) {
        Some(i) => if i > 0 {
            Some(i)
        } else {
            None
        },
        None => None,
    }
}

/// The bytes before the first underscore, or all of them where there is none.
pub open spec fn first_segment(s: Seq<u8>) -> Seq<u8> {
    match s.index_of_first(95u8) {
        Some(i) => s.subrange(0, i),
        None => s,
    }
}

/// The coordinate that the part of a file name before its extension writes:
/// its first two segments between underscores, both in decimal. Further
/// segments are not read. `None` where there is no underscore, or a segment
/// is not a number.
pub open spec fn stem_coordinate(stem: Seq<u8>) -> Option<TileCoordinate> {
    match stem.index_of_first(95u8) {
        None => None,
        Some(i) => {
            let rest = stem.subrange(i + 1, stem.len() as int);
            match (decimal_value(stem.subrange(0, i)), decimal_value(first_segment(rest))) {
                (Some(x), Some(y)) => Some(TileCoordinate { x, y }),
                _ => None,
            }
        },
    }
}

/// What a file name says about the file.
pub open spec fn name_kind(name: Seq<u8>) -> NameKind {
    match extension_dot(name) {
        None => NameKind::Other,
        Some(i) => if is_height_extension(name.subrange(i + 1, name.len() as int)) {
            match stem_coordinate(name.subrange(0, i)) {
                Some(c) => NameKind::Tile(c),
                None => NameKind::Malformed,
            }
        } else {
            NameKind::Other
        },
    }
}

/// The coordinate of the tile of a kind that a file name names, if it names
/// one: the extension is that of the kind, in any mix of upper and lower
/// case, and the part before it writes the coordinate.
pub open spec fn named_tile(name: Seq<u8>, kind: TileKind) -> Option<TileCoordinate> {
    match extension_dot(name) {
        None => None,
        Some(i) => if is_tile_extension(name.subrange(i + 1, name.len() as int), kind) {
            stem_coordinate(name.subrange(0, i))
        } else {
            None
        },
    }
}

/// Whether the name at `i` is the first of the list that names the tile of
/// a kind at `c`.
pub open spec fn is_first_file_of(names: Seq<Vec<u8>>, c: TileCoordinate, kind: TileKind, i: int) -> bool {
    &&& 0 <= i < names.len()
    &&& named_tile(names[i]@, kind) == Some(c)
    &&& forall|j: int| 0 <= j < i ==> named_tile((#[trigger] names[j])@, kind) != Some(c)
}

/// Whether a file name is that of the zone of the map `map_name`: the name
/// of the map, a dot, and `zon` in any mix of upper and lower case.
pub open spec fn is_zone_file(name: Seq<u8>, map_name: Seq<u8>) -> bool {
    &&& extension_dot(name) == Some(map_name.len() as int)
    &&& name.subrange(0, map_name.len() as int) == map_name
    &&& is_zone_extension(name.subrange(map_name.len() as int + 1, name.len() as int))
}

/// A name is that of the height tile at `c` for the scan exactly when it
/// names the height tile at `c`: what the scan finds, `find_tile_file` finds.
pub proof fn lemma_scanned_name_is_tile_file(name: Seq<u8>, c: TileCoordinate)
    ensures
        name_kind(name) == NameKind::Tile(c) <==> named_tile(name, TileKind::Height) == Some(c),
{
}

/// The coordinates of the height tiles among the names, in the order of the names.
pub open spec fn tile_coordinates(names: Seq<Vec<u8>>) -> Seq<TileCoordinate>
    decreases names.len(),
{
    if names.len() == 0 {
        Seq::empty()
    } else {
        let before = tile_coordinates(names.drop_last());
        match name_kind(names.last()@) {
            NameKind::Tile(c) => before.push(c),
            _ => before,
        }
    }
}

/// Whether the name at `i` is the first malformed one of the list.
pub open spec fn is_first_malformed(names: Seq<Vec<u8>>, i: int) -> bool {
    &&& 0 <= i < names.len()
    &&& name_kind(names[i]@) is Malformed
    &&& forall|j: int| 0 <= j < i ==> !(name_kind((#[trigger] names[j])@) is Malformed)
}

/// Whether no name of the list is malformed.
pub open spec fn none_malformed(names: Seq<Vec<u8>>) -> bool {
    forall|j: int| 0 <= j < names.len() ==> !(name_kind((#[trigger] names[j])@) is Malformed)
}

/// The number written by a run of digits is at least the number written by
/// any of its beginnings.
proof fn lemma_digits_value_grows(s: Seq<u8>, k: int)
    requires
        0 <= k <= s.len(),
    ensures
        digits_value(s.subrange(0, k)) <= digits_value(s),
    decreases s.len() - k,
{
    if k == s.len() {
        assert(s.subrange(0, k) =~= s);
    } else {
        lemma_digits_value_grows(s.drop_last(), k);
        assert(s.drop_last().subrange(0, k) =~= s.subrange(0, k));
    }
}

/// The position of the first `b` among the bytes.
fn first_position(s: &[u8], b: u8) -> (out: Option<usize>)
    ensures
        match out {
            Some(i) => i < s@.len() && s@.index_of_first(b) == Some(i as int),
            None => s@.index_of_first(b) is None,
        },
{
    let mut i: usize = 0;
    while i < s.len()
        invariant
            i <= s@.len(),
            forall|j: int| 0 <= j < i ==> s@[j] != b,
        decreases s@.len() - i,
    {
        if s[i] == b {
            proof {
                s@.index_of_first_ensures(b);
                assert(s@.contains(b));
            }
            return Some(i);
        }
        i = i + 1;
    }
    proof {
        s@.index_of_first_ensures(b);
    }
    None
}

/// The position of the last `b` among the bytes.
fn last_position(s: &[u8], b: u8) -> (out: Option<usize>)
    ensures
        match out {
            Some(i) => i < s@.len() && s@.index_of_last(b) == Some(i as int),
            None => s@.index_of_last(b) is None,
        },
{
    let mut i: usize = s.len();
    while i > 0
        invariant
            i <= s@.len(),
            forall|j: int| i <= j < s@.len() ==> s@[j] != b,
        decreases i,
    {
        i = i - 1;
        if s[i] == b {
            proof {
                s@.index_of_last_ensures(b);
                assert(s@.contains(b));
            }
            return Some(i);
        }
    }
    proof {
        s@.index_of_last_ensures(b);
    }
    None
}

/// Reads a number as `decimal_value` defines it.
pub fn parse_decimal(s: &[u8]) -> (out: Option<u32>)
    ensures
        out == decimal_value(s@),
{
    let start: usize = if s.len() > 0 && s[0] == 43 {
        1
    } else {
        0
    };
    let digits = slice_subrange(s, start, s.len());
    assert(digits@ =~= unsigned(s@));
    if digits.len() == 0 {
        return None;
    }
    let mut value: u64 = 0;
    let mut i: usize = 0;
    while i < digits.len()
        invariant
            i <= digits@.len(),
            digits@ == unsigned(s@),
            all_digits(digits@.subrange(0, i as int)),
            value == digits_value(digits@.subrange(0, i as int)),
            value <= u32::MAX,
        decreases digits@.len() - i,
    {
        let b = digits[i];
        if b < 48 || b > 57 {
            assert(digits@[i as int] == b);
            return None;
        }
        proof {
            let next = digits@.subrange(0, i + 1);
            assert(next.drop_last() =~= digits@.subrange(0, i as int));
            assert(next.last() == b);
            assert forall|j: int| 0 <= j < next.len() implies 48 <= #[trigger] next[j] <= 57 by {
                if j < i {
                    assert(digits@.subrange(0, i as int)[j] == next[j]);
                }
            }
        }
        value = value * 10 + (b - 48) as u64;
        assert(value == digits_value(digits@.subrange(0, i + 1)));
        if value > u32::MAX as u64 {
            proof {
                lemma_digits_value_grows(digits@, i + 1);
            }
            return None;
        }
        i = i + 1;
    }
    assert(digits@.subrange(0, i as int) =~= digits@);
    Some(value as u32)
}

/// Whether the bytes spell the three given lower-case letters in any mix of
/// upper and lower case.
fn spells(ext: &[u8], a: u8, b: u8, c: u8) -> (out: bool)
    requires
        97 <= a <= 122,
        97 <= b <= 122,
        97 <= c <= 122,
    ensures
        out == (ext@.len() == 3 && lower(ext@[0]) == a && lower(ext@[1]) == b && lower(ext@[2]) == c),
{
    ext.len() == 3 && (ext[0] == a || ext[0] == a - 32) && (ext[1] == b || ext[1] == b - 32) && (ext[2]
        == c || ext[2] == c - 32)
}

/// Whether the bytes spell the extension of a kind of tile.
fn has_tile_extension(ext: &[u8], kind: TileKind) -> (out: bool)
    ensures
        out == is_tile_extension(ext@, kind),
{
    match kind {
        TileKind::Height => spells(ext, 104, 105, 109),
        TileKind::Index => spells(ext, 116, 105, 108),
    }
}

/// Whether two runs of bytes are the same.
fn same_bytes(a: &[u8], b: &[u8]) -> (out: bool)
    ensures
        out == (a@ == b@),
{
    if a.len() != b.len() {
        return false;
    }
    let mut i: usize = 0;
    while i < a.len()
        invariant
            i <= a@.len(),
            a@.len() == b@.len(),
            forall|j: int| 0 <= j < i ==> a@[j] == b@[j],
        decreases a@.len() - i,
    {
        if a[i] != b[i] {
            return false;
        }
        i = i + 1;
    }
    assert(a@ =~= b@);
    true
}

/// Reads the coordinate before the extension as `stem_coordinate` defines it.
fn parse_stem(stem: &[u8]) -> (out: Option<TileCoordinate>)
    ensures
        out == stem_coordinate(stem@),
{
    let sep = match first_position(stem, 95) {
        Some(i) => i,
        None => {
            return None;
        },
    };
    proof {
        stem@.index_of_first_ensures(95u8);
    }
    let first = slice_subrange(stem, 0, sep);
    let end = stem.len();
    let rest = slice_subrange(stem, sep + 1, end);
    let second = match first_position(rest, 95) {
        Some(k) => {
            proof {
                rest@.index_of_first_ensures(95u8);
            }
            slice_subrange(rest, 0, k)
        },
        None => rest,
    };
    assert(second@ == first_segment(rest@));
    match (parse_decimal(first), parse_decimal(second)) {
        (Some(x), Some(y)) => Some(TileCoordinate { x, y }),
        _ => None,
    }
}

/// Tells what a file name says about the file.
pub fn classify_name(name: &[u8]) -> (out: NameKind)
    ensures
        out == name_kind(name@),
{
    let dot = match last_position(name, 46) {
        Some(i) => i,
        None => {
            return NameKind::Other;
        },
    };
    if dot == 0 {
        return NameKind::Other;
    }
    proof {
        name@.index_of_last_ensures(46u8);
    }
    let end = name.len();
    let ext = slice_subrange(name, dot + 1, end);
    if !has_tile_extension(ext, TileKind::Height) {
        return NameKind::Other;
    }
    let stem = slice_subrange(name, 0, dot);
    match parse_stem(stem) {
        Some(c) => NameKind::Tile(c),
        None => NameKind::Malformed,
    }
}

/// The coordinate of the tile of a kind that a file name names, if it names one.
pub fn tile_named(name: &[u8], kind: TileKind) -> (out: Option<TileCoordinate>)
    ensures
        out == named_tile(name@, kind),
{
    let dot = match last_position(name, 46) {
        Some(i) => i,
        None => {
            return None;
        },
    };
    if dot == 0 {
        return None;
    }
    let end = name.len();
    let ext = slice_subrange(name, dot + 1, end);
    if !has_tile_extension(ext, kind) {
        return None;
    }
    parse_stem(slice_subrange(name, 0, dot))
}

/// The position, among the file names of a map directory, of the first one
/// that names the tile of a kind at `c`, whatever the case of its
/// extension; `None` where no name does.
pub fn find_tile_file(names: &Vec<Vec<u8>>, c: TileCoordinate, kind: TileKind) -> (out: Option<usize>)
    ensures
        match out {
            Some(i) => is_first_file_of(names@, c, kind, i as int),
            None => forall|j: int|
                0 <= j < names@.len() ==> named_tile((#[trigger] names@[j])@, kind) != Some(c),
        },
{
    let mut i: usize = 0;
    while i < names.len()
        invariant
            i <= names@.len(),
            forall|j: int| 0 <= j < i ==> named_tile((#[trigger] names@[j])@, kind) != Some(c),
        decreases names@.len() - i,
    {
        match tile_named(names[i].as_slice(), kind) {
            Some(at) => {
                if at.x == c.x && at.y == c.y {
                    return Some(i);
                }
            },
            None => {},
        }
        i = i + 1;
    }
    None
}

/// Tells whether a file name is that of the zone of the map `map_name`.
pub fn names_zone(name: &[u8], map_name: &[u8]) -> (out: bool)
    ensures
        out == is_zone_file(name@, map_name@),
{
    let dot = match last_position(name, 46) {
        Some(i) => i,
        None => {
            return false;
        },
    };
    if dot == 0 || dot != map_name.len() {
        return false;
    }
    let end = name.len();
    same_bytes(slice_subrange(name, 0, dot), map_name) && spells(
        slice_subrange(name, dot + 1, end),
        122,
        111,
        110,
    )
}

/// The position, among the file names of a map directory, of the first one
/// that is the zone file of the map `map_name`, whatever the case of its
/// extension; `None` where no name is.
pub fn find_zone_file(names: &Vec<Vec<u8>>, map_name: &[u8]) -> (out: Option<usize>)
    ensures
        match out {
            Some(i) => {
                &&& i < names@.len()
                &&& is_zone_file(names@[i as int]@, map_name@)
                &&& forall|j: int| 0 <= j < i ==> !is_zone_file((#[trigger] names@[j])@, map_name@)
            },
            None => forall|j: int|
                0 <= j < names@.len() ==> !is_zone_file((#[trigger] names@[j])@, map_name@),
        },
{
    let mut i: usize = 0;
    while i < names.len()
        invariant
            i <= names@.len(),
            forall|j: int| 0 <= j < i ==> !is_zone_file((#[trigger] names@[j])@, map_name@),
        decreases names@.len() - i,
    {
        if names_zone(names[i].as_slice(), map_name) {
            return Some(i);
        }
        i = i + 1;
    }
    None
}

/// The coordinates of the height tiles among the file names of a directory,
/// in the order of the names; or the first name that has the extension of a
/// height tile and no coordinate.
pub fn scan_names(names: &Vec<Vec<u8>>) -> (out: Result<Vec<TileCoordinate>, MapError>)
    ensures
        match out {
            Ok(found) => none_malformed(names@) && found@ == tile_coordinates(names@),
            Err(e) => exists|i: int|
                is_first_malformed(names@, i) && e == (MapError::CoordinateParse { index: i as usize }),
        },
{
    let mut found: Vec<TileCoordinate> = Vec::new();
    let mut i: usize = 0;
    while i < names.len()
        invariant
            i <= names@.len(),
            none_malformed(names@.subrange(0, i as int)),
            found@ == tile_coordinates(names@.subrange(0, i as int)),
        decreases names@.len() - i,
    {
        let kind = classify_name(names[i].as_slice());
        proof {
            let next = names@.subrange(0, i + 1);
            assert(next.drop_last() =~= names@.subrange(0, i as int));
            assert(next.last() == names@[i as int]);
        }
        match kind {
            NameKind::Malformed => {
                proof {
                    assert forall|j: int| 0 <= j < i implies !(name_kind((#[trigger] names@[j])@)
                        is Malformed) by {
                        assert(names@.subrange(0, i as int)[j] == names@[j]);
                    }
                    assert(is_first_malformed(names@, i as int));
                }
                return Err(MapError::CoordinateParse { index: i });
            },
            NameKind::Tile(c) => {
                found.push(c);
            },
            NameKind::Other => {},
        }
        proof {
            let next = names@.subrange(0, i + 1);
            assert forall|j: int| 0 <= j < next.len() implies !(name_kind((#[trigger] next[j])@)
                is Malformed) by {
                if j < i {
                    assert(names@.subrange(0, i as int)[j] == next[j]);
                }
            }
        }
        i = i + 1;
    }
    assert(names@.subrange(0, i as int) =~= names@);
    Ok(found)
}

/// The tiles of a map and the rectangle around them.
pub struct TileScan {
    pub coordinates: Vec<TileCoordinate>,
    pub bounds: BoundingRect,
}

/// Finds the height tiles among the file names of a map directory and the
/// bounding rectangle of their coordinates.
///
/// Fails with `CoordinateParse` for the first name that has the extension of
/// a height tile and no coordinate, and with `NoTilesFound` where no name is
/// malformed and none is a height tile. Whether every coordinate of the
/// rectangle has a tile is not looked at here.
pub fn scan_tiles(names: &Vec<Vec<u8>>) -> (out: Result<TileScan, MapError>)
    ensures
        match out {
            Ok(scan) => {
                &&& none_malformed(names@)
                &&& scan.coordinates@ == tile_coordinates(names@)
                &&& scan.coordinates@.len() > 0
                &&& encloses(scan.bounds, scan.coordinates@)
            },
            Err(e) => if none_malformed(names@) {
                tile_coordinates(names@).len() == 0 && e == MapError::NoTilesFound
            } else {
                exists|i: int|
                    is_first_malformed(names@, i) && e == (MapError::CoordinateParse {
                        index: i as usize,
                    })
            },
        },
{
    let coordinates = scan_names(names)?;
    match BoundingRect::enclosing(&coordinates) {
        Some(bounds) => Ok(TileScan { coordinates, bounds }),
        None => Err(MapError::NoTilesFound),
    }
}

} // verus!
