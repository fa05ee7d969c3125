//! Tile coordinates, their bounding rectangle, and the extents of the
//! stitched grids that a rectangle gives rise to.

use vstd::prelude::*;

verus! {

/// Side of a height tile, in samples.
pub const HEIGHT_TILE_SIDE: usize = 65;

/// Side of a tile-index tile, in cells.
pub const INDEX_TILE_SIDE: usize = 16;

/// Elevation samples per tile-index cell along one axis.
pub const SAMPLES_PER_INDEX_CELL: usize = 4;

/// Grid position of one world tile.
#[derive(Clone, Copy, Debug, PartialEq, Eq, Structural)]
pub struct TileCoordinate {
    pub x: u32,
    pub y: u32,
}

/// The smallest rectangle of coordinates, bounds included, around a set of tiles.
#[derive(Clone, Copy, Debug)]
pub struct BoundingRect {
    x_min: u32,
    x_max: u32,
    y_min: u32,
    y_max: u32,
}

/// The stitched elevation extent along an axis that spans `span` tiles:
/// `span * 65` samples, rounded up to a multiple of four, plus the one sample
/// of the shared closing edge.
pub open spec fn padded_extent(span: nat) -> nat {
    ((span * 65 + 3) / 4) * 4 + 1
}

/// The stitched tile-index extent along an axis that spans `span` tiles: one
/// cell for every four elevation samples, the fraction dropped.
pub open spec fn index_extent(span: nat) -> nat {
    padded_extent(span) / 4
}

/// The padded elevation extent holds every sample, exceeds them by at most
/// four, and is one more than a multiple of four.
pub proof fn lemma_padded_extent_bounds(span: nat)
    ensures
        span * 65 < padded_extent(span) <= span * 65 + 4,
        padded_extent(span) % 4 == 1,
{
}

/// The tile-index extent holds the sixteen cells of every tile, and four
/// samples for each of its cells fit in the padded elevation extent.
pub proof fn lemma_index_extent_bounds(span: nat)
    ensures
        span * 16 <= index_extent(span),
        index_extent(span) * 4 + 1 == padded_extent(span),
{
}

/// Whether `rect` is the smallest rectangle around the coordinates: it holds
/// each of them, and each of its four bounds is reached by one of them.
pub open spec fn encloses(rect: BoundingRect, coords: Seq<TileCoordinate>) -> bool {
    &&& forall|i: int| 0 <= i < coords.len() ==> rect.holds(#[trigger] coords[i])
    &&& exists|i: int| 0 <= i < coords.len() && (#[trigger] coords[i]).x == rect.left()
    &&& exists|i: int| 0 <= i < coords.len() && (#[trigger] coords[i]).x == rect.right()
    &&& exists|i: int| 0 <= i < coords.len() && (#[trigger] coords[i]).y == rect.top()
    &&& exists|i: int| 0 <= i < coords.len() && (#[trigger] coords[i]).y == rect.bottom()
}

impl BoundingRect {
    #[verifier::type_invariant]
    spec fn inv(self) -> bool {
        self.x_min <= self.x_max && self.y_min <= self.y_max
    }

    /// Least `x` of the rectangle.
    pub closed spec fn left(&self) -> u32 {
        self.x_min
    }

    /// Greatest `x` of the rectangle.
    pub closed spec fn right(&self) -> u32 {
        self.x_max
    }

    /// Least `y` of the rectangle.
    pub closed spec fn top(&self) -> u32 {
        self.y_min
    }

    /// Greatest `y` of the rectangle.
    pub closed spec fn bottom(&self) -> u32 {
        self.y_max
    }

    /// Whether the bounds are ordered; true of every rectangle that exists.
    pub open spec fn ordered(&self) -> bool {
        self.left() <= self.right() && self.top() <= self.bottom()
    }

    /// Number of tile columns.
    pub open spec fn span_x(&self) -> nat {
        (self.right() - self.left() + 1) as nat
    }

    /// Number of tile rows.
    pub open spec fn span_y(&self) -> nat {
        (self.bottom() - self.top() + 1) as nat
    }

    /// Whether `c` lies inside the rectangle.
    pub open spec fn holds(&self, c: TileCoordinate) -> bool {
        self.left() <= c.x <= self.right() && self.top() <= c.y <= self.bottom()
    }

    /// Width of the stitched elevation grid.
    pub open spec fn map_width(&self) -> nat {
        padded_extent(self.span_x())
    }

    /// Height of the stitched elevation grid.
    pub open spec fn map_height(&self) -> nat {
        padded_extent(self.span_y())
    }

    /// Width of the stitched tile-index grid.
    pub open spec fn tiles_x(&self) -> nat {
        index_extent(self.span_x())
    }

    /// Height of the stitched tile-index grid.
    pub open spec fn tiles_y(&self) -> nat {
        index_extent(self.span_y())
    }

    /// Whether the stitched elevation grid can be held in memory and drawn
    /// as an image: each side fits in `u32`, and the four bytes of every
    /// cell together in `isize`, the most that one allocation can hold.
    pub open spec fn fits(&self) -> bool {
        &&& self.map_width() <= u32::MAX
        &&& self.map_height() <= u32::MAX
        &&& 4 * (self.map_width() * self.map_height()) <= isize::MAX
    }

    /// The rectangle with the given bounds, or `None` when a lower bound
    /// exceeds its upper bound.
    pub fn new(x_min: u32, x_max: u32, y_min: u32, y_max: u32) -> (out: Option<BoundingRect>)
        ensures
            out is Some <==> x_min <= x_max && y_min <= y_max,
            out matches Some(r) ==> r.left() == x_min && r.right() == x_max && r.top() == y_min
                && r.bottom() == y_max,
    {
        if x_min <= x_max && y_min <= y_max {
            Some(BoundingRect { x_min, x_max, y_min, y_max })
        } else {
            None
        }
    }

    /// The smallest rectangle around the coordinates, or `None` where there
    /// are none.
    pub fn enclosing(coords: &Vec<TileCoordinate>) -> (out: Option<BoundingRect>)
        ensures
            out is Some <==> coords@.len() > 0,
            out matches Some(r) ==> encloses(r, coords@),
    {
        if coords.len() == 0 {
            return None;
        }
        let first = coords[0];
        let mut rect = BoundingRect { x_min: first.x, x_max: first.x, y_min: first.y, y_max: first.y };
        let ghost mut at_left: int = 0;
        let ghost mut at_right: int = 0;
        let ghost mut at_top: int = 0;
        let ghost mut at_bottom: int = 0;
        let mut i: usize = 1;
        while i < coords.len()
            invariant
                1 <= i <= coords@.len(),
                forall|k: int| 0 <= k < i ==> rect.holds(#[trigger] coords@[k]),
                0 <= at_left < i && coords@[at_left].x == rect.left(),
                0 <= at_right < i && coords@[at_right].x == rect.right(),
                0 <= at_top < i && coords@[at_top].y == rect.top(),
                0 <= at_bottom < i && coords@[at_bottom].y == rect.bottom(),
            decreases coords@.len() - i,
        {
            let c = coords[i];
            let mut x_min = rect.x_min;
            let mut x_max = rect.x_max;
            let mut y_min = rect.y_min;
            let mut y_max = rect.y_max;
            proof {
                use_type_invariant(&rect);
            }
            if c.x < x_min {
                x_min = c.x;
                proof {
                    at_left = i as int;
                }
            }
            if c.x > x_max {
                x_max = c.x;
                proof {
                    at_right = i as int;
                }
            }
            if c.y < y_min {
                y_min = c.y;
                proof {
                    at_top = i as int;
                }
            }
            if c.y > y_max {
                y_max = c.y;
                proof {
                    at_bottom = i as int;
                }
            }
            rect = BoundingRect { x_min, x_max, y_min, y_max };
            i = i + 1;
        }
        Some(rect)
    }

    /// Least `x` of the rectangle.
    pub fn x_min(&self) -> (v: u32)
        ensures
            v == self.left(),
    {
        self.x_min
    }

    /// Greatest `x` of the rectangle.
    pub fn x_max(&self) -> (v: u32)
        ensures
            v == self.right(),
    {
        self.x_max
    }

    /// Least `y` of the rectangle.
    pub fn y_min(&self) -> (v: u32)
        ensures
            v == self.top(),
    {
        self.y_min
    }

    /// Greatest `y` of the rectangle.
    pub fn y_max(&self) -> (v: u32)
        ensures
            v == self.bottom(),
    {
        self.y_max
    }

    /// Whether `c` lies inside the rectangle.
    pub fn contains(&self, c: TileCoordinate) -> (inside: bool)
        ensures
            inside == self.holds(c),
    {
        self.x_min <= c.x && c.x <= self.x_max && self.y_min <= c.y && c.y <= self.y_max
    }

    /// Number of tile columns and of tile rows.
    pub fn spans(&self) -> (out: (u64, u64))
        ensures
            self.ordered(),
            out.0 == self.span_x(),
            out.1 == self.span_y(),
            1 <= out.0 <= 0x1_0000_0000,
            1 <= out.1 <= 0x1_0000_0000,
    {
        proof {
            use_type_invariant(self);
        }
        let sx: u64 = (self.x_max - self.x_min) as u64 + 1;
        let sy: u64 = (self.y_max - self.y_min) as u64 + 1;
        (sx, sy)
    }

    /// Width and height of the stitched elevation grid, or `None` when the
    /// grid does not fit.
    pub fn map_extent(&self) -> (out: Option<(usize, usize)>)
        ensures
            out is Some <==> self.fits(),
            out matches Some(e) ==> e.0 == self.map_width() && e.1 == self.map_height(),
    {
        let (sx, sy) = self.spans();
        let w: u64 = padded(sx);
        let h: u64 = padded(sy);
        if w > u32::MAX as u64 || h > u32::MAX as u64 {
            return None;
        }
        let w: usize = w as usize;
        let h: usize = h as usize;
        match w.checked_mul(h) {
            Some(cells) => if cells <= isize::MAX as usize / 4 {
                Some((w, h))
            } else {
                None
            },
            None => None,
        }
    }

    /// Width and height of the stitched tile-index grid, or `None` when the
    /// elevation grid of the same rectangle does not fit.
    pub fn index_map_extent(&self) -> (out: Option<(usize, usize)>)
        ensures
            out is Some <==> self.fits(),
            out matches Some(e) ==> e.0 == self.tiles_x() && e.1 == self.tiles_y(),
    {
        match self.map_extent() {
            Some((w, h)) => Some((w / SAMPLES_PER_INDEX_CELL, h / SAMPLES_PER_INDEX_CELL)),
            None => None,
        }
    }
}

/// The padded elevation extent for a span of at most 2^32 tiles.
fn padded(span: u64) -> (out: u64)
    requires
        span <= 0x1_0000_0000,
    ensures
        out == padded_extent(span as nat),
{
    (span * 65 + 3) / 4 * 4 + 1
}

} // verus!
