//! The least and the greatest elevation seen so far.

use vstd::prelude::*;
use crate::grid::Grid;

verus! {

/// The bounds after one more sample has been seen.
pub open spec fn absorbed(bounds: Option<(i32, i32)>, sample: i32) -> Option<(i32, i32)> {
    match bounds {
        None => Some((sample, sample)),
        Some((lo, hi)) => Some(
            (
                if sample < lo {
                    sample
                } else {
                    lo
                },
                if sample > hi {
                    sample
                } else {
                    hi
                },
            ),
        ),
    }
}

/// The bounds of two sets of samples taken together.
pub open spec fn merged(a: Option<(i32, i32)>, b: Option<(i32, i32)>) -> Option<(i32, i32)> {
    match (a, b) {
        (None, _) => b,
        (_, None) => a,
        (Some((alo, ahi)), Some((blo, bhi))) => Some(
            (
                if blo < alo {
                    blo
                } else {
                    alo
                },
                if bhi > ahi {
                    bhi
                } else {
                    ahi
                },
            ),
        ),
    }
}

/// Merging does not depend on the order of its two arguments.
pub proof fn lemma_merged_commutative(a: Option<(i32, i32)>, b: Option<(i32, i32)>)
    ensures
        merged(a, b) == merged(b, a),
{
}

/// Merging three bounds gives the same result however they are grouped.
pub proof fn lemma_merged_associative(
    a: Option<(i32, i32)>,
    b: Option<(i32, i32)>,
    c: Option<(i32, i32)>,
)
    ensures
        merged(merged(a, b), c) == merged(a, merged(b, c)),
{
}

/// Seeing one sample is merging with the bounds of that sample alone, and
/// merging with no sample at all changes nothing.
pub proof fn lemma_absorbed_is_merged(bounds: Option<(i32, i32)>, sample: i32)
    ensures
        absorbed(bounds, sample) == merged(bounds, Some((sample, sample))),
        merged(bounds, None) == bounds,
        merged(None, bounds) == bounds,
{
}

/// Whether `lo` and `hi` are the least and the greatest value among the
/// cells of the first `width` columns and `height` rows of `field`.
pub open spec fn spans_region(field: Grid, width: nat, height: nat, lo: i32, hi: i32) -> bool {
    &&& forall|x: int, y: int|
        0 <= x < width && 0 <= y < height ==> lo <= #[trigger] field.at(x, y) <= hi
    &&& exists|x: int, y: int| 0 <= x < width && 0 <= y < height && #[trigger] field.at(x, y) == lo
    &&& exists|x: int, y: int| 0 <= x < width && 0 <= y < height && #[trigger] field.at(x, y) == hi
}

/// Whether `bounds` are the extremes of that region: none for a region
/// without cells, else its least and greatest value.
pub open spec fn bounds_region(field: Grid, width: nat, height: nat, bounds: Option<(i32, i32)>) -> bool {
    match bounds {
        None => width == 0 || height == 0,
        Some((lo, hi)) => width > 0 && height > 0 && spans_region(field, width, height, lo, hi),
    }
}

/// Running minimum and maximum of the elevations seen; empty until the first
/// sample, which becomes both.
#[derive(Clone, Copy, Debug)]
pub struct ElevationExtremes {
    range: Option<(i32, i32)>,
}

impl ElevationExtremes {
    #[verifier::type_invariant]
    spec fn inv(self) -> bool {
        match self.range {
            None => true,
            Some((lo, hi)) => lo <= hi,
        }
    }

    /// The least and the greatest sample seen, or `None` before the first.
    pub closed spec fn bounds(&self) -> Option<(i32, i32)> {
        self.range
    }

    /// Extremes with no sample seen.
    pub fn new() -> (out: ElevationExtremes)
        ensures
            out.bounds() is None,
    {
        ElevationExtremes { range: None }
    }

    /// The least and the greatest sample seen, or `None` before the first.
    pub fn range(&self) -> (out: Option<(i32, i32)>)
        ensures
            out == self.bounds(),
            out matches Some(r) ==> r.0 <= r.1,
    {
        proof {
            use_type_invariant(self);
        }
        self.range
    }

    /// Takes one more sample into account.
    pub fn observe(&mut self, sample: i32)
        ensures
            final(self).bounds() == absorbed(old(self).bounds(), sample),
    {
        proof {
            use_type_invariant(&*self);
        }
        let next = match self.range {
            None => (sample, sample),
            Some((lo, hi)) => (
                if sample < lo {
                    sample
                } else {
                    lo
                },
                if sample > hi {
                    sample
                } else {
                    hi
                },
            ),
        };
        self.range = Some(next);
    }

    /// The extremes of everything that either side has seen.
    pub fn merge(&self, other: &ElevationExtremes) -> (out: ElevationExtremes)
        ensures
            out.bounds() == merged(self.bounds(), other.bounds()),
    {
        proof {
            use_type_invariant(self);
            use_type_invariant(other);
        }
        let range = match (self.range, other.range) {
            (None, b) => b,
            (a, None) => a,
            (Some((alo, ahi)), Some((blo, bhi))) => Some(
                (
                    if blo < alo {
                        blo
                    } else {
                        alo
                    },
                    if bhi > ahi {
                        bhi
                    } else {
                        ahi
                    },
                ),
            ),
        };
        ElevationExtremes { range }
    }

    /// The extremes of the cells in the first `width` columns and `height`
    /// rows of `field`, the region cut to the field where it reaches beyond.
    pub fn of_region(field: &Grid, width: usize, height: usize) -> (out: ElevationExtremes)
        ensures
            bounds_region(
                *field,
                if width <= field.cols() {
                    width as nat
                } else {
                    field.cols()
                },
                if height <= field.rows() {
                    height as nat
                } else {
                    field.rows()
                },
                out.bounds(),
            ),
    {
        let w = if width <= field.width() {
            width
        } else {
            field.width()
        };
        let h = if height <= field.height() {
            height
        } else {
            field.height()
        };
        let mut out = ElevationExtremes::new();
        if w == 0 {
            return out;
        }
        let ghost mut lo_at: (int, int) = (0, 0);
        let ghost mut hi_at: (int, int) = (0, 0);
        let mut y: usize = 0;
        while y < h
            invariant
                0 < w <= field.cols(),
                h <= field.rows(),
                y <= h,
                y == 0 ==> out.bounds() is None,
                y > 0 ==> out.bounds() is Some,
                out.bounds() matches Some((lo, hi)) ==> {
                    &&& forall|i: int, j: int|
                        0 <= i < w && 0 <= j < y ==> lo <= #[trigger] field.at(i, j) <= hi
                    &&& 0 <= lo_at.0 < w && 0 <= lo_at.1 < y && field.at(lo_at.0, lo_at.1) == lo
                    &&& 0 <= hi_at.0 < w && 0 <= hi_at.1 < y && field.at(hi_at.0, hi_at.1) == hi
                },
            decreases h - y,
        {
            let mut x: usize = 0;
            while x < w
                invariant
                    0 < w <= field.cols(),
                    h <= field.rows(),
                    y < h,
                    x <= w,
                    y == 0 && x == 0 ==> out.bounds() is None,
                    y > 0 || x > 0 ==> out.bounds() is Some,
                    out.bounds() matches Some((lo, hi)) ==> {
                        &&& forall|i: int, j: int|
                            0 <= i < w && (0 <= j < y || (j == y && i < x)) ==> lo <= #[trigger] field.at(
                                i,
                                j,
                            ) <= hi
                        &&& 0 <= lo_at.0 < w && 0 <= lo_at.1 <= y && field.at(lo_at.0, lo_at.1) == lo
                        &&& 0 <= hi_at.0 < w && 0 <= hi_at.1 <= y && field.at(hi_at.0, hi_at.1) == hi
                    },
                decreases w - x,
            {
                match field.get(x, y) {
                    Some(sample) => {
                        let ghost before = out.bounds();
                        out.observe(sample);
                        proof {
                            match before {
                                None => {
                                    lo_at = (x as int, y as int);
                                    hi_at = (x as int, y as int);
                                },
                                Some((lo, hi)) => {
                                    if sample < lo {
                                        lo_at = (x as int, y as int);
                                    }
                                    if sample > hi {
                                        hi_at = (x as int, y as int);
                                    }
                                },
                            }
                        }
                    },
                    None => {},
                }
                x = x + 1;
            }
            y = y + 1;
        }
        out
    }
}

} // verus!
