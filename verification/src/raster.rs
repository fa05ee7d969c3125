//! Normalising an elevation grid into an 8-bit grayscale image.

use vstd::prelude::*;
use vstd::arithmetic::power2::pow2;
use crate::dyadic::{is_small, sum_is_nonnegative};
use crate::elevation::{lemma_sample_units_increasing, sample_parts, sample_units};
use crate::error::MapError;
use crate::extremes::ElevationExtremes;
use crate::grid::{flat_index, lemma_flat_index_in_bounds, lemma_flat_index_injective, Grid};

verus! {

/// An 8-bit, single-channel image, held as an `image::GrayImage`. The
/// verifier does not look inside: what the image holds goes by the names
/// `gray_levels` and `gray_extent`, and the four private functions below
/// say what the methods of `image::ImageBuffer` do to them.
#[verifier::external_body]
pub struct GrayRaster {
    image: image::GrayImage,
}

/// The gray levels that a raster holds, row by row from the top-left corner.
pub uninterp spec fn gray_levels(raster: GrayRaster) -> Seq<u8>;

/// The width and the height of a raster, in pixels.
pub uninterp spec fn gray_extent(raster: GrayRaster) -> (nat, nat);

/// A value cut to the range of a gray level.
pub open spec fn clamp_level(v: int) -> u8 {
    if v < 0 {
        0
    } else if v > 255 {
        255
    } else {
        v as u8
    }
}

/// The gray level of an elevation between the extremes `lo` and `hi`, all
/// three given as samples: with `h`, `min` and `max` the numbers that they
/// stand for, `255 * (h - min) / (max - min)` rounded to the nearest
/// integer, a half upwards, and cut to `0..=255`. The arithmetic is that of
/// the real numbers: no intermediate result is rounded. Where the extremes
/// do not differ the quotient has no value, and the level is 0.
pub open spec fn gray_level(sample: int, lo: int, hi: int) -> u8 {
    if lo >= hi {
        0
    } else {
        let span = sample_units(hi) - sample_units(lo);
        clamp_level((510 * (sample_units(sample) - sample_units(lo)) + span) / (2 * span))
    }
}

/// The least elevation is drawn black and the greatest white, whenever the
/// two differ.
pub proof fn lemma_extremes_are_black_and_white(lo: int, hi: int)
    requires
        lo < hi,
    ensures
        gray_level(lo, lo, hi) == 0,
        gray_level(hi, lo, hi) == 255,
{
    lemma_sample_units_increasing(lo, hi);
    let d = sample_units(hi) - sample_units(lo);
    assert(d / (2 * d) == 0) by (nonlinear_arith)
        requires
            d > 0,
    ;
    assert((510 * d + d) / (2 * d) == 255) by (nonlinear_arith)
        requires
            d > 0,
    ;
}

/// A field whose extremes coincide is drawn black throughout, whatever its cells hold.
pub proof fn lemma_flat_field_is_black(sample: int, level: int)
    ensures
        gray_level(sample, level, level) == 0,
{
}

/// A higher elevation is never drawn darker.
pub proof fn lemma_gray_level_monotonic(a: int, b: int, lo: int, hi: int)
    requires
        a <= b,
    ensures
        gray_level(a, lo, hi) <= gray_level(b, lo, hi),
{
    if lo < hi {
        lemma_sample_units_increasing(lo, hi);
        if a < b {
            lemma_sample_units_increasing(a, b);
        }
        let d = sample_units(hi) - sample_units(lo);
        let na = 510 * (sample_units(a) - sample_units(lo)) + d;
        let nb = 510 * (sample_units(b) - sample_units(lo)) + d;
        assert(na / (2 * d) <= nb / (2 * d)) by (nonlinear_arith)
            requires
                na <= nb,
                d > 0,
        ;
    }
}

/// Between the extremes the gray level is an integer nearest to
/// `255 * (h - min) / (max - min)`: it differs from that quotient by at
/// most a half.
pub proof fn lemma_gray_level_is_nearest(sample: int, lo: int, hi: int)
    requires
        lo <= sample <= hi,
        lo < hi,
    ensures
        ({
            let v = gray_level(sample, lo, hi) as int;
            let d = sample_units(hi) - sample_units(lo);
            let a = sample_units(sample) - sample_units(lo);
            d > 0 && 2 * d * v - d <= 510 * a < 2 * d * v + d
        }),
{
    lemma_sample_units_increasing(lo, hi);
    if lo < sample {
        lemma_sample_units_increasing(lo, sample);
    }
    if sample < hi {
        lemma_sample_units_increasing(sample, hi);
    }
    let d = sample_units(hi) - sample_units(lo);
    let n = 510 * (sample_units(sample) - sample_units(lo)) + d;
    let q = n / (2 * d);
    vstd::arithmetic::div_mod::lemma_fundamental_div_mod(n, 2 * d);
    vstd::arithmetic::div_mod::lemma_mod_bound(n, 2 * d);
    assert(0 <= q <= 255) by (nonlinear_arith)
        requires
            n == (2 * d) * q + n % (2 * d),
            0 <= n % (2 * d) < 2 * d,
            0 <= n <= 511 * d,
            d > 0,
    ;
    assert((2 * d) * q == 2 * d * q) by (nonlinear_arith);
}

/// The gray level of one elevation between the extremes `lo` and `hi`.
pub fn level_of(sample: i32, lo: i32, hi: i32) -> (out: u8)
    ensures
        out == gray_level(sample as int, lo as int, hi as int),
{
    if lo >= hi {
        return 0;
    }
    let ghost us = sample_units(sample as int);
    let ghost ul = sample_units(lo as int);
    let ghost uh = sample_units(hi as int);
    let ghost d = uh - ul;
    let ghost n = 510 * (us - ul) + d;
    proof {
        lemma_sample_units_increasing(lo as int, hi as int);
    }
    if sample <= lo {
        proof {
            if sample < lo {
                lemma_sample_units_increasing(sample as int, lo as int);
            }
            assert(n / (2 * d) <= 0) by (nonlinear_arith)
                requires
                    n <= d,
                    d > 0,
            ;
        }
        return 0;
    }
    if sample >= hi {
        proof {
            if sample > hi {
                lemma_sample_units_increasing(hi as int, sample as int);
            }
            assert(n / (2 * d) >= 255) by (nonlinear_arith)
                requires
                    n >= 511 * d,
                    d > 0,
            ;
        }
        return 255;
    }
    proof {
        lemma_sample_units_increasing(lo as int, sample as int);
        lemma_sample_units_increasing(sample as int, hi as int);
    }
    let (ms, es) = sample_parts(sample);
    let (ml, el) = sample_parts(lo);
    let (mh, eh) = sample_parts(hi);
    let mut low: i64 = 0;
    let mut high: i64 = 256;
    proof {
        assert(us - ul < d);
        assert(n - 2 * high * d < 0) by (nonlinear_arith)
            requires
                high == 256,
                n == 510 * (us - ul) + d,
                us - ul < d,
                d > 0,
        ;
        assert(n - 2 * low * d >= 0) by (nonlinear_arith)
            requires
                low == 0,
                n == 510 * (us - ul) + d,
                us - ul > 0,
                d > 0,
        ;
    }
    while high - low > 1
        invariant
            0 <= low < high <= 256,
            n - 2 * low * d >= 0,
            n - 2 * high * d < 0,
            d == uh - ul,
            n == 510 * (us - ul) + d,
            us == ms * pow2(es as nat),
            ul == ml * pow2(el as nat),
            uh == mh * pow2(eh as nat),
            -0x100_0000 < ms < 0x100_0000,
            -0x100_0000 < ml < 0x100_0000,
            -0x100_0000 < mh < 0x100_0000,
        decreases high - low,
    {
        let middle: i64 = (low + high) / 2;
        let cl: i64 = 2 * middle - 511;
        let ch: i64 = 1 - 2 * middle;
        assert(is_small(510 * ms) && is_small(cl * ml) && is_small(ch * mh)) by (nonlinear_arith)
            requires
                -0x100_0000 < ms < 0x100_0000,
                -0x100_0000 < ml < 0x100_0000,
                -0x100_0000 < mh < 0x100_0000,
                -511 <= cl <= 511,
                -511 <= ch <= 511,
        ;
        let at_least = sum_is_nonnegative(510 * ms, es, cl * ml, el, ch * mh, eh);
        proof {
            let ps = pow2(es as nat) as int;
            let pl = pow2(el as nat) as int;
            let ph = pow2(eh as nat) as int;
            assert((510 * ms) * ps == 510 * (ms * ps)) by (nonlinear_arith);
            assert((cl * ml) * pl == cl * (ml * pl)) by (nonlinear_arith);
            assert((ch * mh) * ph == ch * (mh * ph)) by (nonlinear_arith);
            assert(510 * us + cl * ul + ch * uh == n - 2 * middle * d) by (nonlinear_arith)
                requires
                    cl == 2 * middle - 511,
                    ch == 1 - 2 * middle,
                    d == uh - ul,
                    n == 510 * (us - ul) + d,
            ;
        }
        if at_least {
            low = middle;
        } else {
            high = middle;
        }
    }
    proof {
        let r = n - 2 * low * d;
        assert(r < 2 * d) by (nonlinear_arith)
            requires
                r == n - 2 * low * d,
                n - 2 * (low + 1) * d < 0,
        ;
        assert(n == low * (2 * d) + r) by (nonlinear_arith)
            requires
                r == n - 2 * low * d,
        ;
        vstd::arithmetic::div_mod::lemma_fundamental_div_mod_converse(n, 2 * d, low as int, r);
    }
    low as u8
}

impl GrayRaster {
    /// `image::ImageBuffer::new` for 8-bit gray pixels: a raster of the given
    /// extent whose every level is zero. The outside function panics when the
    /// pixel count does not fit in `usize`, and its allocation when the count
    /// exceeds `isize::MAX`; `requires` excludes both.
    #[verifier::external_body]
    fn blank(width: u32, height: u32) -> (out: GrayRaster)
        requires
            width * height <= isize::MAX,
        ensures
            gray_extent(out) == (width as nat, height as nat),
            gray_levels(out) == Seq::new((width * height) as nat, |i: int| 0u8),
    {
        GrayRaster { image: image::ImageBuffer::new(width, height) }
    }

    /// `image::ImageBuffer::put_pixel` with a one-channel pixel: the level at
    /// row-major position `y * width + x` becomes `level`; every other level
    /// and the extent stay. The outside function panics outside the image,
    /// which `requires` excludes.
    #[verifier::external_body]
    fn put(&mut self, x: u32, y: u32, level: u8)
        requires
            x < gray_extent(*old(self)).0,
            y < gray_extent(*old(self)).1,
        ensures
            gray_extent(*final(self)) == gray_extent(*old(self)),
            gray_levels(*final(self)) == gray_levels(*old(self)).update(
                flat_index(gray_extent(*old(self)).0, x as int, y as int),
                level,
            ),
    {
        self.image.put_pixel(x, y, image::Luma([level]))
    }

    /// `image::ImageBuffer::dimensions`: the width and the height.
    #[verifier::external_body]
    fn dimensions(&self) -> (out: (u32, u32))
        ensures
            gray_extent(*self) == (out.0 as nat, out.1 as nat),
    {
        self.image.dimensions()
    }

    /// `image::ImageBuffer::into_raw`: the buffer of levels, row by row.
    #[verifier::external_body]
    fn into_raw(self) -> (out: Vec<u8>)
        ensures
            out@ == gray_levels(self),
    {
        self.image.into_raw()
    }

    /// Width and height in pixels.
    pub fn extent(&self) -> (out: (u32, u32))
        ensures
            gray_extent(*self) == (out.0 as nat, out.1 as nat),
    {
        self.dimensions()
    }

    /// The gray levels, row by row from the top-left corner.
    pub fn into_levels(self) -> (out: Vec<u8>)
        ensures
            out@ == gray_levels(self),
    {
        self.into_raw()
    }
}

/// Whether `raster` is the picture of `field` between the extremes `lo` and
/// `hi`: of the same extent, the pixel in column `x` of row `y` at position
/// `y * width + x` of its levels, and that level the gray level of the cell.
pub open spec fn draws(raster: GrayRaster, field: Grid, lo: i32, hi: i32) -> bool {
    &&& gray_extent(raster) == (field.cols(), field.rows())
    &&& gray_levels(raster).len() == field.cols() * field.rows()
    &&& forall|x: int, y: int|
        0 <= x < field.cols() && 0 <= y < field.rows() ==> gray_levels(raster)[flat_index(
            field.cols(),
            x,
            y,
        )] == gray_level(#[trigger] field.at(x, y) as int, lo as int, hi as int)
}

/// In the picture of a field, a cell that holds the least elevation is
/// black and one that holds the greatest is white, whenever the two differ;
/// where they coincide, every pixel is black.
pub proof fn lemma_drawn_extremes(raster: GrayRaster, field: Grid, lo: i32, hi: i32, x: int, y: int)
    requires
        draws(raster, field, lo, hi),
        0 <= x < field.cols(),
        0 <= y < field.rows(),
    ensures
        lo < hi && field.at(x, y) == lo ==> gray_levels(raster)[flat_index(field.cols(), x, y)] == 0,
        lo < hi && field.at(x, y) == hi ==> gray_levels(raster)[flat_index(field.cols(), x, y)] == 255,
        lo == hi ==> gray_levels(raster)[flat_index(field.cols(), x, y)] == 0,
{
    let drawn = gray_levels(raster)[flat_index(field.cols(), x, y)];
    assert(drawn == gray_level(field.at(x, y) as int, lo as int, hi as int));
    if lo < hi {
        lemma_extremes_are_black_and_white(lo as int, hi as int);
    }
}

/// Whether a grid can be drawn as an image: each side fits in `u32` and the
/// cell count in `isize`.
pub open spec fn drawable(field: Grid) -> bool {
    &&& field.cols() <= u32::MAX
    &&& field.rows() <= u32::MAX
    &&& field.cols() * field.rows() <= isize::MAX
}

/// Draws an elevation grid as a grayscale image of the same extent, each
/// pixel the gray level of its cell between the extremes.
///
/// Fails with `EmptyHeightField` where the extremes hold no sample, and with
/// `MapTooLarge` where the grid is not `drawable`.
pub fn rasterize(field: &Grid, extremes: &ElevationExtremes) -> (out: Result<GrayRaster, MapError>)
    ensures
        match out {
            Ok(raster) => {
                &&& drawable(*field)
                &&& extremes.bounds() matches Some((lo, hi)) && draws(raster, *field, lo, hi)
            },
            Err(e) => if extremes.bounds() is None {
                e == MapError::EmptyHeightField
            } else {
                e == MapError::MapTooLarge && !drawable(*field)
            },
        },
{
    let (lo, hi) = match extremes.range() {
        Some(range) => range,
        None => {
            return Err(MapError::EmptyHeightField);
        },
    };
    let w = field.width();
    let h = field.height();
    if w > u32::MAX as usize || h > u32::MAX as usize {
        return Err(MapError::MapTooLarge);
    }
    match w.checked_mul(h) {
        Some(cells) => {
            if cells > isize::MAX as usize {
                return Err(MapError::MapTooLarge);
            }
        },
        None => {
            return Err(MapError::MapTooLarge);
        },
    }
    let mut raster = GrayRaster::blank(w as u32, h as u32);
    let mut y: usize = 0;
    while y < h
        invariant
            w == field.cols(),
            h == field.rows(),
            w <= u32::MAX,
            h <= u32::MAX,
            y <= h,
            gray_extent(raster) == (w as nat, h as nat),
            gray_levels(raster).len() == w * h,
            forall|i: int, j: int|
                0 <= i < w && 0 <= j < y ==> gray_levels(raster)[flat_index(w as nat, i, j)]
                    == gray_level(#[trigger] field.at(i, j) as int, lo as int, hi as int),
        decreases h - y,
    {
        let mut x: usize = 0;
        while x < w
            invariant
                w == field.cols(),
                h == field.rows(),
                w <= u32::MAX,
                h <= u32::MAX,
                y < h,
                x <= w,
                gray_extent(raster) == (w as nat, h as nat),
                gray_levels(raster).len() == w * h,
                forall|i: int, j: int|
                    0 <= i < w && (0 <= j < y || (j == y && i < x)) ==> gray_levels(raster)[flat_index(
                        w as nat,
                        i,
                        j,
                    )] == gray_level(#[trigger] field.at(i, j) as int, lo as int, hi as int),
            decreases w - x,
        {
            match field.get(x, y) {
                Some(sample) => {
                    let level = level_of(sample, lo, hi);
                    let ghost before = gray_levels(raster);
                    raster.put(x as u32, y as u32, level);
                    proof {
                        lemma_flat_index_in_bounds(w as nat, h as nat, x as int, y as int);
                        assert forall|i: int, j: int|
                            0 <= i < w && (0 <= j < y || (j == y && i < x + 1)) implies gray_levels(
                            raster,
                        )[flat_index(w as nat, i, j)] == gray_level(
                            #[trigger] field.at(i, j) as int,
                            lo as int,
                            hi as int,
                        ) by {
                            lemma_flat_index_in_bounds(w as nat, h as nat, i, j);
                            lemma_flat_index_injective(w as nat, i, j, x as int, y as int);
                        }
                    }
                },
                None => {},
            }
            x = x + 1;
        }
        y = y + 1;
    }
    Ok(raster)
}

} // verus!
