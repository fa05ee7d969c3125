//! Cutting a sheet of icons into its icons.
//!
//! A sheet holds square icons of 40 pixels a side, row by row from the
//! top-left corner; what is left over at the right and at the bottom of the
//! sheet belongs to no icon.

use vstd::prelude::*;
use crate::grid::{flat_index, lemma_flat_index_in_bounds, lemma_flat_index_injective};

verus! {

/// Side of one icon, in pixels.
pub const ICON_SIDE: u32 = 40;

/// An image of 8-bit red, green, blue and alpha channels, held as an
/// `image::RgbaImage`. The verifier does not look inside: what the image
/// holds goes by the names `sheet_pixels` and `sheet_extent`, and the six
/// private functions below say what the methods of `image::ImageBuffer` do
/// to them.
#[verifier::external_body]
pub struct IconSheet {
    image: image::RgbaImage,
}

/// The pixels that an image holds, row by row from the top-left corner,
/// each as its four channels in the order red, green, blue, alpha.
pub uninterp spec fn sheet_pixels(sheet: IconSheet) -> Seq<Seq<u8>>;

/// The width and the height of an image, in pixels.
pub uninterp spec fn sheet_extent(sheet: IconSheet) -> (nat, nat);

/// Whether `icon` is the icon in column `ix` and row `iy` of the sheet:
/// 40 pixels a side, its pixel `(px, py)` the sheet's pixel
/// `(ix * 40 + px, iy * 40 + py)`.
pub open spec fn is_icon_of(sheet: IconSheet, icon: IconSheet, ix: int, iy: int) -> bool {
    &&& sheet_extent(icon) == (40nat, 40nat)
    &&& sheet_pixels(icon).len() == 1600
    &&& forall|px: int, py: int|
        0 <= px < 40 && 0 <= py < 40 ==> #[trigger] sheet_pixels(icon)[flat_index(40, px, py)]
            == sheet_pixels(sheet)[flat_index(sheet_extent(sheet).0, ix * 40 + px, iy * 40 + py)]
}

/// Whether `icons` are the icons of the sheet, row by row and each row
/// from the left: as many as fit whole, the `k`-th from column `k % columns`
/// of row `k / columns`, with `columns` the number of icons that fit in a row.
pub open spec fn are_icons_of(sheet: IconSheet, icons: Seq<IconSheet>) -> bool {
    let columns = sheet_extent(sheet).0 as int / 40;
    let rows = sheet_extent(sheet).1 as int / 40;
    &&& icons.len() == columns * rows
    &&& forall|k: int|
        0 <= k < icons.len() ==> is_icon_of(sheet, #[trigger] icons[k], k % columns, k / columns)
}

impl IconSheet {
    /// `image::ImageBuffer::from_raw` for 8-bit RGBA: an image over the given
    /// buffer where the buffer holds at least four bytes for each of
    /// `width * height` pixels, the pixel at row-major position `k` made of
    /// the bytes `4 * k .. 4 * k + 4`; `None` where the buffer is shorter.
    #[verifier::external_body]
    fn from_buffer(width: u32, height: u32, raw: Vec<u8>) -> (out: Option<IconSheet>)
        ensures
            out is Some <==> 4 * width * height <= raw@.len(),
            out matches Some(sheet) ==> {
                &&& sheet_extent(sheet) == (width as nat, height as nat)
                &&& sheet_pixels(sheet).len() == width * height
                &&& forall|k: int|
                    0 <= k < width * height ==> #[trigger] sheet_pixels(sheet)[k] == raw@.subrange(
                        4 * k,
                        4 * k + 4,
                    )
            },
    {
        match image::ImageBuffer::from_raw(width, height, raw) {
            Some(image) => Some(IconSheet { image }),
            None => None,
        }
    }

    /// `image::ImageBuffer::new` for 8-bit RGBA: an image of the given extent
    /// whose every channel is zero. The outside function panics when the
    /// byte count does not fit in `usize`, and its allocation when the count
    /// exceeds `isize::MAX`; `requires` excludes both.
    #[verifier::external_body]
    fn blank(width: u32, height: u32) -> (out: IconSheet)
        requires
            4 * width * height <= isize::MAX,
        ensures
            sheet_extent(out) == (width as nat, height as nat),
            sheet_pixels(out) == Seq::new((width * height) as nat, |k: int| seq![0u8, 0u8, 0u8, 0u8]),
    {
        IconSheet { image: image::ImageBuffer::new(width, height) }
    }

    /// `image::ImageBuffer::get_pixel`: the four channels of the pixel at
    /// row-major position `y * width + x`. The outside function panics
    /// outside the image, which `requires` excludes.
    #[verifier::external_body]
    fn pixel(&self, x: u32, y: u32) -> (out: [u8; 4])
        requires
            x < sheet_extent(*self).0,
            y < sheet_extent(*self).1,
        ensures
            out@ == sheet_pixels(*self)[flat_index(sheet_extent(*self).0, x as int, y as int)],
    {
        self.image.get_pixel(x, y).0
    }

    /// `image::ImageBuffer::put_pixel`: the pixel at row-major position
    /// `y * width + x` becomes `channels`; every other pixel and the extent
    /// stay. The outside function panics outside the image, which
    /// `requires` excludes.
    #[verifier::external_body]
    fn put(&mut self, x: u32, y: u32, channels: [u8; 4])
        requires
            x < sheet_extent(*old(self)).0,
            y < sheet_extent(*old(self)).1,
        ensures
            sheet_extent(*final(self)) == sheet_extent(*old(self)),
            sheet_pixels(*final(self)) == sheet_pixels(*old(self)).update(
                flat_index(sheet_extent(*old(self)).0, x as int, y as int),
                channels@,
            ),
    {
        self.image.put_pixel(x, y, image::Rgba(channels))
    }

    /// `image::ImageBuffer::dimensions`: the width and the height; an image
    /// holds one pixel for every position within them.
    #[verifier::external_body]
    fn dimensions(&self) -> (out: (u32, u32))
        ensures
            sheet_extent(*self) == (out.0 as nat, out.1 as nat),
            sheet_pixels(*self).len() == out.0 * out.1,
    {
        self.image.dimensions()
    }

    /// `image::ImageBuffer::into_raw`: the buffer under the image, which
    /// begins with the four bytes of each pixel, row by row.
    #[verifier::external_body]
    fn into_raw(self) -> (out: Vec<u8>)
        ensures
            4 * sheet_pixels(self).len() <= out@.len(),
            forall|k: int|
                0 <= k < sheet_pixels(self).len() ==> out@.subrange(4 * k, 4 * k + 4)
                    == #[trigger] sheet_pixels(self)[k],
    {
        self.image.into_raw()
    }

    /// The image of the given extent over a buffer of channel bytes, four
    /// for each pixel, row by row; `None` where the buffer is too short.
    pub fn from_raw(width: u32, height: u32, raw: Vec<u8>) -> (out: Option<IconSheet>)
        ensures
            out is Some <==> 4 * width * height <= raw@.len(),
            out matches Some(sheet) ==> {
                &&& sheet_extent(sheet) == (width as nat, height as nat)
                &&& sheet_pixels(sheet).len() == width * height
                &&& forall|k: int|
                    0 <= k < width * height ==> #[trigger] sheet_pixels(sheet)[k] == raw@.subrange(
                        4 * k,
                        4 * k + 4,
                    )
            },
    {
        IconSheet::from_buffer(width, height, raw)
    }

    /// Width and height in pixels.
    pub fn extent(&self) -> (out: (u32, u32))
        ensures
            sheet_extent(*self) == (out.0 as nat, out.1 as nat),
            sheet_pixels(*self).len() == out.0 * out.1,
    {
        self.dimensions()
    }

    /// The channel bytes of the image, four for each pixel, row by row.
    pub fn into_bytes(self) -> (out: Vec<u8>)
        ensures
            4 * sheet_pixels(self).len() <= out@.len(),
            forall|k: int|
                0 <= k < sheet_pixels(self).len() ==> out@.subrange(4 * k, 4 * k + 4)
                    == #[trigger] sheet_pixels(self)[k],
    {
        self.into_raw()
    }
}

/// The icon in column `ix` and row `iy` of the sheet.
fn cut_icon(sheet: &IconSheet, ix: u32, iy: u32) -> (icon: IconSheet)
    requires
        ix * 40 + 40 <= sheet_extent(*sheet).0,
        iy * 40 + 40 <= sheet_extent(*sheet).1,
        sheet_extent(*sheet).0 <= u32::MAX,
        sheet_extent(*sheet).1 <= u32::MAX,
    ensures
        is_icon_of(*sheet, icon, ix as int, iy as int),
{
    let ghost width = sheet_extent(*sheet).0;
    let mut icon = IconSheet::blank(ICON_SIDE, ICON_SIDE);
    let mut py: u32 = 0;
    while py < ICON_SIDE
        invariant
            py <= 40,
            width == sheet_extent(*sheet).0,
            ix * 40 + 40 <= sheet_extent(*sheet).0 <= u32::MAX,
            iy * 40 + 40 <= sheet_extent(*sheet).1 <= u32::MAX,
            sheet_extent(icon) == (40nat, 40nat),
            sheet_pixels(icon).len() == 1600,
            forall|i: int, j: int|
                0 <= i < 40 && 0 <= j < py ==> #[trigger] sheet_pixels(icon)[flat_index(40, i, j)]
                    == sheet_pixels(*sheet)[flat_index(width, ix * 40 + i, iy * 40 + j)],
        decreases 40 - py,
    {
        let mut px: u32 = 0;
        while px < ICON_SIDE
            invariant
                py < 40,
                px <= 40,
                width == sheet_extent(*sheet).0,
                ix * 40 + 40 <= sheet_extent(*sheet).0 <= u32::MAX,
                iy * 40 + 40 <= sheet_extent(*sheet).1 <= u32::MAX,
                sheet_extent(icon) == (40nat, 40nat),
                sheet_pixels(icon).len() == 1600,
                forall|i: int, j: int|
                    0 <= i < 40 && (0 <= j < py || (j == py && i < px)) ==> #[trigger] sheet_pixels(
                        icon,
                    )[flat_index(40, i, j)] == sheet_pixels(*sheet)[flat_index(
                        width,
                        ix * 40 + i,
                        iy * 40 + j,
                    )],
            decreases 40 - px,
        {
            let channels = sheet.pixel(ix * ICON_SIDE + px, iy * ICON_SIDE + py);
            let ghost before = sheet_pixels(icon);
            icon.put(px, py, channels);
            proof {
                lemma_flat_index_in_bounds(40, 40, px as int, py as int);
                assert forall|i: int, j: int|
                    0 <= i < 40 && (0 <= j < py || (j == py && i < px + 1)) implies #[trigger] sheet_pixels(
                    icon,
                )[flat_index(40, i, j)] == sheet_pixels(*sheet)[flat_index(
                    width,
                    ix * 40 + i,
                    iy * 40 + j,
                )] by {
                    lemma_flat_index_in_bounds(40, 40, i, j);
                    lemma_flat_index_injective(40, i, j, px as int, py as int);
                    if !(i == px && j == py) {
                        assert(sheet_pixels(icon)[flat_index(40, i, j)] == before[flat_index(40, i, j)]);
                    }
                }
            }
            px = px + 1;
        }
        py = py + 1;
    }
    icon
}

/// Cuts a sheet into its icons, row by row and each row from the left.
pub fn cut_icons(sheet: &IconSheet) -> (out: Vec<IconSheet>)
    ensures
        are_icons_of(*sheet, out@),
{
    let (width, height) = sheet.extent();
    let columns: u32 = width / ICON_SIDE;
    let rows: u32 = height / ICON_SIDE;
    let mut out: Vec<IconSheet> = Vec::new();
    let mut iy: u32 = 0;
    while iy < rows
        invariant
            iy <= rows,
            columns == width / 40,
            rows == height / 40,
            sheet_extent(*sheet) == (width as nat, height as nat),
            out@.len() == iy * columns,
            forall|k: int|
                0 <= k < out@.len() ==> is_icon_of(
                    *sheet,
                    #[trigger] out@[k],
                    k % (columns as int),
                    k / (columns as int),
                ),
        decreases rows - iy,
    {
        let mut ix: u32 = 0;
        while ix < columns
            invariant
                iy < rows,
                ix <= columns,
                columns == width / 40,
                rows == height / 40,
                sheet_extent(*sheet) == (width as nat, height as nat),
                out@.len() == iy * columns + ix,
                forall|k: int|
                    0 <= k < out@.len() ==> is_icon_of(
                        *sheet,
                        #[trigger] out@[k],
                        k % (columns as int),
                        k / (columns as int),
                    ),
            decreases columns - ix,
        {
            let icon = cut_icon(sheet, ix, iy);
            proof {
                let k = iy * columns + ix;
                vstd::arithmetic::div_mod::lemma_fundamental_div_mod_converse(
                    k as int,
                    columns as int,
                    iy as int,
                    ix as int,
                );
            }
            out.push(icon);
            ix = ix + 1;
        }
        proof {
            assert(iy * columns + columns == (iy + 1) * columns) by (nonlinear_arith);
        }
        iy = iy + 1;
    }
    proof {
        assert(rows * columns == columns * rows) by (nonlinear_arith);
    }
    out
}

} // verus!
