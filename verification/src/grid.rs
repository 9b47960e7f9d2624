//! The pixel buffer: an RGBA image of the `image` crate. What is assumed of
//! that crate, and not proved, stands in the functions of this file that call
//! it; the public functions are proved from those.

use vstd::prelude::*;
use crate::actor::Rgba8;

verus! {

/// An RGBA image with 8 bits per channel, stored by the `image` crate.
#[verifier::external_body]
pub struct PixelGrid {
    inner: image::RgbaImage,
}

/// The pixels of `grid` as `(r, g, b, a)`, row by row from the top and from
/// left to right within a row.
pub uninterp spec fn grid_rows(grid: PixelGrid) -> Seq<Seq<(u8, u8, u8, u8)>>;

impl PixelGrid {
    /// The grid has `height` rows of `width` pixels each.
    pub open spec fn has_size(&self, width: int, height: int) -> bool {
        &&& grid_rows(*self).len() == height
        &&& forall|y: int| 0 <= y < height ==> (#[trigger] grid_rows(*self)[y]).len() == width
    }

    /// Calls `image::ImageBuffer::new`, which allocates `4 * width * height`
    /// zero bytes and panics where that count overflows. Assumed: the result
    /// has `height` rows of `width` pixels, every one `(0, 0, 0, 0)`.
    #[verifier::external_body]
    pub(crate) fn blank(width: u32, height: u32) -> (grid: PixelGrid)
        requires
            4 * (width * height) <= isize::MAX,
        ensures
            grid.has_size(width as int, height as int),
            forall|x: int, y: int|
                0 <= y < height && 0 <= x < width ==> (#[trigger] grid_rows(grid)[y][x]) == (
                    0u8,
                    0u8,
                    0u8,
                    0u8,
                ),
    {
        PixelGrid { inner: image::RgbaImage::new(width, height) }
    }

    /// Calls `image::ImageBuffer::put_pixel`, which panics outside the
    /// image. Assumed: the pixel at `(x, y)` becomes `color` and no other
    /// pixel changes.
    #[verifier::external_body]
    pub(crate) fn put(&mut self, x: u32, y: u32, color: Rgba8)
        requires
            y < grid_rows(*old(self)).len(),
            x < grid_rows(*old(self))[y as int].len(),
        ensures
            grid_rows(*final(self)) == grid_rows(*old(self)).update(
                y as int,
                grid_rows(*old(self))[y as int].update(x as int, color.channels()),
            ),
    {
        self.inner.put_pixel(x, y, image::Rgba([color.r, color.g, color.b, color.a]))
    }

    /// Calls `image::ImageBuffer::get_pixel`, which panics outside the
    /// image. Assumed: the result is the pixel at `(x, y)`.
    #[verifier::external_body]
    fn read(&self, x: u32, y: u32) -> (color: Rgba8)
        requires
            y < grid_rows(*self).len(),
            x < grid_rows(*self)[y as int].len(),
        ensures
            color.channels() == grid_rows(*self)[y as int][x as int],
    {
        let pixel = self.inner.get_pixel(x, y);
        Rgba8 { r: pixel.0[0], g: pixel.0[1], b: pixel.0[2], a: pixel.0[3] }
    }

    /// Calls `image::ImageBuffer::width`. Assumed: every row has that many
    /// pixels.
    #[verifier::external_body]
    fn stored_width(&self) -> (width: u32)
        ensures
            forall|y: int|
                0 <= y < grid_rows(*self).len() ==> (#[trigger] grid_rows(*self)[y]).len()
                    == width,
    {
        self.inner.width()
    }

    /// Calls `image::ImageBuffer::height`. Assumed: the result is the number
    /// of rows.
    #[verifier::external_body]
    fn stored_height(&self) -> (height: u32)
        ensures
            grid_rows(*self).len() == height,
    {
        self.inner.height()
    }

    /// The number of pixels in each row.
    pub fn width(&self) -> (width: u32)
        ensures
            forall|y: int|
                0 <= y < grid_rows(*self).len() ==> (#[trigger] grid_rows(*self)[y]).len()
                    == width,
    {
        self.stored_width()
    }

    /// The number of rows.
    pub fn height(&self) -> (height: u32)
        ensures
            grid_rows(*self).len() == height,
    {
        self.stored_height()
    }

    /// The pixel in column `x` of row `y`, or `None` outside the image.
    pub fn get_pixel(&self, x: u32, y: u32) -> (pixel: Option<Rgba8>)
        ensures
            pixel is Some <==> y < grid_rows(*self).len() && x < grid_rows(*self)[y as int].len(),
            pixel is Some ==> pixel.unwrap().channels() == grid_rows(*self)[y as int][x as int],
    {
        if y < self.stored_height() && x < self.stored_width() {
            Some(self.read(x, y))
        } else {
            None
        }
    }
}

} // verus!
