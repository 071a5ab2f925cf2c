//! The output raster: an `image::RgbImage` and the few operations the
//! decoders need on it.
//!
//! The buffer type belongs to the `image` crate and the verifier cannot
//! look inside it. What it holds is named by three spec functions, and each
//! operation is a thin wrapper whose contract restates what the crate's
//! source does. Those contracts are believed, not proved; everything built
//! on them is proved.

use vstd::prelude::*;
use crate::color::black;

verus! {

/// An image of 8-bit RGB pixels, row-major with the origin at the top left.
/// It owns an `image::RgbImage`.
#[verifier::external_body]
pub struct Raster {
    buf: image::RgbImage,
}

/// The number of pixel columns, as `ImageBuffer::width` reports it.
pub uninterp spec fn raster_width(raster: Raster) -> nat;

/// The number of pixel rows, as `ImageBuffer::height` reports it.
pub uninterp spec fn raster_height(raster: Raster) -> nat;

/// The pixel stored at each `(x, y)` inside the raster, as
/// `ImageBuffer::get_pixel` reports it.
pub uninterp spec fn raster_pixels(raster: Raster) -> Map<(int, int), (u8, u8, u8)>;

/// Whether a raster of this size can be allocated: it takes three bytes per
/// pixel, and no allocation exceeds `isize::MAX` bytes.
pub open spec fn raster_fits(width: int, height: int) -> bool {
    3 * width * height <= isize::MAX
}

impl Raster {
    /// The number of pixel columns.
    pub open spec fn spec_width(&self) -> nat {
        raster_width(*self)
    }

    /// The number of pixel rows.
    pub open spec fn spec_height(&self) -> nat {
        raster_height(*self)
    }

    /// The pixel at column `x` of row `y`.
    #[verifier::inline]
    pub open spec fn pixel(&self, x: int, y: int) -> (u8, u8, u8) {
        raster_pixels(*self)[(x, y)]
    }

    /// Whether `(x, y)` lies inside the raster.
    pub open spec fn contains(&self, x: int, y: int) -> bool {
        0 <= x < self.spec_width() && 0 <= y < self.spec_height()
    }

    /// Whether this is the `width` by `height` image whose pixel at
    /// `(x, y)` is `pixel(x, y)`.
    pub open spec fn shows(
        &self,
        width: int,
        height: int,
        pixel: spec_fn(int, int) -> (u8, u8, u8),
    ) -> bool {
        &&& self.spec_width() == width
        &&& self.spec_height() == height
        &&& forall|x: int, y: int|
            0 <= x < width && 0 <= y < height ==> #[trigger] self.pixel(x, y) == pixel(x, y)
    }

    /// Whether the pixels that come before `(x, y)` row by row, those of the
    /// rows above `y` and those of row `y` left of `x`, are as `pixel`
    /// says.
    pub open spec fn shows_before(
        &self,
        x: int,
        y: int,
        pixel: spec_fn(int, int) -> (u8, u8, u8),
    ) -> bool {
        forall|px: int, py: int|
            self.contains(px, py) && (py < y || (py == y && px < x)) ==> #[trigger] self.pixel(
                px,
                py,
            ) == pixel(px, py)
    }

    /// Whether a raster of this size can be allocated.
    pub fn fits(width: u32, height: u32) -> (ok: bool)
        ensures
            ok == raster_fits(width as int, height as int),
    {
        assert(width * height <= 0xFFFF_FFFF * 0xFFFF_FFFF && 3 * width * height == 3 * (width
            * height)) by (nonlinear_arith);
        let pixels: u64 = width as u64 * height as u64;
        pixels <= (isize::MAX as u64) / 3
    }

    /// Both dimensions, width first.
    pub fn dimensions(&self) -> (size: (u32, u32))
        ensures
            size.0 == self.spec_width(),
            size.1 == self.spec_height(),
    {
        image_dimensions(self)
    }

    /// The pixel at `(x, y)`, or `None` outside the raster.
    pub fn get_pixel(&self, x: u32, y: u32) -> (found: Option<(u8, u8, u8)>)
        ensures
            self.contains(x as int, y as int) ==> found == Some(self.pixel(x as int, y as int)),
            !self.contains(x as int, y as int) ==> found.is_none(),
    {
        let (width, height) = image_dimensions(self);
        if x < width && y < height {
            Some(image_get_pixel(self, x, y))
        } else {
            None
        }
    }
}

/// Two images of one picture agree where they overlap: the smaller one is
/// the top-left rectangle of the larger. This is what cropping a decoded
/// canvas to a smaller size comes to.
pub proof fn lemma_smaller_image_is_top_left(
    small: Raster,
    large: Raster,
    pixel: spec_fn(int, int) -> (u8, u8, u8),
)
    requires
        small.shows(small.spec_width() as int, small.spec_height() as int, pixel),
        large.shows(large.spec_width() as int, large.spec_height() as int, pixel),
        small.spec_width() <= large.spec_width(),
        small.spec_height() <= large.spec_height(),
    ensures
        forall|x: int, y: int|
            small.contains(x, y) ==> large.contains(x, y) && #[trigger] small.pixel(x, y)
                == large.pixel(x, y),
{
}

/// `ImageBuffer::new`: a raster of the given size whose every pixel is
/// zero. The call panics where the byte length overflows or exceeds what a
/// vector can hold, so such sizes are left out.
#[verifier::external_body]
pub(crate) fn image_new(width: u32, height: u32) -> (raster: Raster)
    requires
        raster_fits(width as int, height as int),
    ensures
        raster_width(raster) == width,
        raster_height(raster) == height,
        forall|x: int, y: int|
            0 <= x < width && 0 <= y < height ==> #[trigger] raster_pixels(raster)[(x, y)]
                == black(),
{
    Raster { buf: image::RgbImage::new(width, height) }
}

/// `ImageBuffer::dimensions`: the width and the height the buffer was made
/// with.
#[verifier::external_body]
pub(crate) fn image_dimensions(raster: &Raster) -> (size: (u32, u32))
    ensures
        size.0 == raster_width(*raster),
        size.1 == raster_height(*raster),
{
    raster.buf.dimensions()
}

/// `ImageBuffer::get_pixel`: the pixel at `(x, y)`. The call panics outside
/// the bounds.
#[verifier::external_body]
pub(crate) fn image_get_pixel(raster: &Raster, x: u32, y: u32) -> (c: (u8, u8, u8))
    requires
        raster.contains(x as int, y as int),
    ensures
        c == raster_pixels(*raster)[(x as int, y as int)],
{
    let px = raster.buf.get_pixel(x, y);
    (px.0[0], px.0[1], px.0[2])
}

/// `ImageBuffer::put_pixel`: stores one pixel at `(x, y)` and changes
/// nothing else. The call panics outside the bounds.
#[verifier::external_body]
pub(crate) fn image_put_pixel(raster: &mut Raster, x: u32, y: u32, c: (u8, u8, u8))
    requires
        old(raster).contains(x as int, y as int),
    ensures
        raster_width(*final(raster)) == raster_width(*old(raster)),
        raster_height(*final(raster)) == raster_height(*old(raster)),
        raster_pixels(*final(raster)) == raster_pixels(*old(raster)).insert(
            (x as int, y as int),
            c,
        ),
{
    raster.buf.put_pixel(x, y, image::Rgb([c.0, c.1, c.2]))
}

/// `GenericImage::sub_image` at the origin, then `SubImage::to_image`: a
/// new raster of the given size that holds the top-left rectangle of the
/// old one. The first call panics where the rectangle leaves the raster,
/// the second allocates the copy.
#[verifier::external_body]
pub(crate) fn image_crop(raster: Raster, width: u32, height: u32) -> (cropped: Raster)
    requires
        width <= raster.spec_width(),
        height <= raster.spec_height(),
        raster_fits(width as int, height as int),
    ensures
        raster_width(cropped) == width,
        raster_height(cropped) == height,
        forall|x: int, y: int|
            0 <= x < width && 0 <= y < height ==> #[trigger] raster_pixels(cropped)[(x, y)]
                == raster_pixels(raster)[(x, y)],
{
    let mut whole = raster.buf;
    Raster { buf: image::GenericImage::sub_image(&mut whole, 0, 0, width, height).to_image() }
}

} // verus!
