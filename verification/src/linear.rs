//! Decoders for row-major sources: one sample, or one sample per plane, for
//! each destination pixel, found from the pixel's coordinates and the row
//! stride.

use vstd::prelude::*;
use crate::color::{rgb565_to_rgb, unpack_rgb, yuv_to_rgb, Rgb565, RgbPixel, ToRgb, YUV420Pixel};
use crate::error::DecodeError;
use crate::raster::{image_new, image_put_pixel, raster_fits, Raster};

verus! {

/// Where the sample for `(x, y)` lies in a plane whose rows start `stride`
/// samples apart.
pub open spec fn sample_offset(stride: int, x: int, y: int) -> int {
    y * stride + x
}

/// Whether each sample of a `width` by `height` area lies inside a plane of
/// `len` samples whose rows start `stride` apart.
pub open spec fn plane_fits(len: int, stride: int, width: int, height: int) -> bool {
    width > 0 && height > 0 ==> (height - 1) * stride + width <= len
}

/// Inside a plane that fits, every offset is a valid index.
pub proof fn lemma_offset_in_plane(len: int, stride: int, width: int, height: int, x: int, y: int)
    requires
        plane_fits(len, stride, width, height),
        0 <= stride,
        0 <= x < width,
        0 <= y < height,
    ensures
        0 <= y * stride,
        0 <= sample_offset(stride, x, y) < len,
        sample_offset(stride, x, y) <= (height - 1) * stride + x,
{
    assert(0 <= y * stride <= (height - 1) * stride) by (nonlinear_arith)
        requires
            0 <= stride,
            0 <= y <= height - 1,
    ;
}

/// Whether each sample of a `width` by `height` area lies inside a plane of
/// `len` samples whose rows start `stride` apart.
pub fn plane_has_room(len: usize, stride: u32, width: u32, height: u32) -> (ok: bool)
    ensures
        ok == plane_fits(len as int, stride as int, width as int, height as int),
{
    if width == 0 || height == 0 {
        return true;
    }
    assert((height - 1) * stride <= 0xFFFF_FFFF * 0xFFFF_FFFF) by (nonlinear_arith)
        requires
            0 <= height - 1 <= 0xFFFF_FFFF,
            0 <= stride <= 0xFFFF_FFFF,
    ;
    let end: u128 = (height - 1) as u128 * stride as u128 + width as u128;
    end <= len as u128
}

/// The colour of `(x, y)` in an RGB565 source with a row pitch in bytes.
pub open spec fn rgb565_image_pixel(samples: Seq<u16>, pitch: u32, x: int, y: int) -> (
    u8,
    u8,
    u8,
) {
    rgb565_to_rgb(samples[sample_offset(pitch as int / 2, x, y)])
}

/// Decodes a buffer of RGB565 words. `pitch` is the distance between rows
/// in bytes, two per sample.
pub fn rgb565_to_rgb888(mapping: &[u16], pitch: u32, size: (u32, u32)) -> (img: Raster)
    requires
        raster_fits(size.0 as int, size.1 as int),
        plane_fits(mapping@.len() as int, pitch as int / 2, size.0 as int, size.1 as int),
    ensures
        img.shows(
            size.0 as int,
            size.1 as int,
            |x: int, y: int| rgb565_image_pixel(mapping@, pitch, x, y),
        ),
{
    let mut img = image_new(size.0, size.1);
    let stride: usize = (pitch / 2) as usize;
    let len: usize = mapping.len();
    let ghost pixel = |x: int, y: int| rgb565_image_pixel(mapping@, pitch, x, y);

    let mut y: u32 = 0;
    while y < size.1
        invariant
            y <= size.1,
            stride == pitch as int / 2,
            len == mapping@.len(),
            plane_fits(len as int, stride as int, size.0 as int, size.1 as int),
            pixel == |x: int, y: int| rgb565_image_pixel(mapping@, pitch, x, y),
            img.spec_width() == size.0,
            img.spec_height() == size.1,
            img.shows_before(0, y as int, pixel),
        decreases size.1 - y,
    {
        let mut x: u32 = 0;
        while x < size.0
            invariant
                x <= size.0,
                y < size.1,
                stride == pitch as int / 2,
                len == mapping@.len(),
                plane_fits(len as int, stride as int, size.0 as int, size.1 as int),
                pixel == |x: int, y: int| rgb565_image_pixel(mapping@, pitch, x, y),
                img.spec_width() == size.0,
                img.spec_height() == size.1,
                img.shows_before(x as int, y as int, pixel),
            decreases size.0 - x,
        {
            proof {
                lemma_offset_in_plane(
                    len as int,
                    stride as int,
                    size.0 as int,
                    size.1 as int,
                    x as int,
                    y as int,
                );
            }
            let offset: usize = y as usize * stride + x as usize;
            let v = Rgb565::new(mapping[offset]);
            image_put_pixel(&mut img, x, y, v.rgb());
            x += 1;
        }
        y += 1;
    }
    img
}

/// The colour of `(x, y)` in a source of packed `0x__RRGGBB` words with a
/// row pitch in bytes.
pub open spec fn packed_image_pixel(samples: Seq<u32>, pitch: u32, x: int, y: int) -> (
    u8,
    u8,
    u8,
) {
    unpack_rgb(samples[sample_offset(pitch as int / 4, x, y)])
}

/// With no padding between rows, a pitch of four bytes per pixel column,
/// the sample for `(x, y)` is the one at `y * width + x`.
pub proof fn lemma_packed_contiguous(samples: Seq<u32>, width: u32, pitch: u32, x: int, y: int)
    requires
        pitch == 4 * width,
    ensures
        sample_offset(pitch as int / 4, x, y) == y * width + x,
        packed_image_pixel(samples, pitch, x, y) == unpack_rgb(samples[y * width + x]),
{
}

/// Decodes a buffer of packed `0x__RRGGBB` words. `pitch` is the distance
/// between rows in bytes, four per sample.
pub fn decode_image(mapping: &[u32], pitch: u32, size: (u32, u32)) -> (img: Raster)
    requires
        raster_fits(size.0 as int, size.1 as int),
        plane_fits(mapping@.len() as int, pitch as int / 4, size.0 as int, size.1 as int),
    ensures
        img.shows(
            size.0 as int,
            size.1 as int,
            |x: int, y: int| packed_image_pixel(mapping@, pitch, x, y),
        ),
{
    let mut img = image_new(size.0, size.1);
    let stride: usize = (pitch / 4) as usize;
    let len: usize = mapping.len();
    let ghost pixel = |x: int, y: int| packed_image_pixel(mapping@, pitch, x, y);

    let mut y: u32 = 0;
    while y < size.1
        invariant
            y <= size.1,
            stride == pitch as int / 4,
            len == mapping@.len(),
            plane_fits(len as int, stride as int, size.0 as int, size.1 as int),
            pixel == |x: int, y: int| packed_image_pixel(mapping@, pitch, x, y),
            img.spec_width() == size.0,
            img.spec_height() == size.1,
            img.shows_before(0, y as int, pixel),
        decreases size.1 - y,
    {
        let mut x: u32 = 0;
        while x < size.0
            invariant
                x <= size.0,
                y < size.1,
                stride == pitch as int / 4,
                len == mapping@.len(),
                plane_fits(len as int, stride as int, size.0 as int, size.1 as int),
                pixel == |x: int, y: int| packed_image_pixel(mapping@, pitch, x, y),
                img.spec_width() == size.0,
                img.spec_height() == size.1,
                img.shows_before(x as int, y as int, pixel),
            decreases size.0 - x,
        {
            proof {
                lemma_offset_in_plane(
                    len as int,
                    stride as int,
                    size.0 as int,
                    size.1 as int,
                    x as int,
                    y as int,
                );
            }
            let offset: usize = y as usize * stride + x as usize;
            let px = RgbPixel::from_packed(mapping[offset]);
            image_put_pixel(&mut img, x, y, px.rgb());
            x += 1;
        }
        y += 1;
    }
    img
}

/// The number of chroma samples that cover `n` luma samples in one
/// direction: one for every two, rounded up.
pub open spec fn chroma_extent(n: int) -> int {
    (n + 1) / 2
}

/// The colour of `(x, y)` in a three-plane 4:2:0 source: its own luma
/// sample, and the chroma pair it shares with its 2x2 block.
pub open spec fn planar_image_pixel(
    luma: Seq<u8>,
    cb: Seq<u8>,
    cr: Seq<u8>,
    pitches: [u32; 3],
    x: int,
    y: int,
) -> (u8, u8, u8) {
    yuv_to_rgb(
        luma[sample_offset(pitches[0] as int, x, y)],
        cb[sample_offset(pitches[1] as int, x / 2, y / 2)],
        cr[sample_offset(pitches[2] as int, x / 2, y / 2)],
    )
}

/// Whether the three planes hold every sample of a full-resolution image:
/// one luma sample for each pixel, one chroma pair for each 2x2 block.
pub open spec fn planar_planes_fit(
    planes: [&[u8]; 3],
    pitches: [u32; 3],
    size: (u32, u32),
) -> bool {
    &&& plane_fits(planes[0]@.len() as int, pitches[0] as int, size.0 as int, size.1 as int)
    &&& plane_fits(
        planes[1]@.len() as int,
        pitches[1] as int,
        chroma_extent(size.0 as int),
        chroma_extent(size.1 as int),
    )
    &&& plane_fits(
        planes[2]@.len() as int,
        pitches[2] as int,
        chroma_extent(size.0 as int),
        chroma_extent(size.1 as int),
    )
}

/// Decodes three planes of 4:2:0 samples, luma first, at full resolution.
/// Each pitch is the distance between rows of its plane, in samples.
pub fn decode_image_multichannel(mappings: [&[u8]; 3], size: (u32, u32), pitches: [u32; 3]) -> (img:
    Raster)
    requires
        raster_fits(size.0 as int, size.1 as int),
        planar_planes_fit(mappings, pitches, size),
    ensures
        img.shows(
            size.0 as int,
            size.1 as int,
            |x: int, y: int|
                planar_image_pixel(mappings[0]@, mappings[1]@, mappings[2]@, pitches, x, y),
        ),
{
    let mut img = image_new(size.0, size.1);
    let luma: &[u8] = mappings[0];
    let cb: &[u8] = mappings[1];
    let cr: &[u8] = mappings[2];
    let luma_len: usize = luma.len();
    let cb_len: usize = cb.len();
    let cr_len: usize = cr.len();
    let luma_stride: usize = pitches[0] as usize;
    let cb_stride: usize = pitches[1] as usize;
    let cr_stride: usize = pitches[2] as usize;
    let ghost chroma_size = (chroma_extent(size.0 as int), chroma_extent(size.1 as int));
    let ghost pixel = |x: int, y: int| planar_image_pixel(luma@, cb@, cr@, pitches, x, y);

    let mut y: u32 = 0;
    while y < size.1
        invariant
            y <= size.1,
            luma_len == luma@.len(),
            cb_len == cb@.len(),
            cr_len == cr@.len(),
            luma_stride == pitches[0],
            cb_stride == pitches[1],
            cr_stride == pitches[2],
            chroma_size == (chroma_extent(size.0 as int), chroma_extent(size.1 as int)),
            plane_fits(luma_len as int, luma_stride as int, size.0 as int, size.1 as int),
            plane_fits(cb_len as int, cb_stride as int, chroma_size.0, chroma_size.1),
            plane_fits(cr_len as int, cr_stride as int, chroma_size.0, chroma_size.1),
            pixel == |x: int, y: int| planar_image_pixel(luma@, cb@, cr@, pitches, x, y),
            img.spec_width() == size.0,
            img.spec_height() == size.1,
            img.shows_before(0, y as int, pixel),
        decreases size.1 - y,
    {
        let mut x: u32 = 0;
        while x < size.0
            invariant
                x <= size.0,
                y < size.1,
                luma_len == luma@.len(),
                cb_len == cb@.len(),
                cr_len == cr@.len(),
                luma_stride == pitches[0],
                cb_stride == pitches[1],
                cr_stride == pitches[2],
                chroma_size == (chroma_extent(size.0 as int), chroma_extent(size.1 as int)),
                plane_fits(luma_len as int, luma_stride as int, size.0 as int, size.1 as int),
                plane_fits(cb_len as int, cb_stride as int, chroma_size.0, chroma_size.1),
                plane_fits(cr_len as int, cr_stride as int, chroma_size.0, chroma_size.1),
                pixel == |x: int, y: int| planar_image_pixel(luma@, cb@, cr@, pitches, x, y),
                img.spec_width() == size.0,
                img.spec_height() == size.1,
                img.shows_before(x as int, y as int, pixel),
            decreases size.0 - x,
        {
            proof {
                let (w, h) = (size.0 as int, size.1 as int);
                let (cw, ch) = chroma_size;
                let (cx, cy) = (x as int / 2, y as int / 2);
                lemma_offset_in_plane(luma_len as int, luma_stride as int, w, h, x as int, y as int);
                lemma_offset_in_plane(cb_len as int, cb_stride as int, cw, ch, cx, cy);
                lemma_offset_in_plane(cr_len as int, cr_stride as int, cw, ch, cx, cy);
            }
            let offset: usize = y as usize * luma_stride + x as usize;
            let offset1: usize = (y / 2) as usize * cb_stride + (x / 2) as usize;
            let offset2: usize = (y / 2) as usize * cr_stride + (x / 2) as usize;
            let yuv = YUV420Pixel::new(luma[offset], cb[offset1], cr[offset2]);
            image_put_pixel(&mut img, x, y, yuv.rgb());
            x += 1;
        }
        y += 1;
    }
    img
}

/// The mean of the four luma samples of the 2x2 block that half-resolution
/// pixel `(x, y)` stands for, rounded down.
pub open spec fn luma_mean(luma: Seq<u8>, stride: int, x: int, y: int) -> u8 {
    ((luma[sample_offset(stride, 2 * x, 2 * y)] + luma[sample_offset(stride, 2 * x + 1, 2 * y)]
        + luma[sample_offset(stride, 2 * x, 2 * y + 1)] + luma[sample_offset(
        stride,
        2 * x + 1,
        2 * y + 1,
    )]) / 4) as u8
}

/// The colour of `(x, y)` in the half-resolution image of a three-plane
/// 4:2:0 source: the mean luma of its 2x2 block and that block's own chroma
/// pair.
pub open spec fn planar_half_image_pixel(
    luma: Seq<u8>,
    cb: Seq<u8>,
    cr: Seq<u8>,
    pitches: [u32; 3],
    x: int,
    y: int,
) -> (u8, u8, u8) {
    yuv_to_rgb(
        luma_mean(luma, pitches[0] as int, x, y),
        cb[sample_offset(pitches[1] as int, x, y)],
        cr[sample_offset(pitches[2] as int, x, y)],
    )
}

/// Whether the three planes hold every sample of a half-resolution image:
/// a 2x2 block of luma samples and one chroma pair for each pixel.
pub open spec fn planar_half_planes_fit(
    planes: [&[u8]; 3],
    pitches: [u32; 3],
    size: (u32, u32),
) -> bool {
    &&& plane_fits(
        planes[0]@.len() as int,
        pitches[0] as int,
        2 * (size.0 as int / 2),
        2 * (size.1 as int / 2),
    )
    &&& plane_fits(planes[1]@.len() as int, pitches[1] as int, size.0 as int / 2, size.1 as int / 2)
    &&& plane_fits(planes[2]@.len() as int, pitches[2] as int, size.0 as int / 2, size.1 as int / 2)
}

/// Decodes three planes of 4:2:0 samples, luma first, at half the nominal
/// width and height. `size` is the nominal size; an odd last column or row
/// is dropped.
pub fn decode_small_image_multichannel(
    mappings: [&[u8]; 3],
    size: (u32, u32),
    pitches: [u32; 3],
) -> (img: Raster)
    requires
        raster_fits(size.0 as int / 2, size.1 as int / 2),
        planar_half_planes_fit(mappings, pitches, size),
    ensures
        img.shows(
            size.0 as int / 2,
            size.1 as int / 2,
            |x: int, y: int|
                planar_half_image_pixel(mappings[0]@, mappings[1]@, mappings[2]@, pitches, x, y),
        ),
{
    let halfsize: (u32, u32) = (size.0 / 2, size.1 / 2);
    let mut img = image_new(halfsize.0, halfsize.1);
    let luma: &[u8] = mappings[0];
    let cb: &[u8] = mappings[1];
    let cr: &[u8] = mappings[2];
    let luma_len: usize = luma.len();
    let cb_len: usize = cb.len();
    let cr_len: usize = cr.len();
    let luma_stride: usize = pitches[0] as usize;
    let cb_stride: usize = pitches[1] as usize;
    let cr_stride: usize = pitches[2] as usize;
    let ghost pixel = |x: int, y: int| planar_half_image_pixel(luma@, cb@, cr@, pitches, x, y);

    let mut y: u32 = 0;
    while y < halfsize.1
        invariant
            y <= halfsize.1,
            halfsize.0 == size.0 / 2,
            halfsize.1 == size.1 / 2,
            luma_len == luma@.len(),
            cb_len == cb@.len(),
            cr_len == cr@.len(),
            luma_stride == pitches[0],
            cb_stride == pitches[1],
            cr_stride == pitches[2],
            plane_fits(luma_len as int, luma_stride as int, 2 * halfsize.0, 2 * halfsize.1),
            plane_fits(cb_len as int, cb_stride as int, halfsize.0 as int, halfsize.1 as int),
            plane_fits(cr_len as int, cr_stride as int, halfsize.0 as int, halfsize.1 as int),
            pixel == |x: int, y: int| planar_half_image_pixel(luma@, cb@, cr@, pitches, x, y),
            img.spec_width() == halfsize.0,
            img.spec_height() == halfsize.1,
            img.shows_before(0, y as int, pixel),
        decreases halfsize.1 - y,
    {
        let mut x: u32 = 0;
        while x < halfsize.0
            invariant
                x <= halfsize.0,
                y < halfsize.1,
                halfsize.0 == size.0 / 2,
                halfsize.1 == size.1 / 2,
                luma_len == luma@.len(),
                cb_len == cb@.len(),
                cr_len == cr@.len(),
                luma_stride == pitches[0],
                cb_stride == pitches[1],
                cr_stride == pitches[2],
                plane_fits(luma_len as int, luma_stride as int, 2 * halfsize.0, 2 * halfsize.1),
                plane_fits(cb_len as int, cb_stride as int, halfsize.0 as int, halfsize.1 as int),
                plane_fits(cr_len as int, cr_stride as int, halfsize.0 as int, halfsize.1 as int),
                pixel == |x: int, y: int| planar_half_image_pixel(luma@, cb@, cr@, pitches, x, y),
                img.spec_width() == halfsize.0,
                img.spec_height() == halfsize.1,
                img.shows_before(x as int, y as int, pixel),
            decreases halfsize.0 - x,
        {
            proof {
                let stride = luma_stride as int;
                let (w, h) = (2 * halfsize.0, 2 * halfsize.1);
                let (cw, ch) = (halfsize.0 as int, halfsize.1 as int);
                lemma_offset_in_plane(luma_len as int, stride, w, h, 2 * x, 2 * y);
                lemma_offset_in_plane(luma_len as int, stride, w, h, 2 * x + 1, 2 * y);
                lemma_offset_in_plane(luma_len as int, stride, w, h, 2 * x, 2 * y + 1);
                lemma_offset_in_plane(luma_len as int, stride, w, h, 2 * x + 1, 2 * y + 1);
                assert((2 * y + 1) * stride == 2 * y * stride + stride) by (nonlinear_arith);
                lemma_offset_in_plane(cb_len as int, cb_stride as int, cw, ch, x as int, y as int);
                lemma_offset_in_plane(cr_len as int, cr_stride as int, cw, ch, x as int, y as int);
            }
            let offset: usize = 2 * (y as usize) * luma_stride + 2 * (x as usize);
            let offset1: usize = y as usize * cb_stride + x as usize;
            let offset2: usize = y as usize * cr_stride + x as usize;
            let yval: u32 = (luma[offset] as u32 + luma[offset + 1] as u32 + luma[offset
                + luma_stride] as u32 + luma[offset + luma_stride + 1] as u32) / 4;
            let yuv = YUV420Pixel::new(yval as u8, cb[offset1], cr[offset2]);
            image_put_pixel(&mut img, x, y, yuv.rgb());
            x += 1;
        }
        y += 1;
    }
    img
}

/// Decodes a buffer of packed `0x__RRGGBB` words, after making sure that
/// the image can be allocated and the buffer holds all of it.
pub fn decode_packed(buffer: &[u32], pitch: u32, size: (u32, u32)) -> (res: Result<
    Raster,
    DecodeError,
>)
    ensures
        res matches Ok(img) ==> img.shows(
            size.0 as int,
            size.1 as int,
            |x: int, y: int| packed_image_pixel(buffer@, pitch, x, y),
        ),
        res is Ok <==> raster_fits(size.0 as int, size.1 as int) && plane_fits(
            buffer@.len() as int,
            pitch as int / 4,
            size.0 as int,
            size.1 as int,
        ),
        res matches Err(e) ==> (e == DecodeError::InvalidGeometry <==> !raster_fits(
            size.0 as int,
            size.1 as int,
        )),
{
    if !Raster::fits(size.0, size.1) {
        return Err(DecodeError::InvalidGeometry);
    }
    if !plane_has_room(buffer.len(), pitch / 4, size.0, size.1) {
        return Err(DecodeError::BufferTooSmall);
    }
    Ok(decode_image(buffer, pitch, size))
}

/// Decodes a buffer of RGB565 words, after making sure that the image can
/// be allocated and the buffer holds all of it.
pub fn decode_rgb565(buffer: &[u16], pitch: u32, size: (u32, u32)) -> (res: Result<
    Raster,
    DecodeError,
>)
    ensures
        res matches Ok(img) ==> img.shows(
            size.0 as int,
            size.1 as int,
            |x: int, y: int| rgb565_image_pixel(buffer@, pitch, x, y),
        ),
        res is Ok <==> raster_fits(size.0 as int, size.1 as int) && plane_fits(
            buffer@.len() as int,
            pitch as int / 2,
            size.0 as int,
            size.1 as int,
        ),
        res matches Err(e) ==> (e == DecodeError::InvalidGeometry <==> !raster_fits(
            size.0 as int,
            size.1 as int,
        )),
{
    if !Raster::fits(size.0, size.1) {
        return Err(DecodeError::InvalidGeometry);
    }
    if !plane_has_room(buffer.len(), pitch / 2, size.0, size.1) {
        return Err(DecodeError::BufferTooSmall);
    }
    Ok(rgb565_to_rgb888(buffer, pitch, size))
}

/// Decodes three planes of 4:2:0 samples at full resolution, after making
/// sure that the image can be allocated and the planes hold all of it.
pub fn decode_yuv420_planar(planes: [&[u8]; 3], pitches: [u32; 3], size: (u32, u32)) -> (res:
    Result<Raster, DecodeError>)
    ensures
        res matches Ok(img) ==> img.shows(
            size.0 as int,
            size.1 as int,
            |x: int, y: int|
                planar_image_pixel(planes[0]@, planes[1]@, planes[2]@, pitches, x, y),
        ),
        res is Ok <==> raster_fits(size.0 as int, size.1 as int) && planar_planes_fit(
            planes,
            pitches,
            size,
        ),
        res matches Err(e) ==> (e == DecodeError::InvalidGeometry <==> !raster_fits(
            size.0 as int,
            size.1 as int,
        )),
{
    if !Raster::fits(size.0, size.1) {
        return Err(DecodeError::InvalidGeometry);
    }
    let chroma_width: u32 = size.0 / 2 + size.0 % 2;
    let chroma_height: u32 = size.1 / 2 + size.1 % 2;
    if !plane_has_room(planes[0].len(), pitches[0], size.0, size.1) || !plane_has_room(
        planes[1].len(),
        pitches[1],
        chroma_width,
        chroma_height,
    ) || !plane_has_room(planes[2].len(), pitches[2], chroma_width, chroma_height) {
        return Err(DecodeError::BufferTooSmall);
    }
    Ok(decode_image_multichannel(planes, size, pitches))
}

/// Decodes three planes of 4:2:0 samples at half resolution, after making
/// sure that the image can be allocated and the planes hold all of it.
pub fn decode_yuv420_planar_half(planes: [&[u8]; 3], pitches: [u32; 3], size: (u32, u32)) -> (res:
    Result<Raster, DecodeError>)
    ensures
        res matches Ok(img) ==> img.shows(
            size.0 as int / 2,
            size.1 as int / 2,
            |x: int, y: int|
                planar_half_image_pixel(planes[0]@, planes[1]@, planes[2]@, pitches, x, y),
        ),
        res is Ok <==> raster_fits(size.0 as int / 2, size.1 as int / 2)
            && planar_half_planes_fit(planes, pitches, size),
        res matches Err(e) ==> (e == DecodeError::InvalidGeometry <==> !raster_fits(
            size.0 as int / 2,
            size.1 as int / 2,
        )),
{
    let width: u32 = size.0 / 2;
    let height: u32 = size.1 / 2;
    if !Raster::fits(width, height) {
        return Err(DecodeError::InvalidGeometry);
    }
    if !plane_has_room(planes[0].len(), pitches[0], 2 * width, 2 * height) || !plane_has_room(
        planes[1].len(),
        pitches[1],
        width,
        height,
    ) || !plane_has_room(planes[2].len(), pitches[2], width, height) {
        return Err(DecodeError::BufferTooSmall);
    }
    Ok(decode_small_image_multichannel(planes, size, pitches))
}

} // verus!
