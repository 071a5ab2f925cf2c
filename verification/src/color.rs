//! Per-pixel colour conversion.
//!
//! Every converter turns one device-native sample into an 8-bit
//! `(red, green, blue)` triple. The conversions are total: each is a pure
//! function of the raw bits, stated here as a spec function and computed by
//! the executable method of the same pixel type.

use vstd::prelude::*;

verus! {

/// The colour of a freshly allocated raster cell.
pub open spec fn black() -> (u8, u8, u8) {
    (0u8, 0u8, 0u8)
}

/// Red, green and blue of a packed `0x__RRGGBB` word: bytes 2, 1 and 0.
pub open spec fn unpack_rgb(word: u32) -> (u8, u8, u8) {
    (
        ((word as int / 0x1_0000) % 0x100) as u8,
        ((word as int / 0x100) % 0x100) as u8,
        (word as int % 0x100) as u8,
    )
}

/// Rescales a 5-bit channel onto the full 8-bit range.
pub open spec fn expand5(v: int) -> int {
    (v * 527 + 23) / 64
}

/// Rescales a 6-bit channel onto the full 8-bit range.
pub open spec fn expand6(v: int) -> int {
    (v * 259 + 33) / 64
}

/// The 5-bit red field of an RGB565 word (bits 11 to 15).
pub open spec fn red5(word: u16) -> int {
    word as int / 0x800
}

/// The 6-bit green field of an RGB565 word (bits 5 to 10).
pub open spec fn green6(word: u16) -> int {
    (word as int / 0x20) % 0x40
}

/// The 5-bit blue field of an RGB565 word (bits 0 to 4).
pub open spec fn blue5(word: u16) -> int {
    word as int % 0x20
}

/// The 8-bit colour of an RGB565 word.
pub open spec fn rgb565_to_rgb(word: u16) -> (u8, u8, u8) {
    (expand5(red5(word)) as u8, expand6(green6(word)) as u8, expand5(blue5(word)) as u8)
}

/// A fuller channel never gives a darker byte, and a strictly fuller one a
/// strictly brighter byte; this holds of each channel of RGB565.
pub proof fn lemma_rgb565_monotonic(a: u16, b: u16)
    ensures
        red5(a) <= red5(b) ==> rgb565_to_rgb(a).0 <= rgb565_to_rgb(b).0,
        green6(a) <= green6(b) ==> rgb565_to_rgb(a).1 <= rgb565_to_rgb(b).1,
        blue5(a) <= blue5(b) ==> rgb565_to_rgb(a).2 <= rgb565_to_rgb(b).2,
        red5(a) < red5(b) ==> rgb565_to_rgb(a).0 < rgb565_to_rgb(b).0,
        green6(a) < green6(b) ==> rgb565_to_rgb(a).1 < rgb565_to_rgb(b).1,
        blue5(a) < blue5(b) ==> rgb565_to_rgb(a).2 < rgb565_to_rgb(b).2,
{
}

/// The expansion of RGB565 maps the darkest word to black and the
/// brightest to white, so the channels span the whole 8-bit range.
pub proof fn lemma_rgb565_spans_range()
    ensures
        rgb565_to_rgb(0x0000) == (0u8, 0u8, 0u8),
        rgb565_to_rgb(0xFFFF) == (255u8, 255u8, 255u8),
{
}

/// Saturates an integer into `0..=255`.
pub open spec fn clamp_u8(v: int) -> u8 {
    if v > 255 {
        255u8
    } else if v < 0 {
        0u8
    } else {
        v as u8
    }
}

/// The red channel of a limited-range BT.601 sample, before clamping.
pub open spec fn yuv_red(y: u8, v: u8) -> int {
    (298 * (y - 16) + 409 * (v - 128) + 128) / 256
}

/// The green channel of a limited-range BT.601 sample, before clamping.
pub open spec fn yuv_green(y: u8, u: u8, v: u8) -> int {
    (298 * (y - 16) - 100 * (u - 128) - 208 * (v - 128) + 128) / 256
}

/// The blue channel of a limited-range BT.601 sample, before clamping.
pub open spec fn yuv_blue(y: u8, u: u8) -> int {
    (298 * (y - 16) + 516 * (u - 128) + 128) / 256
}

/// The 8-bit colour of a luma/chroma sample. Division by 256 rounds towards
/// negative infinity, as an arithmetic right shift by 8 does.
pub open spec fn yuv_to_rgb(y: u8, u: u8, v: u8) -> (u8, u8, u8) {
    (clamp_u8(yuv_red(y, v)), clamp_u8(yuv_green(y, u, v)), clamp_u8(yuv_blue(y, u)))
}

/// No channel wraps, whatever the sample: a value below the range reads 0,
/// one above it reads 255, and one inside it is kept.
pub proof fn lemma_yuv_channels_are_clamped(y: u8, u: u8, v: u8)
    ensures
        yuv_red(y, v) < 0 ==> yuv_to_rgb(y, u, v).0 == 0,
        yuv_red(y, v) > 255 ==> yuv_to_rgb(y, u, v).0 == 255,
        0 <= yuv_red(y, v) <= 255 ==> yuv_to_rgb(y, u, v).0 == yuv_red(y, v),
        yuv_green(y, u, v) < 0 ==> yuv_to_rgb(y, u, v).1 == 0,
        yuv_green(y, u, v) > 255 ==> yuv_to_rgb(y, u, v).1 == 255,
        0 <= yuv_green(y, u, v) <= 255 ==> yuv_to_rgb(y, u, v).1 == yuv_green(y, u, v),
        yuv_blue(y, u) < 0 ==> yuv_to_rgb(y, u, v).2 == 0,
        yuv_blue(y, u) > 255 ==> yuv_to_rgb(y, u, v).2 == 255,
        0 <= yuv_blue(y, u) <= 255 ==> yuv_to_rgb(y, u, v).2 == yuv_blue(y, u),
{
}

/// Anything that stands for one pixel and knows its 8-bit colour.
pub trait ToRgb {
    /// The colour this pixel stands for.
    spec fn color(&self) -> (u8, u8, u8);

    /// Computes the colour.
    fn rgb(&self) -> (c: (u8, u8, u8))
        ensures
            c == self.color(),
    ;
}

/// A pixel that already is an 8-bit RGB triple.
pub struct RgbPixel {
    dat: [u8; 3],
}

impl View for RgbPixel {
    type V = (u8, u8, u8);

    /// Red, green and blue.
    closed spec fn view(&self) -> (u8, u8, u8) {
        (self.dat[0], self.dat[1], self.dat[2])
    }
}

impl RgbPixel {
    /// The pixel with these three channels.
    pub fn new(r: u8, g: u8, b: u8) -> (p: RgbPixel)
        ensures
            p@ == (r, g, b),
    {
        RgbPixel { dat: [r, g, b] }
    }

    /// The pixel stored as `0x__RRGGBB`.
    pub fn from_packed(word: u32) -> (p: RgbPixel)
        ensures
            p@ == unpack_rgb(word),
    {
        let r: u32 = (word >> 16) & 0xff;
        let g: u32 = (word >> 8) & 0xff;
        let b: u32 = word & 0xff;
        assert(r == (word as int / 0x1_0000) % 0x100 && g == (word as int / 0x100) % 0x100 && b
            == word as int % 0x100) by (bit_vector)
            requires
                r == (word >> 16) & 0xff,
                g == (word >> 8) & 0xff,
                b == word & 0xff,
        ;
        RgbPixel { dat: [r as u8, g as u8, b as u8] }
    }
}

impl ToRgb for RgbPixel {
    open spec fn color(&self) -> (u8, u8, u8) {
        self@
    }

    fn rgb(&self) -> (c: (u8, u8, u8)) {
        (self.dat[0], self.dat[1], self.dat[2])
    }
}

/// One luma sample with the two chroma samples that colour it.
pub struct YUV420Pixel {
    dat: [u8; 3],
}

impl View for YUV420Pixel {
    type V = (u8, u8, u8);

    /// Luma, then the two chroma samples.
    closed spec fn view(&self) -> (u8, u8, u8) {
        (self.dat[0], self.dat[1], self.dat[2])
    }
}

impl YUV420Pixel {
    /// The pixel with luma `y` and chroma `u` and `v`.
    pub fn new(y: u8, u: u8, v: u8) -> (p: YUV420Pixel)
        ensures
            p@ == (y, u, v),
    {
        YUV420Pixel { dat: [y, u, v] }
    }
}

/// Saturates a channel value into a byte.
fn clamp(v: i32) -> (b: u8)
    ensures
        b == clamp_u8(v as int),
{
    if v > 0xFF {
        0xFF
    } else if v < 0 {
        0
    } else {
        v as u8
    }
}

impl ToRgb for YUV420Pixel {
    open spec fn color(&self) -> (u8, u8, u8) {
        yuv_to_rgb(self@.0, self@.1, self@.2)
    }

    fn rgb(&self) -> (c: (u8, u8, u8)) {
        let y: i32 = self.dat[0] as i32;
        let u: i32 = self.dat[1] as i32;
        let v: i32 = self.dat[2] as i32;
        let c: i32 = y - 16;
        let d: i32 = u - 128;
        let e: i32 = v - 128;

        let r_wide: i32 = 298 * c + 409 * e + 128;
        let g_wide: i32 = 298 * c - 100 * d - 208 * e + 128;
        let b_wide: i32 = 298 * c + 516 * d + 128;
        let r: i32 = r_wide >> 8;
        let g: i32 = g_wide >> 8;
        let b: i32 = b_wide >> 8;
        assert(r == r_wide as int / 256 && g == g_wide as int / 256 && b == b_wide as int / 256)
            by (bit_vector)
            requires
                r == r_wide >> 8,
                g == g_wide >> 8,
                b == b_wide >> 8,
        ;

        (clamp(r), clamp(g), clamp(b))
    }
}

/// A 16-bit pixel with 5 bits of red, 6 of green and 5 of blue.
pub struct Rgb565 {
    dat: u16,
}

impl View for Rgb565 {
    type V = u16;

    /// The raw word.
    closed spec fn view(&self) -> u16 {
        self.dat
    }
}

impl Rgb565 {
    /// The pixel stored as this word.
    pub fn new(dat: u16) -> (p: Rgb565)
        ensures
            p@ == dat,
    {
        Rgb565 { dat }
    }
}

impl ToRgb for Rgb565 {
    open spec fn color(&self) -> (u8, u8, u8) {
        rgb565_to_rgb(self@)
    }

    fn rgb(&self) -> (c: (u8, u8, u8)) {
        let word: u16 = self.dat;
        let r5: u16 = (word >> 11) & 0x1f;
        let g6: u16 = (word >> 5) & 0x3f;
        let b5: u16 = word & 0x1f;
        assert(r5 == word as int / 0x800 && g6 == (word as int / 0x20) % 0x40 && b5 == word as int
            % 0x20) by (bit_vector)
            requires
                r5 == (word >> 11) & 0x1f,
                g6 == (word >> 5) & 0x3f,
                b5 == word & 0x1f,
        ;

        let r_wide: u16 = r5 * 527 + 23;
        let g_wide: u16 = g6 * 259 + 33;
        let b_wide: u16 = b5 * 527 + 23;
        let r8: u16 = r_wide >> 6;
        let g8: u16 = g_wide >> 6;
        let b8: u16 = b_wide >> 6;
        assert(r8 == r_wide / 64 && g8 == g_wide / 64 && b8 == b_wide / 64) by (bit_vector)
            requires
                r8 == r_wide >> 6,
                g8 == g_wide >> 6,
                b8 == b_wide >> 6,
        ;
        (r8 as u8, g8 as u8, b8 as u8)
    }
}

} // verus!

