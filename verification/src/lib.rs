//! Decoding of raw framebuffer dumps into 8-bit RGB rasters.
//!
//! A dump is a buffer of device-native samples with a row pitch or a tile
//! geometry. The decoders here turn it into a [`Raster`]: packed RGB words,
//! RGB565 and planar 4:2:0 YUV laid out row by row, and two layouts of
//! swizzled 32x32 tiles. Every decoder states which sample each pixel of its
//! result comes from, and how the sample becomes a colour.

pub mod average;
pub mod color;
pub mod detile_averaged;
pub mod detile_direct;
pub mod error;
pub mod linear;
mod painting;
pub mod raster;
pub mod tiling;

pub use average::PixelAverage;
pub use color::{Rgb565, RgbPixel, ToRgb, YUV420Pixel};
pub use detile_averaged::{decode_tiled_small_image, detile_averaged};
pub use detile_direct::{detile_direct, to_image};
pub use error::DecodeError;
pub use linear::{
    decode_image, decode_image_multichannel, decode_packed, decode_rgb565,
    decode_small_image_multichannel, decode_yuv420_planar, decode_yuv420_planar_half,
    rgb565_to_rgb888,
};
pub use raster::Raster;
