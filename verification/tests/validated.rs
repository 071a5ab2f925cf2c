use image_decoder::detile_averaged::{averaged_canvas_has_room, averaged_stream_has_room};
use image_decoder::detile_direct::{direct_canvas_has_room, direct_stream_has_room};
use image_decoder::linear::plane_has_room;
use image_decoder::{
    decode_image, decode_packed, decode_rgb565, decode_yuv420_planar, decode_yuv420_planar_half,
    detile_averaged, detile_direct, to_image, DecodeError, Raster,
};

fn same_pixels(a: &Raster, b: &Raster) -> bool {
    if a.dimensions() != b.dimensions() {
        return false;
    }
    let (width, height) = a.dimensions();
    for y in 0..height {
        for x in 0..width {
            if a.get_pixel(x, y) != b.get_pixel(x, y) {
                return false;
            }
        }
    }
    true
}

fn error_of(res: Result<Raster, DecodeError>) -> Option<DecodeError> {
    res.err()
}

#[test]
fn a_raster_fits_while_its_bytes_fit_isize() {
    assert!(Raster::fits(0, 0));
    assert!(Raster::fits(u32::MAX, 0));
    assert!(Raster::fits(0, u32::MAX));
    assert!(Raster::fits(1920, 1080));
    assert!(!Raster::fits(u32::MAX, u32::MAX));
    let limit = isize::MAX as u64 / 3;
    if limit <= u32::MAX as u64 {
        assert!(Raster::fits(limit as u32, 1));
        assert!(Raster::fits(1, limit as u32));
        assert!(!Raster::fits(limit as u32 + 1, 1));
    } else {
        assert!(Raster::fits(u32::MAX, 1));
        // 3 * 2^32 * 2^31 > 2^63 > 3 * 2^32 * 2^29
        assert!(!Raster::fits(u32::MAX, 1 << 31));
        assert!(Raster::fits(u32::MAX, 1 << 29));
    }
}

#[test]
fn a_plane_has_room_up_to_its_last_visible_sample() {
    assert!(plane_has_room(0, 0, 0, 0));
    assert!(plane_has_room(0, 100, 0, 5));
    assert!(plane_has_room(0, 100, 5, 0));
    assert!(!plane_has_room(0, 0, 1, 1));
    assert!(plane_has_room(1, 0, 1, 1));
    // (4 - 1) * 10 + 7 = 37
    assert!(plane_has_room(37, 10, 7, 4));
    assert!(!plane_has_room(36, 10, 7, 4));
    // a stride below the width is no fault of its own
    assert!(plane_has_room(8, 1, 7, 2));
    assert!(!plane_has_room(7, 1, 7, 2));
    // (2^32 - 2) * (2^32 - 1) + 2^32 - 1 is just below 2^64
    assert_eq!(plane_has_room(usize::MAX, u32::MAX, u32::MAX, u32::MAX), usize::BITS >= 64);
}

#[test]
fn rgb565_is_decoded_when_it_fits() {
    let buffer = [0xF800u16, 0x07E0, 0x001F, 0xFFFF];
    let img = decode_rgb565(&buffer, 4, (2, 2)).unwrap();
    assert_eq!(img.dimensions(), (2, 2));
    assert_eq!(img.get_pixel(0, 0), Some((255, 0, 0)));
    assert_eq!(img.get_pixel(1, 0), Some((0, 255, 0)));
    assert_eq!(img.get_pixel(0, 1), Some((0, 0, 255)));
    assert_eq!(img.get_pixel(1, 1), Some((255, 255, 255)));
}

#[test]
fn rgb565_short_buffer_is_reported() {
    let buffer = [0xF800u16; 4];
    assert_eq!(error_of(decode_rgb565(&buffer, 4, (2, 3))), Some(DecodeError::BufferTooSmall));
    assert_eq!(error_of(decode_rgb565(&buffer, 6, (2, 2))), Some(DecodeError::BufferTooSmall));
    assert_eq!(error_of(decode_rgb565(&buffer, 4, (3, 2))), Some(DecodeError::BufferTooSmall));
    assert_eq!(error_of(decode_rgb565(&buffer[..3], 4, (2, 2))), Some(DecodeError::BufferTooSmall));
    assert!(decode_rgb565(&buffer, 2, (3, 2)).is_ok());
}

#[test]
fn an_image_too_large_to_allocate_is_reported() {
    let huge = (u32::MAX, u32::MAX);
    assert_eq!(error_of(decode_rgb565(&[], 0, huge)), Some(DecodeError::InvalidGeometry));
    assert_eq!(error_of(decode_packed(&[], 0, huge)), Some(DecodeError::InvalidGeometry));
    let planes: [&[u8]; 3] = [&[], &[], &[]];
    assert_eq!(
        error_of(decode_yuv420_planar(planes, [0, 0, 0], huge)),
        Some(DecodeError::InvalidGeometry)
    );
    assert_eq!(
        error_of(decode_yuv420_planar_half(planes, [0, 0, 0], huge)),
        Some(DecodeError::InvalidGeometry)
    );
}

#[test]
fn packed_agrees_with_the_unvalidated_decoder() {
    let buffer: Vec<u32> = (0..35u32).map(|i| i.wrapping_mul(0x0101_0307)).collect();
    let validated = decode_packed(&buffer, 28, (5, 5)).unwrap();
    let plain = decode_image(&buffer, 28, (5, 5));
    assert!(same_pixels(&validated, &plain));
    assert_eq!(error_of(decode_packed(&buffer, 28, (5, 6))), Some(DecodeError::BufferTooSmall));
    assert_eq!(error_of(decode_packed(&buffer, 32, (4, 5))), Some(DecodeError::BufferTooSmall));
}

#[test]
fn planar_needs_all_three_planes() {
    let luma = [126u8; 16];
    let chroma = [128u8; 4];
    let short = [128u8; 3];
    assert!(decode_yuv420_planar([&luma, &chroma, &chroma], [4, 2, 2], (4, 4)).is_ok());
    assert_eq!(
        error_of(decode_yuv420_planar([&luma[..15], &chroma, &chroma], [4, 2, 2], (4, 4))),
        Some(DecodeError::BufferTooSmall)
    );
    assert_eq!(
        error_of(decode_yuv420_planar([&luma, &short, &chroma], [4, 2, 2], (4, 4))),
        Some(DecodeError::BufferTooSmall)
    );
    assert_eq!(
        error_of(decode_yuv420_planar([&luma, &chroma, &short], [4, 2, 2], (4, 4))),
        Some(DecodeError::BufferTooSmall)
    );
    // an odd width still needs the chroma sample of its last column
    assert!(decode_yuv420_planar([&luma, &chroma, &chroma], [4, 2, 2], (3, 3)).is_ok());
    assert_eq!(
        error_of(decode_yuv420_planar([&luma, &short, &chroma], [4, 2, 2], (3, 3))),
        Some(DecodeError::BufferTooSmall)
    );
    assert!(decode_yuv420_planar([&luma, &short, &short], [4, 2, 2], (2, 3)).is_ok());
}

#[test]
fn planar_half_needs_whole_luma_blocks() {
    let luma = [235u8; 16];
    let chroma = [128u8; 4];
    let img = decode_yuv420_planar_half([&luma, &chroma, &chroma], [4, 2, 2], (4, 4)).unwrap();
    assert_eq!(img.dimensions(), (2, 2));
    assert_eq!(img.get_pixel(1, 1), Some((255, 255, 255)));
    assert_eq!(
        error_of(decode_yuv420_planar_half([&luma[..15], &chroma, &chroma], [4, 2, 2], (4, 4))),
        Some(DecodeError::BufferTooSmall)
    );
    assert_eq!(
        error_of(decode_yuv420_planar_half([&luma, &chroma[..3], &chroma], [4, 2, 2], (4, 4))),
        Some(DecodeError::BufferTooSmall)
    );
    // an odd size drops the last row and column before anything is read
    assert!(decode_yuv420_planar_half([&luma[..15], &chroma, &chroma], [4, 2, 2], (5, 5)).is_err());
    assert!(decode_yuv420_planar_half([&luma[..6], &chroma[..1], &chroma[..1]], [4, 2, 2], (3, 3))
        .is_ok());
}

#[test]
fn direct_geometry_is_validated() {
    let stream = vec![0u8; 4096];
    assert!(detile_direct(&stream, 32, (1, 1), (32, 32)).is_ok());
    assert!(detile_direct(&stream, 33, (1, 1), (33, 33)).is_ok());
    // a tile does not fit a slot of 31
    assert_eq!(
        error_of(detile_direct(&stream, 31, (1, 1), (20, 20))),
        Some(DecodeError::InvalidGeometry)
    );
    // the crop leaves the canvas
    assert_eq!(
        error_of(detile_direct(&stream, 32, (1, 1), (33, 32))),
        Some(DecodeError::InvalidGeometry)
    );
    assert_eq!(
        error_of(detile_direct(&stream, 32, (1, 1), (32, 33))),
        Some(DecodeError::InvalidGeometry)
    );
    // a side of the canvas does not fit u32
    assert_eq!(
        error_of(detile_direct(&stream, 32, (1 << 27, 1), (32, 32))),
        Some(DecodeError::InvalidGeometry)
    );
    assert_eq!(
        error_of(detile_direct(&stream, 1 << 31, (2, 0), (0, 0))),
        Some(DecodeError::InvalidGeometry)
    );
    // without tiles any pitch will do
    assert!(detile_direct(&[], 5, (0, 4), (0, 20)).is_ok());
    assert!(detile_direct(&[], 0, (3, 0), (0, 0)).is_ok());
}

#[test]
fn direct_stream_is_validated() {
    let stream = vec![7u8; 2 * 4096];
    assert!(detile_direct(&stream, 32, (2, 1), (64, 32)).is_ok());
    assert!(detile_direct(&stream[..2 * 4096 - 1], 32, (1, 2), (32, 64)).is_ok());
    assert_eq!(
        error_of(detile_direct(&stream[..2 * 4096 - 2], 32, (2, 1), (64, 32))),
        Some(DecodeError::BufferTooSmall)
    );
    assert_eq!(
        error_of(detile_direct(&stream, 32, (2, 2), (1, 1))),
        Some(DecodeError::BufferTooSmall)
    );
    assert_eq!(error_of(detile_direct(&[], 32, (1, 1), (0, 0))), Some(DecodeError::BufferTooSmall));
}

#[test]
fn direct_agrees_with_the_unvalidated_decoder() {
    let stream: Vec<u8> = (0..3 * 4096u32).map(|i| (i * 7 + i / 256) as u8).collect();
    let validated = detile_direct(&stream, 40, (3, 1), (100, 37)).unwrap();
    let plain = to_image(&stream, 40, (3, 1), (100, 37));
    assert_eq!(validated.dimensions(), (100, 37));
    assert!(same_pixels(&validated, &plain));
}

#[test]
fn direct_has_room_predicates() {
    assert!(direct_canvas_has_room(32, (1, 1), (32, 32)));
    assert!(!direct_canvas_has_room(31, (1, 1), (0, 0)));
    assert!(direct_canvas_has_room(31, (0, 1), (0, 31)));
    assert!(!direct_canvas_has_room(32, (1, 1), (33, 0)));
    assert!(!direct_canvas_has_room(64, (1 << 26, 1), (0, 0)));
    assert!(direct_canvas_has_room(64, (1 << 25, 0), (0, 0)));
    assert!(direct_stream_has_room(4095, (1, 1)));
    assert!(!direct_stream_has_room(4094, (1, 1)));
    assert!(direct_stream_has_room(0, (0, 9)));
    assert!(direct_stream_has_room(0, (9, 0)));
    assert!(!direct_stream_has_room(usize::MAX, (u32::MAX, u32::MAX)) || usize::BITS > 64);
}

#[test]
fn averaged_geometry_is_validated() {
    let words = vec![0u32; 1024];
    assert!(detile_averaged(&words, 32, (1, 1), (32, 32)).is_ok());
    assert!(detile_averaged(&words, 32, (1, 1), (35, 35)).is_ok());
    assert_eq!(
        error_of(detile_averaged(&words, 31, (1, 1), (0, 0))),
        Some(DecodeError::InvalidGeometry)
    );
    assert_eq!(
        error_of(detile_averaged(&words, 32, (1, 1), (36, 32))),
        Some(DecodeError::InvalidGeometry)
    );
    assert_eq!(
        error_of(detile_averaged(&words, 1 << 31, (1 << 4, 1), (0, 0))),
        Some(DecodeError::InvalidGeometry)
    );
    assert!(detile_averaged(&[], 3, (0, 0), (3, 3)).is_ok());
}

#[test]
fn averaged_stream_is_validated() {
    let words = vec![0u32; 2048];
    assert!(detile_averaged(&words, 32, (2, 1), (64, 32)).is_ok());
    assert_eq!(
        error_of(detile_averaged(&words[..2047], 32, (2, 1), (64, 32))),
        Some(DecodeError::BufferTooSmall)
    );
    assert_eq!(
        error_of(detile_averaged(&words, 32, (1, 3), (0, 0))),
        Some(DecodeError::BufferTooSmall)
    );
}

#[test]
fn averaged_has_room_predicates() {
    assert!(averaged_canvas_has_room(32, (1, 1), (35, 35)));
    assert!(!averaged_canvas_has_room(32, (1, 1), (36, 35)));
    assert!(!averaged_canvas_has_room(16, (2, 2), (0, 0)));
    assert!(averaged_canvas_has_room(16, (2, 0), (32, 0)));
    // a canvas side may exceed what the product fits in u32
    assert!(averaged_canvas_has_room(1 << 31, (2, 0), (0, 0)));
    assert!(!averaged_canvas_has_room(1 << 31, (8, 0), (0, 0)));
    assert!(averaged_stream_has_room(1024, (1, 1)));
    assert!(!averaged_stream_has_room(1023, (1, 1)));
    assert!(averaged_stream_has_room(0, (0, 0)));
}
