use image_decoder::{
    decode_image, decode_image_multichannel, decode_small_image_multichannel, rgb565_to_rgb888,
    Raster,
};

fn pixels_of(img: &Raster) -> Vec<Vec<(u8, u8, u8)>> {
    let (width, height) = img.dimensions();
    let mut rows = Vec::new();
    for y in 0..height {
        let mut row = Vec::new();
        for x in 0..width {
            row.push(img.get_pixel(x, y).unwrap());
        }
        rows.push(row);
    }
    rows
}

#[test]
fn constant_red_rgb565_buffer_decodes_to_red() {
    let buffer = [0xF800u16; 4];
    let img = rgb565_to_rgb888(&buffer, 4, (2, 2));
    assert_eq!(img.dimensions(), (2, 2));
    for y in 0..2 {
        for x in 0..2 {
            assert_eq!(img.get_pixel(x, y), Some((255, 0, 0)));
        }
    }
}

#[test]
fn rgb565_rows_are_a_pitch_apart() {
    // three samples to a row, two of them visible
    let buffer = [0xF800u16, 0x07E0, 0xFFFF, 0x001F, 0x0000, 0xFFFF];
    let img = rgb565_to_rgb888(&buffer, 6, (2, 2));
    assert_eq!(
        pixels_of(&img),
        vec![vec![(255, 0, 0), (0, 255, 0)], vec![(0, 0, 255), (0, 0, 0)]]
    );
}

#[test]
fn rgb565_pitch_counts_bytes_and_rounds_down() {
    let buffer = [0xF800u16, 0x07E0, 0x001F, 0xFFFF];
    // a pitch of 5 bytes is two whole samples
    let img = rgb565_to_rgb888(&buffer, 5, (2, 2));
    assert_eq!(
        pixels_of(&img),
        vec![vec![(255, 0, 0), (0, 255, 0)], vec![(0, 0, 255), (255, 255, 255)]]
    );
}

#[test]
fn rgb565_last_row_may_end_with_the_buffer() {
    // the last row needs only its visible samples
    let buffer = [0x0000u16, 0xFFFF, 0x1234, 0xF800, 0x07E0];
    let img = rgb565_to_rgb888(&buffer, 6, (2, 2));
    assert_eq!(img.get_pixel(0, 1), Some((255, 0, 0)));
    assert_eq!(img.get_pixel(1, 1), Some((0, 255, 0)));
}

#[test]
fn rgb565_zero_pitch_repeats_the_first_row() {
    let buffer = [0xF800u16, 0x001F];
    let img = rgb565_to_rgb888(&buffer, 0, (2, 3));
    for y in 0..3 {
        assert_eq!(img.get_pixel(0, y), Some((255, 0, 0)));
        assert_eq!(img.get_pixel(1, y), Some((0, 0, 255)));
    }
}

#[test]
fn empty_images_read_nothing() {
    let img = rgb565_to_rgb888(&[], 0, (0, 0));
    assert_eq!(img.dimensions(), (0, 0));
    assert_eq!(img.get_pixel(0, 0), None);
    let img = rgb565_to_rgb888(&[], 8, (4, 0));
    assert_eq!(img.dimensions(), (4, 0));
    let img = decode_image(&[], 8, (0, 7));
    assert_eq!(img.dimensions(), (0, 7));
    assert_eq!(img.get_pixel(0, 3), None);
    let img = decode_image_multichannel([&[], &[], &[]], (0, 0), [0, 0, 0]);
    assert_eq!(img.dimensions(), (0, 0));
    let img = decode_small_image_multichannel([&[], &[], &[]], (1, 1), [0, 0, 0]);
    assert_eq!(img.dimensions(), (0, 0));
}

#[test]
fn get_pixel_is_none_outside_the_image() {
    let buffer = [0x0011_2233u32; 6];
    let img = decode_image(&buffer, 12, (3, 2));
    assert_eq!(img.get_pixel(2, 1), Some((0x11, 0x22, 0x33)));
    assert_eq!(img.get_pixel(3, 0), None);
    assert_eq!(img.get_pixel(0, 2), None);
    assert_eq!(img.get_pixel(u32::MAX, u32::MAX), None);
}

#[test]
fn packed_words_hold_red_in_byte_two() {
    let buffer = [0x00FF_0000u32, 0x0000_FF00, 0x0000_00FF, 0xFF12_3456];
    let img = decode_image(&buffer, 8, (2, 2));
    assert_eq!(
        pixels_of(&img),
        vec![vec![(255, 0, 0), (0, 255, 0)], vec![(0, 0, 255), (0x12, 0x34, 0x56)]]
    );
}

#[test]
fn packed_contiguous_rows_follow_one_another() {
    let width = 5u32;
    let height = 4u32;
    let buffer: Vec<u32> = (0..width * height).map(|i| i * 0x0001_0203 + 7).collect();
    let img = decode_image(&buffer, width * 4, (width, height));
    assert_eq!(img.dimensions(), (width, height));
    for y in 0..height {
        for x in 0..width {
            let word = buffer[(y * width + x) as usize];
            let expected = ((word >> 16) as u8, (word >> 8) as u8, word as u8);
            assert_eq!(img.get_pixel(x, y), Some(expected));
        }
    }
}

#[test]
fn packed_rows_with_padding_skip_it() {
    // four words to a row, three visible
    let buffer: Vec<u32> = (0..12u32).collect();
    let img = decode_image(&buffer, 16, (3, 3));
    for y in 0..3 {
        for x in 0..3 {
            assert_eq!(img.get_pixel(x, y), Some((0, 0, (4 * y + x) as u8)));
        }
    }
}

#[test]
fn planar_chroma_is_shared_by_two_by_two_blocks() {
    // luma 4x4 all 126 (mid grey), chroma 2x2
    let luma = [126u8; 16];
    let cb = [128u8, 240, 54, 90];
    let cr = [128u8, 110, 34, 240];
    let img = decode_image_multichannel([&luma, &cb, &cr], (4, 4), [4, 2, 2]);
    assert_eq!(img.dimensions(), (4, 4));
    let top_left = (128, 128, 128);
    let top_right = (99, 99, 255);
    let bottom_left = (0, 233, 0);
    let bottom_right = (255, 52, 51);
    for y in 0..4 {
        for x in 0..4 {
            let expected = match (x / 2, y / 2) {
                (0, 0) => top_left,
                (1, 0) => top_right,
                (0, 1) => bottom_left,
                _ => bottom_right,
            };
            assert_eq!(img.get_pixel(x, y), Some(expected), "at {:?}", (x, y));
        }
    }
}

#[test]
fn planar_luma_is_read_per_pixel() {
    let luma = [16u8, 235, 126, 17, 15, 255];
    let cb = [128u8, 128];
    let cr = [128u8, 128];
    let img = decode_image_multichannel([&luma, &cb, &cr], (3, 2), [3, 2, 1]);
    assert_eq!(
        pixels_of(&img),
        vec![
            vec![(0, 0, 0), (255, 255, 255), (128, 128, 128)],
            vec![(1, 1, 1), (0, 0, 0), (255, 255, 255)],
        ]
    );
}

#[test]
fn planar_odd_sizes_need_the_rounded_up_chroma() {
    // 3x3 luma, chroma 2x2 with its own pitches
    let luma = [126u8; 9];
    let cb = [128u8, 240, 0, 54, 90];
    let cr = [128u8, 110, 34, 240];
    let img = decode_image_multichannel([&luma, &cb, &cr], (3, 3), [3, 3, 2]);
    assert_eq!(img.get_pixel(0, 0), Some((128, 128, 128)));
    assert_eq!(img.get_pixel(2, 0), Some((99, 99, 255)));
    assert_eq!(img.get_pixel(1, 2), Some((0, 233, 0)));
    assert_eq!(img.get_pixel(2, 2), Some((255, 52, 51)));
}

#[test]
fn half_resolution_averages_luma_and_keeps_chroma() {
    // luma 4x4 with a pitch of 5
    let luma = [
        16u8, 17, 235, 235, 0,
        18, 20, 235, 235, 0,
        126, 126, 0, 1, 0,
        126, 126, 2, 4,
    ];
    let cb = [128u8, 128, 128, 128];
    let cr = [128u8, 128, 128, 128];
    let img = decode_small_image_multichannel([&luma, &cb, &cr], (4, 4), [5, 2, 2]);
    assert_eq!(img.dimensions(), (2, 2));
    // (16 + 17 + 18 + 20) / 4 = 17, (0 + 1 + 2 + 4) / 4 = 1
    assert_eq!(
        pixels_of(&img),
        vec![vec![(1, 1, 1), (255, 255, 255)], vec![(128, 128, 128), (0, 0, 0)]]
    );
}

#[test]
fn half_resolution_reads_chroma_at_its_own_coordinates() {
    let luma = [126u8; 16];
    let cb = [128u8, 240, 54, 90];
    let cr = [128u8, 110, 34, 240];
    let img = decode_small_image_multichannel([&luma, &cb, &cr], (4, 4), [4, 2, 2]);
    assert_eq!(
        pixels_of(&img),
        vec![vec![(128, 128, 128), (99, 99, 255)], vec![(0, 233, 0), (255, 52, 51)]]
    );
}

#[test]
fn half_resolution_drops_an_odd_last_row_and_column() {
    let luma = [235u8; 25];
    let cb = [128u8; 4];
    let cr = [128u8; 4];
    let img = decode_small_image_multichannel([&luma, &cb, &cr], (5, 5), [5, 2, 2]);
    assert_eq!(img.dimensions(), (2, 2));
    assert_eq!(img.get_pixel(1, 1), Some((255, 255, 255)));
    assert_eq!(img.get_pixel(2, 2), None);
}
