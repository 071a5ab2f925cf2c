use image_decoder::{decode_tiled_small_image, to_image, Raster};

/// A stream of `count` four-byte pixels in which pixel `n` carries `n` in
/// its colour: blue is the low byte, then green, then red.
fn numbered_stream(count: u32) -> Vec<u8> {
    let mut bytes = Vec::new();
    for n in 0..count {
        bytes.push(n as u8);
        bytes.push((n >> 8) as u8);
        bytes.push((n >> 16) as u8);
        bytes.push(0xA5);
    }
    bytes
}

fn number_at(img: &Raster, x: u32, y: u32) -> u32 {
    let (r, g, b) = img.get_pixel(x, y).unwrap();
    ((r as u32) << 16) | ((g as u32) << 8) | b as u32
}

/// The order in which the pixels of a grid of 32x32 tiles follow one
/// another: for each place in the stream, the pixel that is stored there.
fn visiting_order(tilesize: u32, tiles: (u32, u32)) -> Vec<(u32, u32)> {
    let mut order = Vec::new();
    for ytile in 0..tiles.1 {
        let odd = ytile % 2 == 1;
        let columns: Vec<u32> = if odd {
            (0..tiles.0).rev().collect()
        } else {
            (0..tiles.0).collect()
        };
        let quadrants: [(u32, u32); 4] = if odd {
            [(16, 16), (16, 0), (0, 0), (0, 16)]
        } else {
            [(0, 0), (0, 16), (16, 16), (16, 0)]
        };
        for xtile in columns {
            for (qx, qy) in quadrants {
                for band in 0..4 {
                    for block in 0..4 {
                        for row in 0..4 {
                            for col in 0..4 {
                                order.push((
                                    xtile * tilesize + qx + 4 * block + col,
                                    ytile * tilesize + qy + 4 * band + row,
                                ));
                            }
                        }
                    }
                }
            }
        }
    }
    order
}

#[test]
fn direct_traversal_of_two_by_two_tiles_is_a_permutation() {
    let count = 2 * 2 * 32 * 32;
    let stream = numbered_stream(count);
    let img = to_image(&stream, 32, (2, 2), (64, 64));
    assert_eq!(img.dimensions(), (64, 64));
    let mut seen = vec![false; count as usize];
    for y in 0..64 {
        for x in 0..64 {
            let n = number_at(&img, x, y) as usize;
            assert!(n < count as usize);
            assert!(!seen[n], "stream pixel {} lands twice", n);
            seen[n] = true;
        }
    }
    assert!(seen.iter().all(|&hit| hit));
}

#[test]
fn direct_traversal_follows_the_serpentine_pattern() {
    let stream = numbered_stream(4096);
    let img = to_image(&stream, 32, (2, 2), (64, 64));
    let order = visiting_order(32, (2, 2));
    assert_eq!(order.len(), 4096);
    for (n, &(x, y)) in order.iter().enumerate() {
        assert_eq!(number_at(&img, x, y), n as u32, "at {:?}", (x, y));
    }
}

#[test]
fn direct_tiles_and_quadrants_start_where_the_layout_says() {
    let stream = numbered_stream(4096);
    let img = to_image(&stream, 32, (2, 2), (64, 64));
    // first tile row, left to right; quadrants top left, bottom left,
    // bottom right, top right
    assert_eq!(number_at(&img, 0, 0), 0);
    assert_eq!(number_at(&img, 0, 16), 256);
    assert_eq!(number_at(&img, 16, 16), 512);
    assert_eq!(number_at(&img, 16, 0), 768);
    assert_eq!(number_at(&img, 32, 0), 1024);
    // second tile row, right to left; quadrants bottom right, top right,
    // top left, bottom left
    assert_eq!(number_at(&img, 48, 48), 2048);
    assert_eq!(number_at(&img, 48, 32), 2048 + 256);
    assert_eq!(number_at(&img, 32, 32), 2048 + 512);
    assert_eq!(number_at(&img, 32, 48), 2048 + 768);
    assert_eq!(number_at(&img, 16, 48), 3072);
    assert_eq!(number_at(&img, 0, 32), 3072 + 512);
}

#[test]
fn direct_blocks_bands_and_rows_within_a_quadrant() {
    let stream = numbered_stream(1024);
    let img = to_image(&stream, 32, (1, 1), (32, 32));
    // a row of a block, then the next row of the block
    assert_eq!(number_at(&img, 1, 0), 1);
    assert_eq!(number_at(&img, 3, 0), 3);
    assert_eq!(number_at(&img, 0, 1), 4);
    assert_eq!(number_at(&img, 3, 3), 15);
    // the next block lies to the right
    assert_eq!(number_at(&img, 4, 0), 16);
    assert_eq!(number_at(&img, 12, 0), 48);
    assert_eq!(number_at(&img, 15, 3), 63);
    // the next band lies below
    assert_eq!(number_at(&img, 0, 4), 64);
    assert_eq!(number_at(&img, 0, 12), 192);
    assert_eq!(number_at(&img, 15, 15), 255);
    // the last pixel of the stream ends the top right quadrant
    assert_eq!(number_at(&img, 31, 15), 1023);
    assert_eq!(number_at(&img, 31, 31), 767);
}

#[test]
fn direct_reads_red_from_byte_two() {
    let mut stream = vec![0u8; 4096];
    stream[0] = 0x11;
    stream[1] = 0x22;
    stream[2] = 0x33;
    stream[3] = 0x44;
    let img = to_image(&stream, 32, (1, 1), (32, 32));
    assert_eq!(img.get_pixel(0, 0), Some((0x33, 0x22, 0x11)));
    assert_eq!(img.get_pixel(1, 0), Some((0, 0, 0)));
}

#[test]
fn direct_crop_keeps_the_top_left_rectangle() {
    let stream = numbered_stream(1024);
    let whole = to_image(&stream, 32, (1, 1), (32, 32));
    let cropped = to_image(&stream, 32, (1, 1), (20, 20));
    assert_eq!(whole.dimensions(), (32, 32));
    assert_eq!(cropped.dimensions(), (20, 20));
    for y in 0..20 {
        for x in 0..20 {
            assert_eq!(cropped.get_pixel(x, y), whole.get_pixel(x, y));
        }
    }
    assert_eq!(cropped.get_pixel(20, 0), None);
    assert_eq!(cropped.get_pixel(0, 20), None);
    assert_eq!(cropped.get_pixel(19, 19), Some((0, 2, 15)));
}

#[test]
fn direct_crop_may_be_empty_or_lopsided() {
    let stream = numbered_stream(2048);
    let img = to_image(&stream, 32, (2, 1), (0, 0));
    assert_eq!(img.dimensions(), (0, 0));
    let img = to_image(&stream, 32, (2, 1), (64, 1));
    assert_eq!(img.dimensions(), (64, 1));
    assert_eq!(number_at(&img, 63, 0), 1024 + 768 + 48 + 3);
    let img = to_image(&stream, 32, (2, 1), (1, 32));
    assert_eq!(img.dimensions(), (1, 32));
    assert_eq!(number_at(&img, 0, 31), 256 + 192 + 12);
}

#[test]
fn direct_needs_no_trailing_byte() {
    let mut stream = numbered_stream(1024);
    stream.pop();
    let img = to_image(&stream, 32, (1, 1), (32, 32));
    assert_eq!(number_at(&img, 31, 15), 1023);
}

#[test]
fn direct_without_tiles_gives_an_empty_image() {
    let img = to_image(&[], 32, (0, 0), (0, 0));
    assert_eq!(img.dimensions(), (0, 0));
    let img = to_image(&[], 7, (0, 3), (0, 21));
    assert_eq!(img.dimensions(), (0, 21));
    assert_eq!(img.get_pixel(0, 0), None);
}

#[test]
fn direct_wider_pitch_leaves_black_between_tiles() {
    let stream: Vec<u8> = numbered_stream(4096).iter().map(|b| b | 0x80).collect();
    let img = to_image(&stream, 40, (2, 2), (80, 80));
    assert_eq!(img.dimensions(), (80, 80));
    let order = visiting_order(40, (2, 2));
    for (n, &(x, y)) in order.iter().enumerate() {
        let n = n as u32 | 0x0080_8080;
        assert_eq!(number_at(&img, x, y), n, "at {:?}", (x, y));
    }
    for y in 0..80 {
        for x in 0..80 {
            if x % 40 >= 32 || y % 40 >= 32 {
                assert_eq!(img.get_pixel(x, y), Some((0, 0, 0)), "at {:?}", (x, y));
            }
        }
    }
}

/// A stream of `count` runs of sixteen equal words; run `n` carries `n` in
/// its colour.
fn numbered_runs(count: u32) -> Vec<u32> {
    let mut words = Vec::new();
    for n in 0..count {
        for _ in 0..16 {
            words.push(0xFF00_0000 | n);
        }
    }
    words
}

/// The order in which the destination pixels of a grid of averaged tiles
/// follow one another.
fn averaged_visiting_order(tilesize: u32, tiles: (u32, u32)) -> Vec<(u32, u32)> {
    let mut order = Vec::new();
    for ytile in 0..tiles.1 {
        let odd = ytile % 2 == 1;
        let columns: Vec<u32> = if odd {
            (0..tiles.0).rev().collect()
        } else {
            (0..tiles.0).collect()
        };
        let quadrants: [(u32, u32); 4] = if odd {
            [(4, 4), (4, 0), (0, 0), (0, 4)]
        } else {
            [(0, 0), (0, 4), (4, 4), (4, 0)]
        };
        for xtile in columns {
            for (qx, qy) in quadrants {
                for row in 0..4 {
                    for col in 0..4 {
                        order.push((
                            xtile * tilesize / 4 + qx + col,
                            ytile * tilesize / 4 + qy + row,
                        ));
                    }
                }
            }
        }
    }
    order
}

#[test]
fn averaged_traversal_follows_the_serpentine_pattern() {
    let words = numbered_runs(3 * 2 * 64);
    let img = decode_tiled_small_image(&words, 32, (3, 2), (96, 64));
    assert_eq!(img.dimensions(), (24, 16));
    let order = averaged_visiting_order(32, (3, 2));
    assert_eq!(order.len(), 3 * 2 * 64);
    let mut seen = vec![false; order.len()];
    for (n, &(x, y)) in order.iter().enumerate() {
        assert_eq!(number_at(&img, x, y), n as u32, "at {:?}", (x, y));
        seen[(y * 24 + x) as usize] = true;
    }
    assert!(seen.iter().all(|&hit| hit));
}

#[test]
fn averaged_tiles_and_quadrants_start_where_the_layout_says() {
    let words = numbered_runs(4 * 64);
    let img = decode_tiled_small_image(&words, 32, (2, 2), (64, 64));
    assert_eq!(number_at(&img, 0, 0), 0);
    assert_eq!(number_at(&img, 3, 0), 3);
    assert_eq!(number_at(&img, 0, 1), 4);
    assert_eq!(number_at(&img, 0, 4), 16);
    assert_eq!(number_at(&img, 4, 4), 32);
    assert_eq!(number_at(&img, 4, 0), 48);
    assert_eq!(number_at(&img, 8, 0), 64);
    assert_eq!(number_at(&img, 12, 12), 128);
    assert_eq!(number_at(&img, 15, 15), 128 + 15);
    assert_eq!(number_at(&img, 4, 12), 192);
    assert_eq!(number_at(&img, 0, 8), 192 + 32);
}

#[test]
fn averaged_pixels_are_means_of_sixteen_words() {
    let mut words = vec![0u32; 1024];
    // the run of destination pixel 5 of the tile: red 0..15, green 16 times
    // 7, blue eight times 255
    for k in 0..16u32 {
        let blue = if k % 2 == 0 { 255 } else { 0 };
        words[(5 * 16 + k) as usize] = (k << 16) | (7 << 8) | blue;
    }
    let img = decode_tiled_small_image(&words, 32, (1, 1), (32, 32));
    assert_eq!(img.dimensions(), (8, 8));
    // 120 / 16 = 7, 112 / 16 = 7, 2040 / 16 = 127
    assert_eq!(img.get_pixel(1, 1), Some((7, 7, 127)));
    assert_eq!(img.get_pixel(0, 1), Some((0, 0, 0)));
    assert_eq!(img.get_pixel(2, 1), Some((0, 0, 0)));
}

#[test]
fn averaged_crop_is_a_quarter_of_the_size() {
    let words = numbered_runs(64);
    let whole = decode_tiled_small_image(&words, 32, (1, 1), (32, 32));
    let cropped = decode_tiled_small_image(&words, 32, (1, 1), (23, 9));
    assert_eq!(cropped.dimensions(), (5, 2));
    for y in 0..2 {
        for x in 0..5 {
            assert_eq!(cropped.get_pixel(x, y), whole.get_pixel(x, y));
        }
    }
    assert_eq!(cropped.get_pixel(4, 1), Some((0, 0, 48 + 4)));
    assert_eq!(cropped.get_pixel(5, 0), None);
    let empty = decode_tiled_small_image(&words, 32, (1, 1), (3, 3));
    assert_eq!(empty.dimensions(), (0, 0));
}

#[test]
fn averaged_without_tiles_gives_an_empty_image() {
    let img = decode_tiled_small_image(&[], 32, (0, 0), (0, 0));
    assert_eq!(img.dimensions(), (0, 0));
    let img = decode_tiled_small_image(&[], 5, (4, 0), (20, 0));
    assert_eq!(img.dimensions(), (5, 0));
}

#[test]
fn averaged_wider_pitch_leaves_black_between_tiles() {
    // a pitch of 38 puts the tiles at 0, 9 and 19
    let words: Vec<u32> = numbered_runs(3 * 3 * 64).iter().map(|w| w | 0x0080_0000).collect();
    let img = decode_tiled_small_image(&words, 38, (3, 3), (114, 114));
    assert_eq!(img.dimensions(), (28, 28));
    let order = averaged_visiting_order(38, (3, 3));
    let mut covered = vec![false; 28 * 28];
    for (n, &(x, y)) in order.iter().enumerate() {
        assert_eq!(number_at(&img, x, y), n as u32 | 0x0080_0000, "at {:?}", (x, y));
        covered[(y * 28 + x) as usize] = true;
    }
    assert!(covered[0] && covered[7] && covered[9] && covered[16] && covered[19] && covered[26]);
    assert!(!covered[8] && !covered[17] && !covered[18] && !covered[27]);
    assert!(!covered[8 * 28] && covered[9 * 28] && !covered[9 * 28 + 8]);
    for y in 0..28 {
        for x in 0..28 {
            if !covered[(y * 28 + x) as usize] {
                assert_eq!(img.get_pixel(x, y), Some((0, 0, 0)), "at {:?}", (x, y));
            }
        }
    }
}
