use raycaster::error::RenderError;
use raycaster::framebuffer::Framebuffer;
use raycaster::map::TileMap;
use raycaster::ppm::encode_ppm;
use raycaster::renderer::{
    begin_frame, draw_minimap, draw_sprite, draw_wall_column, draw_wall_hit, march, sprite_screen_size,
    wall_texture_coordinate, RaySample, BACKGROUND_COLOR, TRACE_COLOR,
};
use raycaster::texture::Texture;
use raycaster::util::{pack_color, unpack_color};

fn rgba_of(colors: &[u32]) -> Vec<u8> {
    let mut out = Vec::new();
    for c in colors {
        let (r, g, b, a) = unpack_color(c);
        out.extend_from_slice(&[r, g, b, a]);
    }
    out
}

/// An atlas of `count` textures of side `size`, where pixel (x, y) of texture t holds
/// the colour 1000 * t + 10 * y + x.
fn numbered_atlas(size: usize, count: usize) -> Texture {
    let width = size * count;
    let mut colors = Vec::new();
    for y in 0..size {
        for x in 0..width {
            let t = x / size;
            colors.push((1000 * t + 10 * y + x % size) as u32);
        }
    }
    Texture::new(width, size, &rgba_of(&colors)).unwrap()
}

fn flat_atlas(size: usize, color: u32) -> Texture {
    let colors = vec![color; size * size];
    Texture::new(size, size, &rgba_of(&colors)).unwrap()
}

fn cleared(width: usize, height: usize, color: u32) -> Framebuffer {
    let mut fb = Framebuffer::new(width, height);
    fb.clear(color);
    fb
}

#[test]
fn pack_color_puts_red_lowest() {
    assert_eq!(pack_color(255, 0, 0, 255), 0xff00_00ff);
    assert_eq!(pack_color(1, 2, 3, 4), 0x0403_0201);
    assert_eq!(pack_color(255, 255, 255, 255), BACKGROUND_COLOR);
    assert_eq!(pack_color(160, 160, 160, 255), TRACE_COLOR);
}

#[test]
fn unpack_color_inverts_pack_color() {
    assert_eq!(unpack_color(&0x0403_0201), (1, 2, 3, 4));
    assert_eq!(unpack_color(&pack_color(9, 200, 17, 0)), (9, 200, 17, 0));
}

#[test]
fn clear_fills_every_cell() {
    let mut fb = Framebuffer::new(4, 3);
    assert_eq!(fb.length(), 0);
    fb.clear(7);
    assert_eq!(fb.length(), 12);
    for i in 0..12 {
        assert_eq!(fb.get_pixel(i), 7);
    }
}

#[test]
fn clear_overwrites_earlier_drawing() {
    let mut fb = cleared(3, 2, 1);
    fb.set_pixel(2, 1, 5);
    fb.clear(9);
    assert_eq!(fb.length(), 6);
    for i in 0..6 {
        assert_eq!(fb.get_pixel(i), 9);
    }
}

#[test]
fn set_pixel_is_row_major() {
    let mut fb = cleared(4, 3, 0);
    fb.set_pixel(1, 2, 42);
    assert_eq!(fb.get_pixel(1 + 2 * 4), 42);
    assert_eq!(fb.get_pixel(2 + 1 * 4), 0);
}

#[test]
fn draw_rectangle_clips_at_the_edges() {
    let mut fb = cleared(4, 4, 0);
    fb.draw_rectangle(2, 2, 5, 5, 9);
    for y in 0..4 {
        for x in 0..4 {
            let expected = if x >= 2 && y >= 2 { 9 } else { 0 };
            assert_eq!(fb.get_pixel(x + y * 4), expected, "cell ({}, {})", x, y);
        }
    }
    assert_eq!(fb.length(), 16);
}

#[test]
fn draw_rectangle_leaves_outside_cells() {
    let mut fb = cleared(5, 4, 3);
    fb.draw_rectangle(1, 1, 2, 2, 8);
    let painted = [(1, 1), (2, 1), (1, 2), (2, 2)];
    for y in 0..4 {
        for x in 0..5 {
            let expected = if painted.contains(&(x, y)) { 8 } else { 3 };
            assert_eq!(fb.get_pixel(x + y * 5), expected);
        }
    }
}

#[test]
fn draw_rectangle_wholly_outside_changes_nothing() {
    let mut fb = cleared(3, 3, 4);
    fb.draw_rectangle(3, 0, 2, 2, 1);
    fb.draw_rectangle(0, 7, 2, 2, 1);
    for i in 0..9 {
        assert_eq!(fb.get_pixel(i), 4);
    }
}

#[test]
fn map_reads_digits_and_blanks() {
    let map = TileMap::new(3, 2, "0 9 5 ".chars().collect()).unwrap();
    assert_eq!(map.get(0, 0), 0);
    assert_eq!(map.get(2, 0), 9);
    assert_eq!(map.get(1, 1), 5);
    assert!(map.is_empty(1, 0));
    assert!(map.is_empty(0, 1));
    assert!(!map.is_empty(2, 0));
}

#[test]
fn map_rejects_wrong_length() {
    let r = TileMap::new(3, 2, "0 9 5".chars().collect());
    assert_eq!(r.err(), Some(RenderError::InvalidDimensions));
}

#[test]
fn map_rejects_other_characters() {
    let r = TileMap::new(2, 2, "0 x ".chars().collect());
    assert_eq!(r.err(), Some(RenderError::InvalidTile));
}

#[test]
fn texture_splits_atlas_into_squares() {
    let t = numbered_atlas(3, 2);
    assert_eq!(t.count, 2);
    assert_eq!(t.size, 3);
    assert_eq!(t.image_width, 6);
    assert_eq!(t.image_height, 3);
    assert_eq!(*t.get(2, 1, 0), 12);
    assert_eq!(*t.get(0, 2, 1), 1020);
}

#[test]
fn texture_packs_rgba_bytes() {
    let t = Texture::new(1, 1, &vec![10, 20, 30, 40]).unwrap();
    assert_eq!(*t.get(0, 0, 0), pack_color(10, 20, 30, 40));
}

#[test]
fn texture_rejects_width_not_multiple_of_height() {
    let r = Texture::new(5, 2, &vec![0; 40]);
    assert_eq!(r.err(), Some(RenderError::InvalidDimensions));
}

#[test]
fn texture_rejects_narrower_than_high() {
    let r = Texture::new(1, 2, &vec![0; 8]);
    assert_eq!(r.err(), Some(RenderError::InvalidDimensions));
}

#[test]
fn texture_rejects_wrong_byte_count() {
    let r = Texture::new(4, 2, &vec![0; 31]);
    assert_eq!(r.err(), Some(RenderError::InvalidDimensions));
}

#[test]
fn scaled_column_has_requested_length() {
    let t = numbered_atlas(4, 2);
    for h in [0usize, 1, 3, 4, 7, 100] {
        assert_eq!(t.get_scaled_column(1, 2, h).len(), h);
    }
}

#[test]
fn scaled_column_at_texture_size_is_the_column() {
    let t = numbered_atlas(4, 2);
    let column = t.get_scaled_column(1, 3, 4);
    assert_eq!(column, vec![1003, 1013, 1023, 1033]);
}

#[test]
fn scaled_column_repeats_rows_when_stretched() {
    let t = numbered_atlas(2, 1);
    let column = t.get_scaled_column(0, 1, 5);
    assert_eq!(column, vec![1, 1, 1, 11, 11]);
    let taller = t.get_scaled_column(0, 1, 9);
    let mut rows: Vec<u32> = taller.clone();
    rows.dedup();
    assert_eq!(rows, vec![1, 11]);
}

#[test]
fn scaled_column_skips_rows_when_shrunk() {
    let t = numbered_atlas(4, 1);
    assert_eq!(t.get_scaled_column(0, 0, 2), vec![0, 20]);
}

#[test]
fn wall_texture_coordinate_wraps_negative_offsets() {
    assert_eq!(wall_texture_coordinate(-3, 64), 61);
    assert_eq!(wall_texture_coordinate(-1, 64), 63);
    assert_eq!(wall_texture_coordinate(-63, 64), 1);
    assert_eq!(wall_texture_coordinate(0, 64), 0);
    assert_eq!(wall_texture_coordinate(5, 64), 5);
    assert_eq!(wall_texture_coordinate(63, 64), 63);
}

#[test]
fn minimap_paints_occupied_cells() {
    let map = TileMap::new(2, 1, "1 ".chars().collect()).unwrap();
    let walls = numbered_atlas(2, 2);
    let mut fb = cleared(8, 2, 5);
    draw_minimap(&mut fb, &map, &walls);
    for y in 0..2 {
        for x in 0..8 {
            let expected = if x < 2 { 1000 } else { 5 };
            assert_eq!(fb.get_pixel(x + y * 8), expected);
        }
    }
}

#[test]
fn begin_frame_clears_then_paints_minimap() {
    let map = TileMap::new(2, 2, " 0  ".chars().collect()).unwrap();
    let walls = flat_atlas(2, 77);
    let mut fb = Framebuffer::new(8, 4);
    begin_frame(&mut fb, &map, &walls);
    assert_eq!(fb.length(), 32);
    for y in 0..4 {
        for x in 0..8 {
            let expected = if (2..4).contains(&x) && y < 2 { 77 } else { BACKGROUND_COLOR };
            assert_eq!(fb.get_pixel(x + y * 8), expected);
        }
    }
}

#[test]
fn march_stops_at_first_wall() {
    let map = TileMap::new(3, 1, "  2".chars().collect()).unwrap();
    let mut fb = cleared(6, 1, 0);
    let samples: Vec<RaySample> = (0..3)
        .map(|x| RaySample { cell_x: x, cell_y: 0, trace_x: x, trace_y: 0 })
        .chain(std::iter::once(RaySample { cell_x: 0, cell_y: 0, trace_x: 5, trace_y: 0 }))
        .collect();
    assert_eq!(march(&mut fb, &map, &samples), Some(2));
    assert_eq!(fb.get_pixel(0), TRACE_COLOR);
    assert_eq!(fb.get_pixel(2), TRACE_COLOR);
    assert_eq!(fb.get_pixel(5), 0);
}

#[test]
fn march_through_empty_map_hits_nothing() {
    let map = TileMap::new(4, 4, vec![' '; 16]).unwrap();
    let walls = flat_atlas(2, 3);
    let mut fb = Framebuffer::new(16, 8);
    begin_frame(&mut fb, &map, &walls);
    let rect_w = 16.0f32 / 8.0;
    let rect_h = 8.0f32 / 4.0;
    for column in 0..8usize {
        let angle = 0.3f32 + 1.0 * column as f32 / 8.0;
        let mut samples = Vec::new();
        let mut t = 0.0f32;
        while t <= 20.0 {
            t += 0.01;
            let x = 2.0 + t * angle.cos();
            let y = 2.0 + t * angle.sin();
            if x < 0.0 || y < 0.0 || x >= 4.0 || y >= 4.0 {
                break;
            }
            samples.push(RaySample {
                cell_x: x as usize,
                cell_y: y as usize,
                trace_x: (x * rect_w) as usize,
                trace_y: (y * rect_h) as usize,
            });
        }
        assert_eq!(march(&mut fb, &map, &samples), None);
    }
    for y in 0..8 {
        for x in 8..16 {
            assert_eq!(fb.get_pixel(x + y * 16), BACKGROUND_COLOR);
        }
    }
}

#[test]
fn wall_column_is_centred_and_clipped() {
    let walls = numbered_atlas(2, 1);
    let mut fb = cleared(2, 4, 5);
    draw_wall_column(&mut fb, &walls, 0, 0, 2, 1);
    let column: Vec<u32> = (0..4).map(|y| fb.get_pixel(1 + y * 2)).collect();
    assert_eq!(column, vec![5, 0, 10, 5]);
    draw_wall_column(&mut fb, &walls, 0, 1, 8, 0);
    let column: Vec<u32> = (0..4).map(|y| fb.get_pixel(y * 2)).collect();
    assert_eq!(column, vec![1, 1, 11, 11]);
}

#[test]
fn wall_hit_draws_the_strip_and_records_depth() {
    let map = TileMap::new(2, 1, " 1".chars().collect()).unwrap();
    let walls = numbered_atlas(4, 2);
    let mut fb = cleared(4, 4, 0);
    let mut depth = vec![0usize; 2];
    let sample = RaySample { cell_x: 1, cell_y: 0, trace_x: 0, trace_y: 0 };
    draw_wall_hit(&mut fb, &map, &walls, sample, -1, 4, 1, &mut depth);
    assert_eq!(depth, vec![0, 4]);
    let column: Vec<u32> = (0..4).map(|y| fb.get_pixel(3 + y * 4)).collect();
    assert_eq!(column, vec![1003, 1013, 1023, 1033]);
    assert_eq!(fb.get_pixel(2), 0);
}

#[test]
fn single_wall_strip_matches_projection() {
    let width = 64usize;
    let height = 32usize;
    let wall_color = pack_color(10, 120, 200, 255);
    let map = TileMap::new(4, 1, "   0".chars().collect()).unwrap();
    let walls = flat_atlas(4, wall_color);
    let mut fb = Framebuffer::new(width, height);
    begin_frame(&mut fb, &map, &walls);
    let mut depth = vec![0usize; width / 2];
    let (px, py, angle) = (0.5f32, 0.5f32, 0.0f32);
    let rect_w = (width / 8) as f32;
    let rect_h = height as f32;
    let column = width / 4;
    let mut samples = Vec::new();
    let mut t = 0.0f32;
    let mut ts = Vec::new();
    while t <= 20.0 {
        t += 0.01;
        let x = px + t * angle.cos();
        let y = py + t * angle.sin();
        if x >= 4.0 {
            break;
        }
        samples.push(RaySample {
            cell_x: x as usize,
            cell_y: y as usize,
            trace_x: (x * rect_w) as usize,
            trace_y: (y * rect_h) as usize,
        });
        ts.push(t);
    }
    let k = march(&mut fb, &map, &samples).unwrap();
    let distance = ts[k];
    assert!((distance - 2.5).abs() < 0.02);
    let strip = (height as f32 / distance) as usize;
    assert_eq!(strip, 12);
    let hit_y = py + distance * angle.sin();
    let offset = ((hit_y - (hit_y + 0.5).floor()) * 4.0) as i32;
    draw_wall_hit(&mut fb, &map, &walls, samples[k], offset, strip, column, &mut depth);
    let top = height / 2 - strip / 2;
    for y in 0..height {
        for x in width / 2..width {
            let expected = if x == width / 2 + column && y >= top && y < top + strip {
                wall_color
            } else {
                BACKGROUND_COLOR
            };
            assert_eq!(fb.get_pixel(x + y * width), expected, "pixel ({}, {})", x, y);
        }
    }
}

#[test]
fn sprite_size_is_capped() {
    assert_eq!(sprite_screen_size(1500), 1000);
    assert_eq!(sprite_screen_size(1000), 1000);
    assert_eq!(sprite_screen_size(999), 999);
    assert_eq!(sprite_screen_size(12), 12);
    assert_eq!(sprite_screen_size(0), 0);
}

#[test]
fn sprite_is_textured_centred_and_depth_tested() {
    let sprites = numbered_atlas(2, 2);
    let mut fb = cleared(8, 4, 0);
    let depth = vec![0usize, 0, 0, 0];
    draw_sprite(&mut fb, &sprites, 1, 2, 1, &depth);
    for y in 0..4 {
        for x in 0..8 {
            let expected = match (x, y) {
                (5, 1) => 1000,
                (6, 1) => 1001,
                (5, 2) => 1010,
                (6, 2) => 1011,
                _ => 0,
            };
            assert_eq!(fb.get_pixel(x + y * 8), expected, "pixel ({}, {})", x, y);
        }
    }
    let mut fb = cleared(8, 4, 0);
    let depth = vec![0usize, 3, 2, 0];
    draw_sprite(&mut fb, &sprites, 1, 2, 1, &depth);
    assert_eq!(fb.get_pixel(5 + 8), 0);
    assert_eq!(fb.get_pixel(6 + 8), 1001);
}

#[test]
fn sprite_is_clipped_to_right_half() {
    let sprites = flat_atlas(2, 9);
    let mut fb = cleared(8, 4, 0);
    draw_sprite(&mut fb, &sprites, 0, 4, -2, &vec![0usize; 4]);
    for y in 0..4 {
        for x in 0..8 {
            let expected = if x == 4 || x == 5 { 9 } else { 0 };
            assert_eq!(fb.get_pixel(x + y * 8), expected);
        }
    }
}

#[test]
fn ppm_encoding_has_header_and_rgb_triplets() {
    let mut fb = cleared(2, 1, 0);
    fb.set_pixel(0, 0, pack_color(1, 2, 3, 4));
    fb.set_pixel(1, 0, pack_color(250, 128, 0, 255));
    let bytes = encode_ppm(&fb, 2, 1);
    let mut expected = b"P6\n2 1 \n255\n".to_vec();
    expected.extend_from_slice(&[1, 2, 3, 250, 128, 0]);
    assert_eq!(bytes, expected);
}

#[test]
fn ppm_header_writes_multi_digit_sizes() {
    let fb = cleared(1024, 512, BACKGROUND_COLOR);
    let bytes = encode_ppm(&fb, 1024, 512);
    assert!(bytes.starts_with(b"P6\n1024 512 \n255\n"));
    assert_eq!(bytes.len(), 17 + 3 * 1024 * 512);
    assert!(bytes[17..].iter().all(|b| *b == 255));
}
