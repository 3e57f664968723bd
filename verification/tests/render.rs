use font8x8::UnicodeFonts;
use raycaster::engine::render::{
    clamp_span, darken, draw_glyph, draw_text, flat_wall_color, flip_tex_x, is_opaque,
    order_far_to_near,
    sprite_tex_x, sprite_tex_y, texel_index, texture_or_first, try_draw_text, wall_texture_index, TEXT_COLOR,
};
use raycaster::engine::Engine;
use raycaster::world::map::TileMap;

/// Independent reference: the pixels the text lights, drawn the straightforward way.
fn expected_text(
    buffer: &mut [u32],
    w: usize,
    h: usize,
    text: &str,
    x0: usize,
    y0: usize,
    scale: usize,
) {
    let mut x = x0;
    for ch in text.chars() {
        if let Some(glyph) = font8x8::BASIC_FONTS.get(ch) {
            for py in 0..h {
                for px in 0..w {
                    if px >= x && py >= y0 && px < x + 8 * scale && py < y0 + 8 * scale {
                        let row = (py - y0) / scale;
                        let bit = (px - x) / scale;
                        if (glyph[row] >> bit) & 1 == 1 {
                            buffer[py * w + px] = 0x00FF_FFFF;
                        }
                    }
                }
            }
            x += 9 * scale;
        }
    }
}

#[test]
fn draws_a_glyph_at_scale_one() {
    let (w, h) = (16, 10);
    let mut buffer = vec![7u32; w * h];
    draw_text(&mut buffer, w, h, "A", 1, 1, 1);
    let glyph = font8x8::BASIC_FONTS.get('A').unwrap();
    for py in 0..h {
        for px in 0..w {
            let lit = px >= 1 && px < 9 && py >= 1 && py < 9 && (glyph[py - 1] >> (px - 1)) & 1 == 1;
            let want = if lit { TEXT_COLOR } else { 7 };
            assert_eq!(buffer[py * w + px], want, "pixel ({px}, {py})");
        }
    }
}

#[test]
fn draws_text_scaled_and_advances() {
    let (w, h) = (60, 20);
    let mut buffer = vec![0u32; w * h];
    let mut expected = vec![0u32; w * h];
    draw_text(&mut buffer, w, h, "Hi!", 2, 1, 2);
    expected_text(&mut expected, w, h, "Hi!", 2, 1, 2);
    assert_eq!(buffer, expected);
    assert!(buffer.iter().any(|&p| p == TEXT_COLOR));
}

#[test]
fn characters_without_bitmap_take_no_room() {
    let (w, h) = (40, 8);
    let mut with_unknown = vec![0u32; w * h];
    let mut without = vec![0u32; w * h];
    draw_text(&mut with_unknown, w, h, "a\u{e9}b", 0, 0, 1);
    draw_text(&mut without, w, h, "ab", 0, 0, 1);
    assert_eq!(with_unknown, without);
}

#[test]
fn text_off_screen_is_clipped() {
    let (w, h) = (10, 6);
    let mut buffer = vec![1u32; w * h + 5];
    let mut expected = vec![1u32; w * h + 5];
    draw_text(&mut buffer, w, h, "WW", 4, 2, 1);
    expected_text(&mut expected[..w * h], w, h, "WW", 4, 2, 1);
    assert_eq!(buffer, expected);
    // the cells past the screen are never written
    assert!(buffer[w * h..].iter().all(|&p| p == 1));
}

#[test]
fn empty_text_and_zero_scale_draw_nothing() {
    let mut buffer = vec![3u32; 64];
    draw_text(&mut buffer, 8, 8, "", 0, 0, 1);
    draw_text(&mut buffer, 8, 8, "XYZ", 0, 0, 0);
    assert!(buffer.iter().all(|&p| p == 3));
}

#[test]
fn pause_message_matches_its_two_lines() {
    let (w, h) = (640, 480);
    let level = TileMap { map_width: 1, map_height: 1, wall_map: vec![1] };
    let engine = Engine::new(vec![level], w, h);
    let mut buffer = vec![0u32; w * h];
    engine.draw_pause_message(&mut buffer);
    let mut expected = vec![0u32; w * h];
    expected_text(&mut expected, w, h, "PAUSED", 224, 224, 4);
    expected_text(&mut expected, w, h, "PRESS Esc TO RESUME", 208, 264, 2);
    assert_eq!(buffer, expected);
    assert!(buffer.iter().filter(|&&p| p == TEXT_COLOR).count() > 100);
}

#[test]
fn darken_halves_each_channel() {
    assert_eq!(darken(0x00FF_8040), 0x007F_4020);
    assert_eq!(darken(0xFFFF_FFFF), 0x007F_7F7F);
    assert_eq!(darken(0x0001_0101), 0);
}

#[test]
fn spans_clamp_to_screen() {
    assert_eq!(clamp_span(100, 240, 480), (190, 290));
    assert_eq!(clamp_span(1000, 240, 480), (0, 479));
    assert_eq!(clamp_span(5, 240, 480), (238, 242));
    assert_eq!(clamp_span(-5, 240, 480), (242, 238));
    assert_eq!(clamp_span(0, -3, 10), (0, -3));
}

#[test]
fn wall_textures_fall_back_on_the_first() {
    assert_eq!(wall_texture_index(3, 10), 2);
    assert_eq!(wall_texture_index(1, 10), 0);
    assert_eq!(wall_texture_index(0, 10), 0);
    assert_eq!(wall_texture_index(20, 10), 0);
    assert_eq!(texture_or_first(4, 5), 4);
    assert_eq!(texture_or_first(5, 5), 0);
}

#[test]
fn texture_columns_flip() {
    assert_eq!(flip_tex_x(10, true), 53);
    assert_eq!(flip_tex_x(10, false), 10);
    assert_eq!(flip_tex_x(0, true), 63);
}

#[test]
fn sprite_texture_columns() {
    assert_eq!(sprite_tex_x(256, 128, 320), 0);
    assert_eq!(sprite_tex_x(320, 128, 320), 32);
    assert_eq!(sprite_tex_x(383, 128, 320), 63);
    assert_eq!(sprite_tex_x(500, 128, 320), 63);
    assert_eq!(sprite_tex_x(100, 128, 320), 0);
}

#[test]
fn sprite_texture_rows() {
    assert_eq!(sprite_tex_y(120, 480, 240), 0);
    assert_eq!(sprite_tex_y(240, 480, 240), 32);
    assert_eq!(sprite_tex_y(359, 480, 240), 63);
    assert_eq!(sprite_tex_y(0, 480, 240), 0);
    assert_eq!(sprite_tex_y(479, 480, 240), 63);
}

#[test]
fn black_pixels_are_transparent() {
    assert!(!is_opaque(0));
    assert!(!is_opaque(0xFF00_0000));
    assert!(is_opaque(0x0000_0001));
    assert!(is_opaque(0x00FF_0000));
}

#[test]
fn flat_wall_colors() {
    assert_eq!(flat_wall_color(1), 0x00FF_0000);
    assert_eq!(flat_wall_color(2), 0x0000_FF00);
    assert_eq!(flat_wall_color(3), 0x0000_00FF);
    assert_eq!(flat_wall_color(4), 0x00FF_FFFF);
    assert_eq!(flat_wall_color(5), 0x00FF_FF00);
    assert_eq!(flat_wall_color(0), 0x00FF_FF00);
    assert_eq!(darken(flat_wall_color(4)), 0x007F_7F7F);
}

#[test]
fn draw_glyph_draws_given_bitmap() {
    // a diagonal, bit 0 being the leftmost pixel
    let glyph: [u8; 8] = [1, 2, 4, 8, 16, 32, 64, 128];
    let (w, h) = (10, 10);
    let mut buffer = vec![0u32; w * h];
    draw_glyph(&mut buffer, w, h, &glyph, 1, 2, 1);
    for py in 0..h {
        for px in 0..w {
            let lit = py >= 2 && py < 10 && px == py - 1;
            assert_eq!(buffer[py * w + px] == TEXT_COLOR, lit, "pixel ({px}, {py})");
        }
    }
}

#[test]
fn draw_glyph_scales_blocks() {
    let glyph: [u8; 8] = [0b11, 0, 0, 0, 0, 0, 0, 0];
    let (w, h) = (8, 4);
    let mut buffer = vec![5u32; w * h];
    draw_glyph(&mut buffer, w, h, &glyph, 0, 0, 2);
    for py in 0..h {
        for px in 0..w {
            let lit = py < 2 && px < 4;
            assert_eq!(buffer[py * w + px], if lit { TEXT_COLOR } else { 5 });
        }
    }
}

#[test]
fn try_draw_text_draws_when_it_fits() {
    let (w, h) = (40, 10);
    let mut buffer = vec![0u32; w * h];
    let mut expected = vec![0u32; w * h];
    assert!(try_draw_text(&mut buffer, w, h, "ok", 1, 1, 1));
    draw_text(&mut expected, w, h, "ok", 1, 1, 1);
    assert_eq!(buffer, expected);
}

#[test]
fn try_draw_text_refuses_small_buffer() {
    let mut buffer = vec![9u32; 10];
    assert!(!try_draw_text(&mut buffer, 4, 4, "A", 0, 0, 1));
    assert!(buffer.iter().all(|&p| p == 9));
}

#[test]
fn try_draw_text_refuses_overflowing_pen() {
    let mut buffer = vec![9u32; 16];
    assert!(!try_draw_text(&mut buffer, 4, 4, "AB", usize::MAX - 10, 0, 1));
    assert!(!try_draw_text(&mut buffer, 4, 4, "A", 0, usize::MAX - 2, 1));
    assert!(buffer.iter().all(|&p| p == 9));
    // a blank glyph has no lit row, so only the pen has to fit
    assert!(try_draw_text(&mut buffer, 4, 4, " ", 0, usize::MAX, 1));
}

#[test]
fn sprites_are_ordered_far_to_near() {
    let sprites = vec![(0usize, 5i64), (1, 40), (2, -3), (3, 40), (4, 17)];
    let order = order_far_to_near(sprites.clone());
    assert_eq!(order.len(), sprites.len());
    let keys: Vec<i64> = order.iter().map(|s| s.1).collect();
    assert_eq!(keys, vec![40, 40, 17, 5, -3]);
    let mut indices: Vec<usize> = order.iter().map(|s| s.0).collect();
    assert_eq!(indices[2..], [4, 0, 2]);
    indices.sort();
    assert_eq!(indices, vec![0, 1, 2, 3, 4]);
}

#[test]
fn no_sprites_no_order() {
    assert!(order_far_to_near(Vec::new()).is_empty());
    assert_eq!(order_far_to_near(vec![(7, 1)]), vec![(7, 1)]);
}

#[test]
fn texel_index_wraps_coordinates() {
    assert_eq!(texel_index(0, 0), 0);
    assert_eq!(texel_index(5, 2), 2 * 64 + 5);
    assert_eq!(texel_index(63, 63), 4095);
    assert_eq!(texel_index(64, 0), 0);
    assert_eq!(texel_index(70, 130), 2 * 64 + 6);
    assert_eq!(texel_index(usize::MAX, usize::MAX), 4095);
}
