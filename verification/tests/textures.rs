use image::{Rgba, RgbaImage};
use raycaster::utils::helpers::{pack_rgba_texture, texture_from_rgba, TEX_PIXELS};

fn texture_of(img: RgbaImage) -> Vec<u32> {
    let (width, height) = img.dimensions();
    texture_from_rgba(width, height, img.into_raw())
}

#[test]
fn packs_rgb_and_drops_alpha() {
    let mut bytes = vec![0u8; TEX_PIXELS * 4];
    bytes[0..4].copy_from_slice(&[0x12, 0x34, 0x56, 0x78]);
    bytes[4..8].copy_from_slice(&[0xFF, 0x00, 0x80, 0x00]);
    let last = (TEX_PIXELS - 1) * 4;
    bytes[last..last + 4].copy_from_slice(&[1, 2, 3, 4]);
    let texture = pack_rgba_texture(&bytes);
    assert_eq!(texture.len(), TEX_PIXELS);
    assert_eq!(texture[0], 0x0012_3456);
    assert_eq!(texture[1], 0x00FF_0080);
    assert_eq!(texture[2], 0);
    assert_eq!(texture[TEX_PIXELS - 1], 0x0001_0203);
}

#[test]
fn one_pixel_image_fills_the_texture() {
    let texture = texture_of(RgbaImage::from_pixel(1, 1, Rgba([200, 10, 30, 255])));
    assert_eq!(texture.len(), TEX_PIXELS);
    assert!(texture.iter().all(|&p| p == 0x00C8_0A1E));
}

#[test]
fn quadrants_keep_their_place() {
    let mut img = RgbaImage::new(2, 2);
    img.put_pixel(0, 0, Rgba([255, 0, 0, 255]));
    img.put_pixel(1, 0, Rgba([0, 255, 0, 255]));
    img.put_pixel(0, 1, Rgba([0, 0, 255, 255]));
    img.put_pixel(1, 1, Rgba([255, 255, 255, 0]));
    let texture = texture_of(img);
    assert_eq!(texture.len(), TEX_PIXELS);
    assert_eq!(texture[0], 0x00FF_0000);
    assert_eq!(texture[31], 0x00FF_0000);
    assert_eq!(texture[32], 0x0000_FF00);
    assert_eq!(texture[63], 0x0000_FF00);
    assert_eq!(texture[63 * 64], 0x0000_00FF);
    assert_eq!(texture[64 * 64 - 1], 0x00FF_FFFF);
}

#[test]
fn full_size_image_is_copied() {
    let img = RgbaImage::from_fn(64, 64, |x, y| Rgba([x as u8, y as u8, 7, 255]));
    let texture = texture_of(img);
    for y in 0..64u32 {
        for x in 0..64u32 {
            assert_eq!(texture[(y * 64 + x) as usize], (x << 16) | (y << 8) | 7);
        }
    }
}

#[test]
fn large_image_is_sampled_down() {
    let img = RgbaImage::from_fn(128, 128, |x, y| Rgba([(x / 2) as u8, (y / 2) as u8, 0, 255]));
    let texture = texture_of(img);
    assert_eq!(texture.len(), TEX_PIXELS);
    for y in 0..64u32 {
        for x in 0..64u32 {
            assert_eq!(texture[(y * 64 + x) as usize], (x << 16) | (y << 8));
        }
    }
}

#[test]
fn empty_image_gives_a_black_texture() {
    let texture = texture_from_rgba(0, 0, Vec::new());
    assert_eq!(texture.len(), TEX_PIXELS);
    assert!(texture.iter().all(|&p| p == 0));
}
