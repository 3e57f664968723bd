use image::imageops::FilterType;
use image::RgbaImage;
use vstd::prelude::*;

verus! {

/// Side length, in pixels, of every texture.
pub const TEX_SIZE: usize = 64;

/// Number of pixels in a texture.
pub const TEX_PIXELS: usize = 4096;

/// A pixel packed as `0x00RRGGBB`, the layout the frame buffer uses; alpha is dropped.
pub open spec fn rgb(r: u8, g: u8, b: u8) -> u32 {
    ((r as u32) << 16u32) | ((g as u32) << 8u32) | (b as u32)
}

/// The red, green and blue bytes of a packed pixel come back out of it unchanged,
/// and its top byte is clear.
pub proof fn lemma_rgb_channels(r: u8, g: u8, b: u8)
    ensures
        (rgb(r, g, b) >> 16u32) & 0xFFu32 == r as u32,
        (rgb(r, g, b) >> 8u32) & 0xFFu32 == g as u32,
        rgb(r, g, b) & 0xFFu32 == b as u32,
        rgb(r, g, b) >> 24u32 == 0,
{
    let (r32, g32, b32) = (r as u32, g as u32, b as u32);
    assert(((((r32 << 16u32) | (g32 << 8u32) | b32) >> 16u32) & 0xFFu32 == r32) && ((((r32 << 16u32)
        | (g32 << 8u32) | b32) >> 8u32) & 0xFFu32 == g32) && (((r32 << 16u32) | (g32 << 8u32) | b32)
        & 0xFFu32 == b32) && (((r32 << 16u32) | (g32 << 8u32) | b32) >> 24u32 == 0)) by (bit_vector)
        requires
            r32 < 256,
            g32 < 256,
            b32 < 256,
    ;
}

/// Packs a 64x64 RGBA image, given as its raw bytes (four per pixel, row by row), into
/// texture pixels: pixel `i` becomes `0x00RRGGBB` from bytes `4 * i` to `4 * i + 2`.
pub fn pack_rgba_texture(rgba: &[u8]) -> (texture: Vec<u32>)
    requires
        rgba@.len() == TEX_PIXELS * 4,
    ensures
        texture@.len() == TEX_PIXELS,
        forall|i: int|
            0 <= i < TEX_PIXELS ==> #[trigger] texture@[i] == rgb(
                rgba@[4 * i],
                rgba@[4 * i + 1],
                rgba@[4 * i + 2],
            ),
{
    let mut texture_buffer: Vec<u32> = Vec::with_capacity(TEX_PIXELS);
    for i in 0..TEX_PIXELS
        invariant
            rgba@.len() == TEX_PIXELS * 4,
            texture_buffer@.len() == i,
            forall|j: int|
                0 <= j < i ==> #[trigger] texture_buffer@[j] == rgb(
                    rgba@[4 * j],
                    rgba@[4 * j + 1],
                    rgba@[4 * j + 2],
                ),
    {
        let r: u32 = rgba[4 * i] as u32;
        let g: u32 = rgba[4 * i + 1] as u32;
        let b: u32 = rgba[4 * i + 2] as u32;
        let color: u32 = (r << 16) | (g << 8) | b;
        texture_buffer.push(color);
    }
    texture_buffer
}

/// The raw bytes of the 64x64 image that `image::imageops::resize` makes, with
/// `FilterType::Nearest`, of the RGBA image `width` pixels wide and `height` high whose
/// raw bytes (four per pixel, row by row) are `rgba`.
pub uninterp spec fn nearest_resized_rgba(width: u32, height: u32, rgba: Seq<u8>) -> Seq<u8>;

/// Builds an `image::RgbaImage` from the raw bytes (`ImageBuffer::from_raw`, which accepts
/// a buffer of `4 * width * height` bytes), resizes it to exactly 64x64 with
/// `image::imageops::resize` and `FilterType::Nearest`, and hands back the raw bytes of the
/// result (`into_raw`). The contract names those bytes and states their length, four for
/// each of the 4096 pixels of the new buffer; which source pixel each one is sampled from
/// is left to the name.
#[verifier::external_body]
fn resize_rgba_nearest(width: u32, height: u32, rgba: Vec<u8>) -> (bytes: Vec<u8>)
    requires
        rgba@.len() == width * height * 4,
    ensures
        bytes@ == nearest_resized_rgba(width, height, rgba@),
        bytes@.len() == TEX_PIXELS * 4,
{
    let source = RgbaImage::from_raw(width, height, rgba).expect("four bytes for each pixel");
    image::imageops::resize(&source, 64, 64, FilterType::Nearest).into_raw()
}

/// Turns a decoded RGBA image, `width` pixels wide and `height` high, given as its raw
/// bytes, into a 64x64 texture of `0x00RRGGBB` pixels, row by row: the image is resized to
/// 64x64 (nearest neighbour) and each pixel's alpha is dropped.
pub fn texture_from_rgba(width: u32, height: u32, rgba: Vec<u8>) -> (texture: Vec<u32>)
    requires
        rgba@.len() == width * height * 4,
    ensures
        texture@.len() == TEX_PIXELS,
        forall|i: int|
            0 <= i < TEX_PIXELS ==> #[trigger] texture@[i] == rgb(
                nearest_resized_rgba(width, height, rgba@)[4 * i],
                nearest_resized_rgba(width, height, rgba@)[4 * i + 1],
                nearest_resized_rgba(width, height, rgba@)[4 * i + 2],
            ),
{
    let bytes = resize_rgba_nearest(width, height, rgba);
    pack_rgba_texture(bytes.as_slice())
}

} // verus!
