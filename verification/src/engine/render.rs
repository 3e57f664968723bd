use font8x8::UnicodeFonts;
use vstd::prelude::*;
use vstd::arithmetic::div_mod::{lemma_fundamental_div_mod, lemma_fundamental_div_mod_converse};
use super::Engine;
use crate::utils::helpers::TEX_SIZE;

verus! {

/// The color in which overlay text is drawn.
pub const TEXT_COLOR: u32 = 0x00FF_FFFF;

/// Whether buffer index `i` is a pixel of a `scr_w` by `scr_h` screen that lies in the rectangle
/// whose top-left corner is (`x`, `y`) and that spans `cols` columns and `rows` rows.
pub open spec fn in_rect(i: int, scr_w: int, scr_h: int, x: int, y: int, cols: int, rows: int) -> bool {
    &&& scr_w > 0
    &&& 0 <= i
    &&& i / scr_w < scr_h
    &&& x <= i % scr_w < x + cols
    &&& y <= i / scr_w < y + rows
}

/// Position in a row-major pixel buffer of the pixel at column `px`, row `py`, on a screen
/// `w` pixels wide.
pub open spec fn pixel_index(px: int, py: int, w: int) -> int {
    py * w + px
}

/// Index `py * w + px` of a pixel at column `px < w` splits back into that column and row.
pub proof fn lemma_pixel_index(px: int, py: int, w: int)
    requires
        0 <= px < w,
        0 <= py,
    ensures
        (py * w + px) % w == px,
        (py * w + px) / w == py,
{
    lemma_fundamental_div_mod_converse(py * w + px, w, py, px);
}

/// Paints white the pixels of the `scale` by `scale` block whose top-left corner is
/// (`block_x`, `block_y`) that fall on the screen; all other pixels are left as they were.
#[verifier::loop_isolation(false)]
fn fill_block(
    buffer: &mut [u32],
    scr_w: usize,
    scr_h: usize,
    block_x: usize,
    block_y: usize,
    scale: usize,
)
    requires
        block_x + scale <= usize::MAX + 1,
        block_y + scale <= usize::MAX + 1,
        old(buffer)@.len() <= usize::MAX,
        forall|px: int, py: int|
            0 <= px < scr_w && 0 <= py < scr_h && block_x <= px < block_x + scale && block_y <= py
                < block_y + scale ==> #[trigger] pixel_index(px, py, scr_w as int) < old(buffer)@.len(),
    ensures
        final(buffer)@.len() == old(buffer)@.len(),
        forall|i: int|
            0 <= i < old(buffer)@.len() ==> #[trigger] final(buffer)@[i] == if in_rect(
                i,
                scr_w as int,
                scr_h as int,
                block_x as int,
                block_y as int,
                scale as int,
                scale as int,
            ) {
                TEXT_COLOR
            } else {
                old(buffer)@[i]
            },
{
    let ghost w = scr_w as int;
    let ghost h = scr_h as int;
    let ghost bx = block_x as int;
    let ghost by = block_y as int;
    let ghost s = scale as int;
    for sy in 0..scale
        invariant
            buffer@.len() == old(buffer)@.len(),
            forall|i: int|
                0 <= i < old(buffer)@.len() ==> #[trigger] buffer@[i] == if in_rect(
                    i,
                    w,
                    h,
                    bx,
                    by,
                    s,
                    sy as int,
                ) {
                    TEXT_COLOR
                } else {
                    old(buffer)@[i]
                },
    {
        for sx in 0..scale
            invariant
                buffer@.len() == old(buffer)@.len(),
                0 <= sy < scale,
                forall|i: int|
                    0 <= i < old(buffer)@.len() ==> #[trigger] buffer@[i] == if in_rect(
                        i,
                        w,
                        h,
                        bx,
                        by,
                        s,
                        sy as int,
                    ) || in_rect(i, w, h, bx, by + sy, sx as int, 1) {
                        TEXT_COLOR
                    } else {
                        old(buffer)@[i]
                    },
        {
            let pixel_x = block_x + sx;
            let pixel_y = block_y + sy;
            if pixel_x < scr_w && pixel_y < scr_h {
                assert(pixel_index(pixel_x as int, pixel_y as int, scr_w as int) < old(buffer)@.len());
                let index = pixel_y * scr_w + pixel_x;
                let ghost before = buffer@;
                buffer[index] = TEXT_COLOR;
                proof {
                    lemma_pixel_index(pixel_x as int, pixel_y as int, w);
                    assert forall|i: int| 0 <= i < old(buffer)@.len() implies #[trigger] buffer@[i]
                        == if in_rect(i, w, h, bx, by, s, sy as int) || in_rect(
                        i,
                        w,
                        h,
                        bx,
                        by + sy,
                        sx + 1,
                        1,
                    ) {
                        TEXT_COLOR
                    } else {
                        old(buffer)@[i]
                    } by {
                        lemma_fundamental_div_mod(i, w);
                        if i != index {
                            assert(before[i] == buffer@[i]);
                            if i % w == pixel_x && i / w == pixel_y {
                                vstd::arithmetic::mul::lemma_mul_is_commutative(w, i / w);
                                assert(i == (i / w) * w + i % w);
                                assert(false);
                            }
                        }
                    }
                }
            } else {
                proof {
                    assert forall|i: int| 0 <= i < old(buffer)@.len() implies #[trigger] buffer@[i]
                        == if in_rect(i, w, h, bx, by, s, sy as int) || in_rect(
                        i,
                        w,
                        h,
                        bx,
                        by + sy,
                        sx + 1,
                        1,
                    ) {
                        TEXT_COLOR
                    } else {
                        old(buffer)@[i]
                    } by {
                        if w > 0 && i >= 0 {
                            lemma_fundamental_div_mod(i, w);
                            vstd::arithmetic::div_mod::lemma_mod_bound(i, w);
                        }
                    }
                }
            }
        }
        proof {
            assert forall|i: int| 0 <= i < old(buffer)@.len() implies #[trigger] buffer@[i]
                == if in_rect(i, w, h, bx, by, s, sy + 1) {
                TEXT_COLOR
            } else {
                old(buffer)@[i]
            } by {
                assert(in_rect(i, w, h, bx, by, s, sy + 1) == (in_rect(i, w, h, bx, by, s, sy as int)
                    || in_rect(i, w, h, bx, by + sy, s, 1)));
            }
        }
    }
}

/// Whether bit `bit` (bit 0 is the leftmost pixel) of a glyph row is set.
pub open spec fn glyph_bit(row: u8, bit: usize) -> bool {
    (row >> bit) & 1u8 == 1u8
}

/// Whether the pixel at column `px`, row `py` is lit when glyph `glyph` is drawn with its
/// top-left corner at (`x0`, `y0`), each font pixel blown up to a `scale` by `scale` block.
pub open spec fn glyph_lit(glyph: [u8; 8], x0: int, y0: int, scale: int, px: int, py: int) -> bool {
    &&& scale > 0
    &&& x0 <= px < x0 + 8 * scale
    &&& y0 <= py < y0 + 8 * scale
    &&& glyph_bit(glyph@[(py - y0) / scale], ((px - x0) / scale) as usize)
}

/// Whether every row of `glyph` that has a pixel set ends, at scale `scale` below row `y0`,
/// within the range of `usize`.
pub open spec fn glyph_rows_fit(glyph: [u8; 8], y0: int, scale: int) -> bool {
    forall|r: int| 0 <= r < 8 && #[trigger] glyph@[r] != 0 ==> y0 + r * scale + scale <= usize::MAX + 1
}

/// Whether buffer index `i` is an on-screen pixel that glyph `glyph` lights.
pub open spec fn glyph_pixel(
    i: int,
    scr_w: int,
    scr_h: int,
    glyph: [u8; 8],
    x0: int,
    y0: int,
    scale: int,
) -> bool {
    &&& scr_w > 0
    &&& 0 <= i
    &&& i / scr_w < scr_h
    &&& glyph_lit(glyph, x0, y0, scale, i % scr_w, i / scr_w)
}

/// The glyph rows drawn so far: those above `row`, and the first `bit` bits of row `row`.
spec fn glyph_drawn_upto(i: int, scr_w: int, scr_h: int, glyph: [u8; 8], x0: int, y0: int, scale: int, row: int, bit: int) -> bool {
    &&& glyph_pixel(i, scr_w, scr_h, glyph, x0, y0, scale)
    &&& ((i / scr_w - y0) / scale < row || ((i / scr_w - y0) / scale == row && (i % scr_w - x0) / scale < bit))
}

/// An offset `d` falls in the `b`-th block of width `s` exactly when `d / s == b`.
proof fn lemma_block_cell(d: int, s: int, b: int)
    requires
        s > 0,
        0 <= b,
    ensures
        (b * s <= d < b * s + s) <==> (d >= 0 && d / s == b),
{
    if b * s <= d < b * s + s {
        lemma_fundamental_div_mod_converse(d, s, b, d - b * s);
        assert(d >= 0) by (nonlinear_arith)
            requires b * s <= d, b >= 0, s > 0;
    }
    if d >= 0 && d / s == b {
        lemma_fundamental_div_mod(d, s);
        vstd::arithmetic::div_mod::lemma_mod_bound(d, s);
        vstd::arithmetic::mul::lemma_mul_is_commutative(s, b);
    }
}

/// An offset below `n` blocks of width `s` lies in one of the first `n` blocks.
proof fn lemma_block_below(d: int, s: int, n: int)
    requires
        s > 0,
        0 <= d < n * s,
    ensures
        0 <= d / s < n,
{
    lemma_fundamental_div_mod(d, s);
    vstd::arithmetic::div_mod::lemma_mod_bound(d, s);
    let q = d / s;
    assert(0 <= q < n) by (nonlinear_arith)
        requires d == s * q + d % s, 0 <= d % s < s, 0 <= d < n * s, s > 0;
}

/// A set bit makes its row nonzero.
proof fn lemma_bit_row_nonzero(row: u8, bit: usize)
    requires
        bit < 8,
        glyph_bit(row, bit),
    ensures
        row != 0,
{
    assert((row >> bit) & 1u8 == 1u8 ==> row != 0) by (bit_vector)
        requires bit < 8;
}

/// Draws one glyph with its top-left corner at (`x0`, `y0`), each font pixel (bit `b` of row
/// `r`, bit 0 leftmost) as a `scale` by `scale` white block; lit pixels off the screen are
/// skipped and no other pixel changes.
#[verifier::loop_isolation(false)]
pub fn draw_glyph(
    buffer: &mut [u32],
    scr_w: usize,
    scr_h: usize,
    glyph: &[u8; 8],
    x0: usize,
    y0: usize,
    scale: usize,
)
    requires
        x0 + 8 * scale <= usize::MAX + 1,
        glyph_rows_fit(*glyph, y0 as int, scale as int),
        old(buffer)@.len() <= usize::MAX,
        forall|px: int, py: int|
            0 <= px < scr_w && 0 <= py < scr_h && glyph_lit(*glyph, x0 as int, y0 as int, scale as int, px, py)
                ==> #[trigger] pixel_index(px, py, scr_w as int) < old(buffer)@.len(),
    ensures
        final(buffer)@.len() == old(buffer)@.len(),
        forall|i: int|
            0 <= i < old(buffer)@.len() ==> #[trigger] final(buffer)@[i] == if glyph_pixel(
                i,
                scr_w as int,
                scr_h as int,
                *glyph,
                x0 as int,
                y0 as int,
                scale as int,
            ) {
                TEXT_COLOR
            } else {
                old(buffer)@[i]
            },
{
    let ghost w = scr_w as int;
    let ghost h = scr_h as int;
    let ghost s = scale as int;
    let ghost g = *glyph;
    if scale == 0 {
        return;
    }
    for row_idx in 0..8usize
        invariant
            buffer@.len() == old(buffer)@.len(),
            forall|i: int|
                0 <= i < old(buffer)@.len() ==> #[trigger] buffer@[i] == if glyph_drawn_upto(
                    i, w, h, g, x0 as int, y0 as int, s, row_idx as int, 0,
                ) {
                    TEXT_COLOR
                } else {
                    old(buffer)@[i]
                },
    {
        let row_byte = glyph[row_idx];
        for bit_idx in 0..8usize
            invariant
                buffer@.len() == old(buffer)@.len(),
                row_idx < 8,
                row_byte == glyph@[row_idx as int],
                forall|i: int|
                    0 <= i < old(buffer)@.len() ==> #[trigger] buffer@[i] == if glyph_drawn_upto(
                        i, w, h, g, x0 as int, y0 as int, s, row_idx as int, bit_idx as int,
                    ) {
                        TEXT_COLOR
                    } else {
                        old(buffer)@[i]
                    },
        {
            let ghost before = buffer@;
            if (row_byte >> bit_idx) & 1 == 1 {
                proof {
                    lemma_bit_row_nonzero(row_byte, bit_idx);
                    assert(x0 + bit_idx * scale + scale <= x0 + 8 * scale) by (nonlinear_arith)
                        requires bit_idx < 8;
                    assert(row_idx * scale + scale <= 8 * scale) by (nonlinear_arith)
                        requires row_idx < 8;
                    assert(bit_idx * scale + scale <= 8 * scale) by (nonlinear_arith)
                        requires bit_idx < 8;
                    assert(glyph_bit(g@[row_idx as int], bit_idx));
                    assert forall|px: int, py: int|
                        0 <= px < scr_w && 0 <= py < scr_h && x0 + bit_idx * scale <= px < x0 + bit_idx * scale + scale
                            && y0 + row_idx * scale <= py < y0 + row_idx * scale + scale
                        implies #[trigger] pixel_index(px, py, scr_w as int) < old(buffer)@.len() by {
                        lemma_block_cell(px - x0, s, bit_idx as int);
                        lemma_block_cell(py - y0, s, row_idx as int);
                        assert(glyph_lit(g, x0 as int, y0 as int, s, px, py));
                    }
                }
                let block_x = x0 + bit_idx * scale;
                let block_y = y0 + row_idx * scale;
                fill_block(buffer, scr_w, scr_h, block_x, block_y, scale);
                proof {
                    assert forall|i: int| 0 <= i < old(buffer)@.len() implies #[trigger] buffer@[i]
                        == if glyph_drawn_upto(i, w, h, g, x0 as int, y0 as int, s, row_idx as int, bit_idx + 1) {
                        TEXT_COLOR
                    } else {
                        old(buffer)@[i]
                    } by {
                        assert(before[i] == if glyph_drawn_upto(i, w, h, g, x0 as int, y0 as int, s, row_idx as int, bit_idx as int) {
                            TEXT_COLOR } else { old(buffer)@[i] });
                        if w > 0 && i >= 0 {
                            lemma_block_cell(i % w - x0, s, bit_idx as int);
                            lemma_block_cell(i / w - y0, s, row_idx as int);
                        }
                    }
                }
            } else {
                proof {
                    assert forall|i: int| 0 <= i < old(buffer)@.len() implies #[trigger] buffer@[i]
                        == if glyph_drawn_upto(i, w, h, g, x0 as int, y0 as int, s, row_idx as int, bit_idx + 1) {
                        TEXT_COLOR
                    } else {
                        old(buffer)@[i]
                    } by {
                        assert(before[i] == buffer@[i]);
                        if glyph_drawn_upto(i, w, h, g, x0 as int, y0 as int, s, row_idx as int, bit_idx + 1)
                            && !glyph_drawn_upto(i, w, h, g, x0 as int, y0 as int, s, row_idx as int, bit_idx as int) {
                            assert((i / w - y0) / s == row_idx);
                            assert((i % w - x0) / s == bit_idx);
                            assert(false);
                        }
                    }
                }
            }
        }
        proof {
            assert forall|i: int| 0 <= i < old(buffer)@.len() implies #[trigger] buffer@[i]
                == if glyph_drawn_upto(i, w, h, g, x0 as int, y0 as int, s, row_idx + 1, 0) {
                TEXT_COLOR
            } else {
                old(buffer)@[i]
            } by {
                if glyph_pixel(i, w, h, g, x0 as int, y0 as int, s) {
                    lemma_block_below(i % w - x0, s, 8);
                    lemma_block_below(i / w - y0, s, 8);
                }
            }
        }
    }
    proof {
        assert forall|i: int| 0 <= i < old(buffer)@.len() implies #[trigger] buffer@[i]
            == if glyph_pixel(i, w, h, g, x0 as int, y0 as int, s) {
            TEXT_COLOR
        } else {
            old(buffer)@[i]
        } by {
            if glyph_pixel(i, w, h, g, x0 as int, y0 as int, s) {
                lemma_block_below(i / w - y0, s, 8);
            }
        }
    }
}

/// The 8x8 bitmap that `font8x8::BASIC_FONTS` holds for a character, if any.
pub uninterp spec fn basic_font_glyph(ch: char) -> Option<[u8; 8]>;

/// Looks a character up in `font8x8::BASIC_FONTS` (`UnicodeFonts::get`). The table holds one
/// bitmap for each code point from U+0000 to U+007F, so a bitmap comes back exactly for those;
/// which bitmap is left to the name `basic_font_glyph`.
#[verifier::external_body]
fn basic_glyph(ch: char) -> (glyph: Option<[u8; 8]>)
    ensures
        glyph == basic_font_glyph(ch),
        glyph is Some <==> (ch as u32) < 128,
{
    font8x8::BASIC_FONTS.get(ch)
}

/// How many characters of `chars` the basic font has a bitmap for.
pub open spec fn glyph_count(chars: Seq<char>) -> nat
    decreases chars.len(),
{
    if chars.len() == 0 {
        0
    } else {
        glyph_count(chars.drop_last()) + if basic_font_glyph(chars.last()) is Some {
            1nat
        } else {
            0nat
        }
    }
}

/// Whether the pixel at column `px`, row `py` is lit when `chars` is written from
/// (`x0`, `y0`) at scale `scale`: every character with a bitmap is drawn one after the other,
/// each taking `9 * scale` columns (8 for the bitmap and one of spacing); characters without a
/// bitmap are skipped and take no room.
pub open spec fn text_lit(chars: Seq<char>, x0: int, y0: int, scale: int, px: int, py: int) -> bool
    decreases chars.len(),
{
    if chars.len() == 0 {
        false
    } else {
        text_lit(chars.drop_last(), x0, y0, scale, px, py) || match basic_font_glyph(chars.last()) {
            Some(glyph) => glyph_lit(
                glyph,
                x0 + 9 * scale * glyph_count(chars.drop_last()),
                y0,
                scale,
                px,
                py,
            ),
            None => false,
        }
    }
}

/// Whether buffer index `i` is an on-screen pixel that the text lights.
pub open spec fn text_pixel(
    i: int,
    scr_w: int,
    scr_h: int,
    chars: Seq<char>,
    x0: int,
    y0: int,
    scale: int,
) -> bool {
    &&& scr_w > 0
    &&& 0 <= i
    &&& i / scr_w < scr_h
    &&& text_lit(chars, x0, y0, scale, i % scr_w, i / scr_w)
}

/// `glyph_count` counts exactly the characters that the basic font has a bitmap for.
pub proof fn lemma_glyph_count_counts_bitmaps(chars: Seq<char>)
    ensures
        glyph_count(chars) == chars.filter(|c: char| basic_font_glyph(c) is Some).len(),
    decreases chars.len(),
{
    reveal(Seq::filter);
    if chars.len() > 0 {
        lemma_glyph_count_counts_bitmaps(chars.drop_last());
    }
}

/// A text has no more glyphs than characters.
pub proof fn lemma_glyph_count_bound(chars: Seq<char>)
    ensures
        glyph_count(chars) <= chars.len(),
    decreases chars.len(),
{
    if chars.len() > 0 {
        lemma_glyph_count_bound(chars.drop_last());
    }
}

/// Every set bit of a glyph lights its whole block: bit `b` of row `r` (for each of the 8
/// rows and 8 bits) lights every pixel of the `s` by `s` block whose top-left corner is
/// (`x0 + b * s`, `y0 + r * s`).
pub proof fn lemma_glyph_lights_set_bits(glyph: [u8; 8], x0: int, y0: int, s: int, r: int, b: int, dx: int, dy: int)
    requires
        s > 0,
        0 <= r < 8,
        0 <= b < 8,
        (glyph@[r] >> (b as usize)) & 1u8 == 1u8,
        0 <= dx < s,
        0 <= dy < s,
    ensures
        glyph_lit(glyph, x0, y0, s, x0 + b * s + dx, y0 + r * s + dy),
{
    lemma_block_cell(b * s + dx, s, b);
    lemma_block_cell(r * s + dy, s, r);
    assert(b * s + dx < 8 * s && r * s + dy < 8 * s && b * s >= 0 && r * s >= 0) by (nonlinear_arith)
        requires 0 <= b < 8, 0 <= r < 8, 0 <= dx < s, 0 <= dy < s, s > 0;
    assert((x0 + b * s + dx - x0) == b * s + dx);
    assert((y0 + r * s + dy - y0) == r * s + dy);
}

/// A glyph lights nothing but the blocks of its set bits: a lit pixel lies in the `s` by `s`
/// block at (`x0 + b * s`, `y0 + r * s`) of some set bit `b` of some row `r`.
pub proof fn lemma_glyph_lit_in_set_block(glyph: [u8; 8], x0: int, y0: int, s: int, px: int, py: int)
    requires
        glyph_lit(glyph, x0, y0, s, px, py),
    ensures
        exists|r: int, b: int|
            0 <= r < 8 && 0 <= b < 8 && (#[trigger] (glyph@[r] >> (b as usize))) & 1u8 == 1u8
                && x0 + b * s <= px < x0 + b * s + s && y0 + r * s <= py < y0 + r * s + s,
{
    lemma_block_below(px - x0, s, 8);
    lemma_block_below(py - y0, s, 8);
    let r = (py - y0) / s;
    let b = (px - x0) / s;
    lemma_block_cell(px - x0, s, b);
    lemma_block_cell(py - y0, s, r);
    assert(glyph_bit(glyph@[r], b as usize));
}

/// Writing a text lights every set bit of every character that has a bitmap: bit `b` of row
/// `r` of the bitmap of character `k` (for all 8 rows) lights the whole `s` by `s` block at
/// (`pen + b * s`, `y0 + r * s`), where the pen `pen` is `x0` moved `9 * s` columns right
/// for each earlier character with a bitmap. On screen, that pixel is one the text paints.
pub proof fn lemma_text_lights_set_bits(
    chars: Seq<char>,
    x0: int,
    y0: int,
    s: int,
    k: int,
    r: int,
    b: int,
    dx: int,
    dy: int,
)
    requires
        0 <= k < chars.len(),
        basic_font_glyph(chars[k]) is Some,
        s > 0,
        0 <= r < 8,
        0 <= b < 8,
        (basic_font_glyph(chars[k])->0@[r] >> (b as usize)) & 1u8 == 1u8,
        0 <= dx < s,
        0 <= dy < s,
    ensures
        text_lit(chars, x0, y0, s, x0 + 9 * s * glyph_count(chars.take(k)) + b * s + dx, y0 + r * s + dy),
    decreases chars.len(),
{
    let pen = x0 + 9 * s * glyph_count(chars.take(k));
    if k == chars.len() - 1 {
        assert(chars.take(k) =~= chars.drop_last());
        lemma_glyph_lights_set_bits(basic_font_glyph(chars[k])->0, pen, y0, s, r, b, dx, dy);
    } else {
        assert(chars.drop_last().take(k) =~= chars.take(k));
        assert(chars.drop_last()[k] == chars[k]);
        lemma_text_lights_set_bits(chars.drop_last(), x0, y0, s, k, r, b, dx, dy);
    }
}

/// A text lights nothing but its glyphs: a lit pixel is lit by the bitmap of some character
/// `k`, drawn at the pen position of that character.
pub proof fn lemma_text_lit_by_some_glyph(chars: Seq<char>, x0: int, y0: int, s: int, px: int, py: int)
    requires
        text_lit(chars, x0, y0, s, px, py),
    ensures
        exists|k: int|
            0 <= k < chars.len() && (#[trigger] basic_font_glyph(chars[k])) is Some && glyph_lit(
                basic_font_glyph(chars[k])->0,
                x0 + 9 * s * glyph_count(chars.take(k)),
                y0,
                s,
                px,
                py,
            ),
    decreases chars.len(),
{
    let k = chars.len() - 1;
    if text_lit(chars.drop_last(), x0, y0, s, px, py) {
        lemma_text_lit_by_some_glyph(chars.drop_last(), x0, y0, s, px, py);
        let j = choose|j: int|
            0 <= j < chars.drop_last().len() && (#[trigger] basic_font_glyph(chars.drop_last()[j])) is Some
                && glyph_lit(
                basic_font_glyph(chars.drop_last()[j])->0,
                x0 + 9 * s * glyph_count(chars.drop_last().take(j)),
                y0,
                s,
                px,
                py,
            );
        assert(chars.drop_last().take(j) =~= chars.take(j));
        assert(chars.drop_last()[j] == chars[j]);
    } else {
        assert(chars.take(k) =~= chars.drop_last());
        assert(basic_font_glyph(chars[k]) is Some);
    }
}

/// On screen, every set bit of every drawn character is painted: the pixel at column
/// `pen + b * s + dx`, row `y0 + r * s + dy` (see `lemma_text_lights_set_bits`) is a
/// text pixel of the buffer whenever it lies on the `w` by `h` screen.
pub proof fn lemma_text_paints_set_bits(
    w: int,
    h: int,
    chars: Seq<char>,
    x0: int,
    y0: int,
    s: int,
    k: int,
    r: int,
    b: int,
    dx: int,
    dy: int,
)
    requires
        0 <= k < chars.len(),
        basic_font_glyph(chars[k]) is Some,
        s > 0,
        0 <= r < 8,
        0 <= b < 8,
        (basic_font_glyph(chars[k])->0@[r] >> (b as usize)) & 1u8 == 1u8,
        0 <= dx < s,
        0 <= dy < s,
        0 <= x0 + 9 * s * glyph_count(chars.take(k)) + b * s + dx < w,
        0 <= y0 + r * s + dy < h,
    ensures
        text_pixel(
            pixel_index(x0 + 9 * s * glyph_count(chars.take(k)) + b * s + dx, y0 + r * s + dy, w),
            w,
            h,
            chars,
            x0,
            y0,
            s,
        ),
{
    let px = x0 + 9 * s * glyph_count(chars.take(k)) + b * s + dx;
    let py = y0 + r * s + dy;
    lemma_text_lights_set_bits(chars, x0, y0, s, k, r, b, dx, dy);
    lemma_pixel_index(px, py, w);
    assert(py * w + px >= 0) by (nonlinear_arith)
        requires py >= 0, w > 0, px >= 0;
}

/// A pixel on a `w` by `h` screen has an index below `w * h`.
pub proof fn lemma_on_screen_index(px: int, py: int, w: int, h: int)
    requires
        0 <= px < w,
        0 <= py < h,
    ensures
        pixel_index(px, py, w) < w * h,
{
    assert(py * w + px < w * h) by (nonlinear_arith)
        requires 0 <= px < w, 0 <= py < h;
}

/// Drawing a prefix of a text lights a subset of the pixels, and counts no more glyphs.
proof fn lemma_text_prefix(chars: Seq<char>, k: int, x0: int, y0: int, scale: int, px: int, py: int)
    requires
        0 <= k <= chars.len(),
    ensures
        glyph_count(chars.take(k)) <= glyph_count(chars),
        text_lit(chars.take(k), x0, y0, scale, px, py) ==> text_lit(chars, x0, y0, scale, px, py),
    decreases chars.len(),
{
    if k == chars.len() {
        assert(chars.take(k) =~= chars);
    } else {
        assert(chars.take(k) =~= chars.drop_last().take(k));
        lemma_text_prefix(chars.drop_last(), k, x0, y0, scale, px, py);
    }
}

/// Writes `text` into `buffer`, a `scr_w` by `scr_h` screen stored row by row, as an overlay:
/// each character that the basic font has a bitmap for is drawn in white from (`start_x`,
/// `start_y`) onwards, every font pixel as a `scale` by `scale` block, and advances the pen
/// by `9 * scale` columns; pixels off the screen are skipped and no other pixel changes.
#[verifier::loop_isolation(false)]
pub fn draw_text(
    buffer: &mut [u32],
    scr_w: usize,
    scr_h: usize,
    text: &str,
    start_x: usize,
    start_y: usize,
    scale: usize,
)
    requires
        start_x + 9 * scale * glyph_count(text@) <= usize::MAX,
        forall|k: int|
            0 <= k < text@.len() && (#[trigger] basic_font_glyph(text@[k])) is Some ==> glyph_rows_fit(
                basic_font_glyph(text@[k])->0,
                start_y as int,
                scale as int,
            ),
        forall|px: int, py: int|
            0 <= px < scr_w && 0 <= py < scr_h && text_lit(text@, start_x as int, start_y as int, scale as int, px, py)
                ==> #[trigger] pixel_index(px, py, scr_w as int) < old(buffer)@.len(),
    ensures
        final(buffer)@.len() == old(buffer)@.len(),
        forall|i: int|
            0 <= i < old(buffer)@.len() ==> #[trigger] final(buffer)@[i] == if text_pixel(
                i,
                scr_w as int,
                scr_h as int,
                text@,
                start_x as int,
                start_y as int,
                scale as int,
            ) {
                TEXT_COLOR
            } else {
                old(buffer)@[i]
            },
{
    let ghost w = scr_w as int;
    let ghost h = scr_h as int;
    let ghost s = scale as int;
    let ghost x0 = start_x as int;
    let ghost y0 = start_y as int;
    // the buffer's length is a `usize`, which bounds every pixel index below it
    let _buffer_len = buffer.len();
    let mut current_x = start_x;
    assert(text@.take(0) =~= Seq::<char>::empty());

    // iterates over every single char in the text input
    for ch in it: text.chars()
        invariant
            buffer@.len() == old(buffer)@.len(),
            it.seq() == text@,
            current_x == x0 + 9 * s * glyph_count(text@.take(it.index() as int)),
            forall|i: int|
                0 <= i < old(buffer)@.len() ==> #[trigger] buffer@[i] == if text_pixel(
                    i, w, h, text@.take(it.index() as int), x0, y0, s,
                ) {
                    TEXT_COLOR
                } else {
                    old(buffer)@[i]
                },
    {
        let ghost k = it.index() as int;
        let ghost done = text@.take(k);
        let ghost next = text@.take(k + 1);
        proof {
            assert(next.drop_last() =~= done);
            assert(next.last() == ch);
            lemma_text_prefix(text@, k + 1, x0, y0, s, 0, 0);
        }
        let ghost before = buffer@;
        if let Some(bitmap) = basic_glyph(ch) {
            proof {
                assert(9 * s * glyph_count(next) <= 9 * s * glyph_count(text@)) by (nonlinear_arith)
                    requires glyph_count(next) <= glyph_count(text@), s >= 0;
                assert(9 * s * glyph_count(next) == 9 * s * glyph_count(done) + 9 * s) by (nonlinear_arith)
                    requires glyph_count(next) == glyph_count(done) + 1;
                assert(basic_font_glyph(text@[k]) is Some);
                assert forall|px: int, py: int|
                    0 <= px < scr_w && 0 <= py < scr_h && glyph_lit(bitmap, current_x as int, y0, s, px, py)
                    implies #[trigger] pixel_index(px, py, w) < old(buffer)@.len() by {
                    lemma_text_prefix(text@, k + 1, x0, y0, s, px, py);
                    assert(text_lit(next, x0, y0, s, px, py));
                }
            }
            draw_glyph(buffer, scr_w, scr_h, &bitmap, current_x, start_y, scale);
            current_x += 8 * scale + scale;
        }
        proof {
            assert forall|i: int| 0 <= i < old(buffer)@.len() implies #[trigger] buffer@[i]
                == if text_pixel(i, w, h, next, x0, y0, s) {
                TEXT_COLOR
            } else {
                old(buffer)@[i]
            } by {
                assert(before[i] == if text_pixel(i, w, h, done, x0, y0, s) { TEXT_COLOR } else { old(buffer)@[i] });
            }
        }
    }
    proof {
        assert(text@.take(text@.len() as int) =~= text@);
    }
}

/// Whether `draw_text` can draw `chars` from (`start_x`, `start_y`) at `scale` into a buffer of
/// `buffer_len` pixels for a `scr_w` by `scr_h` screen: the pen and every lit row stay within
/// `usize`, and the buffer holds the whole screen.
pub open spec fn text_fits(
    chars: Seq<char>,
    buffer_len: int,
    scr_w: int,
    scr_h: int,
    start_x: int,
    start_y: int,
    scale: int,
) -> bool {
    &&& start_x + 9 * scale * glyph_count(chars) <= usize::MAX
    &&& forall|k: int|
        0 <= k < chars.len() && (#[trigger] basic_font_glyph(chars[k])) is Some ==> glyph_rows_fit(
            basic_font_glyph(chars[k])->0,
            start_y,
            scale,
        )
    &&& scr_w * scr_h <= buffer_len
}

/// Draws `text` like `draw_text` when it fits (see `text_fits`) and tells whether it did;
/// when it does not fit, the buffer is left as it was.
///
/// The buffer check is stricter than what `draw_text` needs: this asks the buffer to hold the
/// whole `scr_w` by `scr_h` screen, while `draw_text` only needs every lit on-screen pixel to
/// fall inside it. A frame buffer of the screen's size always passes.
#[verifier::loop_isolation(false)]
pub fn try_draw_text(
    buffer: &mut [u32],
    scr_w: usize,
    scr_h: usize,
    text: &str,
    start_x: usize,
    start_y: usize,
    scale: usize,
) -> (drawn: bool)
    ensures
        drawn == text_fits(
            text@,
            old(buffer)@.len() as int,
            scr_w as int,
            scr_h as int,
            start_x as int,
            start_y as int,
            scale as int,
        ),
        final(buffer)@.len() == old(buffer)@.len(),
        forall|i: int|
            0 <= i < old(buffer)@.len() ==> #[trigger] final(buffer)@[i] == if drawn && text_pixel(
                i,
                scr_w as int,
                scr_h as int,
                text@,
                start_x as int,
                start_y as int,
                scale as int,
            ) {
                TEXT_COLOR
            } else {
                old(buffer)@[i]
            },
{
    let ghost chars = text@;
    let ghost y0 = start_y as int;
    let ghost s = scale as int;
    let buffer_len = buffer.len();
    // the screen must fit in the buffer
    let cells = scr_w.checked_mul(scr_h);
    let screen_fits = match cells {
        Some(n) => n <= buffer_len,
        None => false,
    };
    if !screen_fits {
        proof {
            if scr_w * scr_h <= buffer_len {
                assert(scr_w * scr_h <= usize::MAX);
            }
        }
        return false;
    }
    // the pen advances by 9 * scale for every character with a bitmap
    let advance = scale.checked_mul(9);
    let mut pen: Option<usize> = Some(start_x);
    // every lit row of every bitmap ends within usize
    let mut rows_fit = true;
    assert(chars.take(0) =~= Seq::<char>::empty());
    assert(glyph_count(chars.take(0)) == 0);
    assert(9 * s * 0 == 0);
    for ch in it: text.chars()
        invariant
            it.seq() == chars,
            advance == (if 9 * scale <= usize::MAX { Some((9 * scale) as usize) } else { None::<usize> }),
            match pen {
                Some(x) => x == start_x + 9 * s * glyph_count(chars.take(it.index() as int)),
                None => start_x + 9 * s * glyph_count(chars.take(it.index() as int)) > usize::MAX,
            },
            rows_fit == forall|k: int|
                0 <= k < it.index() && (#[trigger] basic_font_glyph(chars[k])) is Some
                    ==> glyph_rows_fit(basic_font_glyph(chars[k])->0, y0, s),
    {
        let ghost k = it.index() as int;
        let ghost next = chars.take(k + 1);
        proof {
            assert(next.drop_last() =~= chars.take(k));
            assert(next.last() == ch);
        }
        if let Some(glyph) = basic_glyph(ch) {
            proof {
                assert(9 * s * glyph_count(next) == 9 * s * glyph_count(chars.take(k)) + 9 * s)
                    by (nonlinear_arith)
                    requires glyph_count(next) == glyph_count(chars.take(k)) + 1;
                assert(9 * s * glyph_count(chars.take(k)) >= 0) by (nonlinear_arith)
                    requires s >= 0;
            }
            pen = match (pen, advance) {
                (Some(x), Some(a)) => x.checked_add(a),
                _ => None,
            };
            let mut this_fits = true;
            for r in 0..8usize
                invariant
                    this_fits == forall|q: int|
                        0 <= q < r && #[trigger] glyph@[q] != 0 ==> y0 + q * s + s <= usize::MAX + 1,
            {
                if glyph[r] != 0 {
                    let end = match r.checked_mul(scale) {
                        Some(v) => v.checked_add(start_y),
                        None => None,
                    };
                    let ok = match end {
                        Some(e) => scale == 0 || e <= usize::MAX - (scale - 1),
                        None => false,
                    };
                    assert(ok == (y0 + r * s + s <= usize::MAX + 1)) by (nonlinear_arith)
                        requires
                            ok == (end is Some && (s == 0 || end->0 <= usize::MAX - (s - 1))),
                            end is None ==> (r * s > usize::MAX || r * s + y0 > usize::MAX),
                            end is Some ==> end->0 == r * s + y0,
                            r >= 0,
                            0 <= s <= usize::MAX,
                            0 <= y0 <= usize::MAX,
                    ;
                    this_fits = this_fits && ok;
                }
                proof {
                    let before = forall|q: int|
                        0 <= q < r && #[trigger] glyph@[q] != 0 ==> y0 + q * s + s <= usize::MAX + 1;
                    assert((forall|q: int|
                        0 <= q < r + 1 && #[trigger] glyph@[q] != 0 ==> y0 + q * s + s <= usize::MAX + 1)
                        == (before && (glyph@[r as int] != 0 ==> y0 + r * s + s <= usize::MAX + 1)));
                }
            }
            proof {
                assert(basic_font_glyph(chars[k]) == Some(glyph));
            }
            rows_fit = rows_fit && this_fits;
        }
    }
    proof {
        assert(chars.take(chars.len() as int) =~= chars);
    }
    if pen.is_none() || !rows_fit {
        return false;
    }
    proof {
        assert forall|px: int, py: int|
            0 <= px < scr_w && 0 <= py < scr_h && text_lit(chars, start_x as int, y0, s, px, py)
            implies #[trigger] pixel_index(px, py, scr_w as int) < old(buffer)@.len() by {
            lemma_on_screen_index(px, py, scr_w as int, scr_h as int);
        }
    }
    draw_text(buffer, scr_w, scr_h, text, start_x, start_y, scale);
    true
}

/// Rust's integer division, which rounds towards zero.
pub open spec fn div_trunc(a: int, b: int) -> int {
    let q = (if a >= 0 { a } else { -a }) / (if b >= 0 { b } else { -b });
    if (a >= 0) == (b >= 0) { q } else { -q }
}

/// Whether a value fits in an `isize`.
pub open spec fn in_isize(v: int) -> bool {
    isize::MIN <= v <= isize::MAX
}

/// Fake lighting: halves each of the red, green and blue channels of a `0x00RRGGBB` pixel.
pub open spec fn darkened(color: u32) -> u32 {
    (color >> 1u32) & 0x007F_7F7Fu32
}

/// Darkens a pixel for fake lighting: each channel is halved (rounding down).
pub fn darken(color: u32) -> (dark: u32)
    ensures
        dark == darkened(color),
{
    (color >> 1) & 0x007F7F7F
}

/// Darkening halves each channel and clears the top byte.
pub proof fn lemma_darken_halves_channels(color: u32)
    ensures
        (darkened(color) >> 16u32) & 0xFFu32 == ((color >> 16u32) & 0xFFu32) / 2,
        (darkened(color) >> 8u32) & 0xFFu32 == ((color >> 8u32) & 0xFFu32) / 2,
        darkened(color) & 0xFFu32 == (color & 0xFFu32) / 2,
        darkened(color) >> 24u32 == 0,
{
    assert((((color >> 1u32) & 0x007F_7F7Fu32) >> 16u32) & 0xFFu32 == ((color >> 16u32) & 0xFFu32) / 2)
        by (bit_vector);
    assert((((color >> 1u32) & 0x007F_7F7Fu32) >> 8u32) & 0xFFu32 == ((color >> 8u32) & 0xFFu32) / 2)
        by (bit_vector);
    assert(((color >> 1u32) & 0x007F_7F7Fu32) & 0xFFu32 == (color & 0xFFu32) / 2) by (bit_vector);
    assert(((color >> 1u32) & 0x007F_7F7Fu32) >> 24u32 == 0) by (bit_vector);
}

/// The stripe a sprite or wall slice of `size` pixels centred on `center` covers on a
/// screen `limit` pixels across: from `-size / 2 + center` (at least 0) to `size / 2 + center`
/// (at most `limit - 1`), with Rust's rounding towards zero.
pub open spec fn span_start(size: int, center: int) -> int {
    if div_trunc(-size, 2) + center < 0 { 0 } else { div_trunc(-size, 2) + center }
}

/// The last pixel of the stripe (see `span_start`).
pub open spec fn span_end(size: int, center: int, limit: int) -> int {
    if div_trunc(size, 2) + center >= limit { limit - 1 } else { div_trunc(size, 2) + center }
}

/// Clamps the stripe of `size` pixels centred on `center` to a screen `limit` pixels across:
/// the first pixel is at least 0 and the last at most `limit - 1`.
pub fn clamp_span(size: isize, center: isize, limit: isize) -> (span: (isize, isize))
    requires
        size > isize::MIN,
        limit > isize::MIN,
        in_isize(div_trunc(-size, 2) + center),
        in_isize(div_trunc(size as int, 2) + center),
    ensures
        span.0 == span_start(size as int, center as int),
        span.1 == span_end(size as int, center as int, limit as int),
{
    let mut draw_start = -size / 2 + center;
    if draw_start < 0 {
        draw_start = 0;
    }
    let mut draw_end = size / 2 + center;
    if draw_end >= limit {
        draw_end = limit - 1;
    }
    (draw_start, draw_end)
}

/// The clamped stripe always lies on the screen: it starts at 0 or later and ends at
/// `limit - 1` or earlier. For a stripe of `size >= 0` pixels it runs from `center - size / 2`
/// to `center + size / 2`, cut at 0 and at `limit - 1`.
pub proof fn lemma_span_on_screen(size: int, center: int, limit: int)
    ensures
        span_start(size, center) >= 0,
        span_end(size, center, limit) <= limit - 1,
        size >= 0 ==> span_start(size, center) == if center - size / 2 >= 0 {
            center - size / 2
        } else {
            0
        },
        size >= 0 ==> span_end(size, center, limit) == if center + size / 2 < limit {
            center + size / 2
        } else {
            limit - 1
        },
{
}

/// The texture to use for texture number `idx` when `count` textures are loaded: that one
/// when it exists, the first one otherwise.
pub fn texture_or_first(idx: usize, count: usize) -> (tex: usize)
    ensures
        tex == if idx < count { idx } else { 0 },
{
    if idx < count {
        idx
    } else {
        0
    }
}

/// The texture a wall tile is drawn with, when `count` textures are loaded: tile `t > 0`
/// uses texture `t - 1` if it is loaded, and anything else falls back on the first texture.
pub fn wall_texture_index(tile_id: u8, count: usize) -> (tex: usize)
    ensures
        tex == if tile_id > 0 && tile_id - 1 < count { tile_id - 1 } else { 0 },
{
    // safety check - if tile_id is 0, default to 0
    let tex_num = if tile_id > 0 {
        (tile_id - 1) as usize
    } else {
        0
    };
    texture_or_first(tex_num, count)
}

/// The texture column of a wall hit, mirrored (`63 - tex_x`) when the wall is seen from the
/// side that would otherwise show it flipped.
pub fn flip_tex_x(tex_x: usize, flip: bool) -> (col: usize)
    requires
        flip ==> tex_x < TEX_SIZE,
    ensures
        col == if flip { TEX_SIZE - tex_x - 1 } else { tex_x as int },
{
    if flip {
        TEX_SIZE - tex_x - 1
    } else {
        tex_x
    }
}

/// A texture coordinate clamped into `0..64`.
pub open spec fn clamp_tex(v: int) -> int {
    if v < 0 { 0 } else if v >= TEX_SIZE { TEX_SIZE - 1 } else { v }
}

/// Position in a 64x64 texture of the texel at column `tex_x`, row `tex_y`, each coordinate
/// wrapped into `0..64` (its low six bits), so that the texture repeats.
pub fn texel_index(tex_x: usize, tex_y: usize) -> (i: usize)
    ensures
        i == TEX_SIZE * (tex_y % 64) + tex_x % 64,
        i < TEX_SIZE * TEX_SIZE,
{
    assert(tex_x & 63usize == tex_x % 64) by (bit_vector);
    assert(tex_y & 63usize == tex_y % 64) by (bit_vector);
    let col = tex_x & (TEX_SIZE - 1);
    let row = tex_y & (TEX_SIZE - 1);
    TEX_SIZE * row + col
}

/// Whether the sprite texture column computation for screen column `stripe` stays within
/// `isize`.
pub open spec fn sprite_tex_x_fits(stripe: int, sprite_width: int, sprite_screen_x: int) -> bool {
    let left = div_trunc(-sprite_width, 2) + sprite_screen_x;
    &&& in_isize(left)
    &&& in_isize(stripe - left)
    &&& in_isize(256 * 64 * (stripe - left))
}

/// The texture column of a sprite at screen column `stripe`, for a sprite `sprite_width`
/// pixels wide whose center is at screen column `sprite_screen_x`.
pub open spec fn sprite_tex_x_spec(stripe: int, sprite_width: int, sprite_screen_x: int) -> int {
    let left = div_trunc(-sprite_width, 2) + sprite_screen_x;
    clamp_tex(div_trunc(div_trunc(256 * (stripe - left) * 64, sprite_width), 256))
}

/// The texture column of a sprite at screen column `stripe` (see `sprite_tex_x_spec`),
/// clamped into the texture.
pub fn sprite_tex_x(stripe: isize, sprite_width: isize, sprite_screen_x: isize) -> (tex_x: usize)
    requires
        sprite_width > 0,
        sprite_tex_x_fits(stripe as int, sprite_width as int, sprite_screen_x as int),
    ensures
        tex_x == sprite_tex_x_spec(stripe as int, sprite_width as int, sprite_screen_x as int),
        tex_x < TEX_SIZE,
{
    let left = -sprite_width / 2 + sprite_screen_x;
    let offset = stripe - left;
    assert(256 * offset * 64 == 256 * 64 * offset) by (nonlinear_arith);
    assert(in_isize(256 * offset)) by (nonlinear_arith)
        requires in_isize(256 * 64 * offset);
    let scaled = 256 * offset * (TEX_SIZE as isize);
    let mut tex_x = (scaled / sprite_width) / 256;
    // clamp tex_x
    if tex_x < 0 {
        tex_x = 0;
    }
    if tex_x >= TEX_SIZE as isize {
        tex_x = TEX_SIZE as isize - 1;
    }
    tex_x as usize
}

/// A sprite's texture is spread evenly over its width: at `d` columns right of the sprite's
/// left edge (`screen_x - w / 2`), the texture column is `64 * d / w`, rounded down, for every
/// `d` across the sprite (`0 <= d < w`, giving `0..64`); left of the sprite it is 0 and past
/// its right edge 63.
pub proof fn lemma_sprite_tex_x_spreads(w: int, screen_x: int, d: int)
    requires
        w > 0,
    ensures
        0 <= d < w ==> sprite_tex_x_spec(screen_x - w / 2 + d, w, screen_x) == (64 * d) / w,
        0 <= d < w ==> (64 * d) / w < 64,
        d >= w ==> sprite_tex_x_spec(screen_x - w / 2 + d, w, screen_x) == 63,
        d < 0 ==> sprite_tex_x_spec(screen_x - w / 2 + d, w, screen_x) == 0,
{
    let left = div_trunc(-w, 2) + screen_x;
    assert(left == screen_x - w / 2);
    let stripe = screen_x - w / 2 + d;
    assert(stripe - left == d);
    assert(256 * d * 64 == 256 * (64 * d)) by (nonlinear_arith);
    if d >= 0 {
        let a = 64 * d;
        assert(a >= 0) by (nonlinear_arith) requires d >= 0, a == 64 * d;
        assert(256 * a >= 0) by (nonlinear_arith) requires a >= 0;
        vstd::arithmetic::div_mod::lemma_div_pos_is_pos(256 * a, w);
        vstd::arithmetic::div_mod::lemma_div_denominator(256 * a, w, 256);
        vstd::arithmetic::div_mod::lemma_div_multiples_vanish_quotient(256, a, w);
        assert(w * 256 == 256 * w) by (nonlinear_arith);
        assert(div_trunc(div_trunc(256 * d * 64, w), 256) == a / w);
        vstd::arithmetic::div_mod::lemma_div_pos_is_pos(a, w);
        if d < w {
            assert(a < 64 * w) by (nonlinear_arith) requires a == 64 * d, d < w;
            vstd::arithmetic::div_mod::lemma_div_by_multiple_is_strongly_ordered(a, 64 * w, 64, w);
            vstd::arithmetic::div_mod::lemma_div_by_multiple(64, w);
        } else {
            assert(a >= 64 * w) by (nonlinear_arith) requires a == 64 * d, d >= w;
            vstd::arithmetic::div_mod::lemma_div_is_ordered(64 * w, a, w);
            vstd::arithmetic::div_mod::lemma_div_by_multiple(64, w);
        }
    } else {
        let a = -64 * d;
        assert(a > 0) by (nonlinear_arith) requires d < 0, a == -64 * d;
        assert(256 * d * 64 == -(256 * a)) by (nonlinear_arith) requires a == -64 * d;
        vstd::arithmetic::div_mod::lemma_div_pos_is_pos(256 * a, w);
        vstd::arithmetic::div_mod::lemma_div_pos_is_pos((256 * a) / w, 256);
    }
}

/// Whether the sprite texture row computation for screen row `y` stays within `isize`.
pub open spec fn sprite_tex_y_fits(y: int, scr_h: int, sprite_height: int) -> bool {
    let d = y * 256 - scr_h * 128 + sprite_height * 128;
    &&& in_isize(y * 256)
    &&& in_isize(scr_h * 128)
    &&& in_isize(y * 256 - scr_h * 128)
    &&& in_isize(sprite_height * 128)
    &&& in_isize(d)
    &&& in_isize(d * 64)
}

/// The texture row of a sprite at screen row `y`, for a sprite `sprite_height` pixels high
/// centred on a screen `scr_h` pixels high.
pub open spec fn sprite_tex_y_spec(y: int, scr_h: int, sprite_height: int) -> int {
    let d = y * 256 - scr_h * 128 + sprite_height * 128;
    clamp_tex(div_trunc(div_trunc(d * 64, sprite_height), 256))
}

/// The texture row of a sprite at screen row `y` (see `sprite_tex_y_spec`), clamped into the
/// texture.
pub fn sprite_tex_y(y: isize, scr_h: isize, sprite_height: isize) -> (tex_y: usize)
    requires
        sprite_height > 0,
        sprite_tex_y_fits(y as int, scr_h as int, sprite_height as int),
    ensures
        tex_y == sprite_tex_y_spec(y as int, scr_h as int, sprite_height as int),
        tex_y < TEX_SIZE,
{
    let d = y * 256 - scr_h * 128 + sprite_height * 128;
    let mut tex_y = ((d * TEX_SIZE as isize) / sprite_height) / 256;
    // clamp tex_y
    if tex_y < 0 {
        tex_y = 0;
    }
    if tex_y >= TEX_SIZE as isize {
        tex_y = TEX_SIZE as isize - 1;
    }
    tex_y as usize
}

/// A sprite's texture is spread evenly over its height: with `t = 2 * y - scr_h + sh` (twice
/// the rows between row `y` and the top edge `(scr_h - sh) / 2` of a sprite `sh` rows high,
/// centred on the screen), the texture row is `32 * t / sh`, rounded down, on the sprite
/// (`0 <= t < 2 * sh`, giving `0..64`); above the sprite it is 0 and below it 63.
pub proof fn lemma_sprite_tex_y_spreads(y: int, scr_h: int, sh: int)
    requires
        sh > 0,
    ensures
        0 <= 2 * y - scr_h + sh < 2 * sh ==> sprite_tex_y_spec(y, scr_h, sh) == (32 * (2 * y - scr_h + sh)) / sh,
        0 <= 2 * y - scr_h + sh < 2 * sh ==> (32 * (2 * y - scr_h + sh)) / sh < 64,
        2 * y - scr_h + sh >= 2 * sh ==> sprite_tex_y_spec(y, scr_h, sh) == 63,
        2 * y - scr_h + sh < 0 ==> sprite_tex_y_spec(y, scr_h, sh) == 0,
{
    let t = 2 * y - scr_h + sh;
    let d = y * 256 - scr_h * 128 + sh * 128;
    assert(d * 64 == 256 * (32 * t)) by (nonlinear_arith)
        requires t == 2 * y - scr_h + sh, d == y * 256 - scr_h * 128 + sh * 128;
    if t >= 0 {
        let a = 32 * t;
        assert(a >= 0) by (nonlinear_arith) requires t >= 0, a == 32 * t;
        assert(256 * a >= 0) by (nonlinear_arith) requires a >= 0;
        vstd::arithmetic::div_mod::lemma_div_pos_is_pos(256 * a, sh);
        vstd::arithmetic::div_mod::lemma_div_denominator(256 * a, sh, 256);
        vstd::arithmetic::div_mod::lemma_div_multiples_vanish_quotient(256, a, sh);
        assert(sh * 256 == 256 * sh) by (nonlinear_arith);
        assert(div_trunc(div_trunc(d * 64, sh), 256) == a / sh);
        vstd::arithmetic::div_mod::lemma_div_pos_is_pos(a, sh);
        if t < 2 * sh {
            assert(a < 64 * sh) by (nonlinear_arith) requires a == 32 * t, t < 2 * sh;
            vstd::arithmetic::div_mod::lemma_div_by_multiple_is_strongly_ordered(a, 64 * sh, 64, sh);
            vstd::arithmetic::div_mod::lemma_div_by_multiple(64, sh);
        } else {
            assert(a >= 64 * sh) by (nonlinear_arith) requires a == 32 * t, t >= 2 * sh;
            vstd::arithmetic::div_mod::lemma_div_is_ordered(64 * sh, a, sh);
            vstd::arithmetic::div_mod::lemma_div_by_multiple(64, sh);
        }
    } else {
        let a = -32 * t;
        assert(a > 0) by (nonlinear_arith) requires t < 0, a == -32 * t;
        assert(d * 64 == -(256 * a)) by (nonlinear_arith)
            requires a == -32 * t, d * 64 == 256 * (32 * t);
        vstd::arithmetic::div_mod::lemma_div_pos_is_pos(256 * a, sh);
        vstd::arithmetic::div_mod::lemma_div_pos_is_pos((256 * a) / sh, 256);
    }
}

/// The flat color of a wall tile when walls are drawn without textures: red for `1`, green
/// for `2`, blue for `3`, white for `4` and yellow for anything else.
pub fn flat_wall_color(tile: u8) -> (color: u32)
    ensures
        color == if tile == 1 {
            0x00FF_0000u32
        } else if tile == 2 {
            0x0000_FF00u32
        } else if tile == 3 {
            0x0000_00FFu32
        } else if tile == 4 {
            0x00FF_FFFFu32
        } else {
            0x00FF_FF00u32
        },
{
    match tile {
        1 => 0x00FF0000,  // Red
        2 => 0x0000FF00,  // Green
        3 => 0x000000FF,  // Blue
        4 => 0x00FFFFFF,  // White
        _ => 0x00FFFF00,  // Yellow
    }
}

/// Whether the sprites' draw order is sorted by distance key, furthest first.
pub open spec fn far_to_near(order: Seq<(usize, i64)>) -> bool {
    forall|a: int, b: int| 0 <= a < b < order.len() ==> #[trigger] order[a].1 >= #[trigger] order[b].1
}

/// Sorts sprites, given as (entity index, distance key) pairs, from the furthest to the nearest,
/// so that nearer sprites are drawn over further ones. The keys order the distances (a larger
/// key is further away); pairs with equal keys may come in any order.
pub fn order_far_to_near(sprites: Vec<(usize, i64)>) -> (order: Vec<(usize, i64)>)
    ensures
        order@.to_multiset() == sprites@.to_multiset(),
        far_to_near(order@),
{
    let mut order: Vec<(usize, i64)> = Vec::with_capacity(sprites.len());
    let n = sprites.len();
    proof {
        assert(order@ =~= sprites@.take(0));
    }
    for i in 0..n
        invariant
            n == sprites@.len(),
            order@.to_multiset() == sprites@.take(i as int).to_multiset(),
            far_to_near(order@),
    {
        let sprite = sprites[i];
        let key = sprite.1;
        // insert after every sprite at least as far
        let mut p: usize = 0;
        while p < order.len() && order[p].1 >= key
            invariant
                0 <= p <= order@.len(),
                forall|q: int| 0 <= q < p ==> #[trigger] order@[q].1 >= key,
            decreases order@.len() - p,
        {
            p += 1;
        }
        let ghost before = order@;
        order.insert(p, sprite);
        proof {
            assert(sprites@.take(i + 1) =~= sprites@.take(i as int).push(sprite));
            vstd::seq_lib::to_multiset_build(sprites@.take(i as int), sprite);
            vstd::seq_lib::to_multiset_insert(before, p as int, sprite);
            assert forall|a: int, b: int| 0 <= a < b < order@.len() implies #[trigger] order@[a].1
                >= #[trigger] order@[b].1 by {
                if b == p {
                    assert(order@[a] == before[a]);
                } else if a == p {
                    assert(order@[b] == before[b - 1]);
                    assert(before[p as int].1 < key);
                    assert(before[p as int].1 >= before[b - 1].1 || b - 1 == p);
                } else {
                    let a0 = if a < p { a } else { a - 1 };
                    let b0 = if b < p { b } else { b - 1 };
                    assert(order@[a] == before[a0]);
                    assert(order@[b] == before[b0]);
                }
            }
        }
    }
    proof {
        assert(sprites@.take(n as int) =~= sprites@);
    }
    order
}

/// Whether a texture pixel shows: pure black (`0x000000` in its color bits) is transparent.
pub fn is_opaque(color: u32) -> (opaque: bool)
    ensures
        opaque == (color & 0x00FF_FFFFu32 != 0),
{
    (color & 0x00FFFFFF) != 0
}

/// Column of the pause message on a screen `scr_w` pixels wide.
pub open spec fn pause_x(scr_w: int) -> int {
    scr_w / 2 - 96
}

/// Row of the pause message on a screen `scr_h` pixels high.
pub open spec fn pause_y(scr_h: int) -> int {
    scr_h / 2 - 16
}

impl Engine {
    /// Draws a large "PAUSED" in the center of the screen (scale 4, from 96 columns left and
    /// 16 rows above the center), and "PRESS Esc TO RESUME" (scale 2) 16 columns further left
    /// and 40 rows below it, into `buffer`, the frame of this engine's screen.
    pub fn draw_pause_message(&self, buffer: &mut [u32])
        requires
            old(buffer)@.len() == self.width() * self.height(),
            self.width() / 2 >= 112,
            self.height() / 2 >= 16,
        ensures
            final(buffer)@.len() == old(buffer)@.len(),
            forall|i: int|
                0 <= i < old(buffer)@.len() ==> #[trigger] final(buffer)@[i] == if text_pixel(
                    i,
                    self.width() as int,
                    self.height() as int,
                    "PAUSED"@,
                    pause_x(self.width() as int),
                    pause_y(self.height() as int),
                    4,
                ) || text_pixel(
                    i,
                    self.width() as int,
                    self.height() as int,
                    "PRESS Esc TO RESUME"@,
                    pause_x(self.width() as int) - 16,
                    pause_y(self.height() as int) + 40,
                    2,
                ) {
                    TEXT_COLOR
                } else {
                    old(buffer)@[i]
                },
    {
        let scr_w = self.scr_width;
        let scr_h = self.scr_height;
        let center_x = (scr_w / 2) - 96;
        let center_y = (scr_h / 2) - 16;
        let title = "PAUSED";
        let hint = "PRESS Esc TO RESUME";
        proof {
            reveal_strlit("PAUSED");
            reveal_strlit("PRESS Esc TO RESUME");
            lemma_glyph_count_bound(title@);
            lemma_glyph_count_bound(hint@);
            assert forall|px: int, py: int| 0 <= px < scr_w && 0 <= py < scr_h implies #[trigger] pixel_index(
                px,
                py,
                scr_w as int,
            ) < old(buffer)@.len() by {
                lemma_on_screen_index(px, py, scr_w as int, scr_h as int);
            }
            assert forall|k: int| 0 <= k < title@.len() && (#[trigger] basic_font_glyph(title@[k])) is Some
                implies glyph_rows_fit(basic_font_glyph(title@[k])->0, center_y as int, 4) by {}
        }
        draw_text(buffer, scr_w, scr_h, title, center_x, center_y, 4);
        let ghost mid = buffer@;
        proof {
            assert forall|k: int| 0 <= k < hint@.len() && (#[trigger] basic_font_glyph(hint@[k])) is Some
                implies glyph_rows_fit(basic_font_glyph(hint@[k])->0, center_y + 40, 2) by {}
        }
        draw_text(buffer, scr_w, scr_h, hint, center_x - 16, center_y + 40, 2);
        proof {
            assert forall|i: int| 0 <= i < old(buffer)@.len() implies #[trigger] buffer@[i] == if text_pixel(
                i,
                scr_w as int,
                scr_h as int,
                "PAUSED"@,
                pause_x(scr_w as int),
                pause_y(scr_h as int),
                4,
            ) || text_pixel(
                i,
                scr_w as int,
                scr_h as int,
                "PRESS Esc TO RESUME"@,
                pause_x(scr_w as int) - 16,
                pause_y(scr_h as int) + 40,
                2,
            ) {
                TEXT_COLOR
            } else {
                old(buffer)@[i]
            } by {
                assert(mid[i] == if text_pixel(i, scr_w as int, scr_h as int, title@, center_x as int, center_y as int, 4) {
                    TEXT_COLOR } else { old(buffer)@[i] });
            }
        }
    }
}

} // verus!
