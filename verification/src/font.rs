//! 8x8 bitmap font and glyph rendering.
//!
//! A glyph is eight rows of eight bits, bit 0 being the leftmost pixel.
//! Glyphs are drawn scaled up by an integer factor, one filled square
//! per font pixel, background painted too so redraws do not smear.

use vstd::prelude::*;
use crate::framebuffer::{Color, Framebuffer, fill_image, is_image};

verus! {

/// Glyph width in font pixels.
pub const GLYPH_W: usize = 8;

/// Glyph height in font pixels.
pub const GLYPH_H: usize = 8;

/// Number of glyphs, one per 7-bit character code.
pub const GLYPH_COUNT: usize = 128;

/// Whether font pixel `gx` of a glyph row is lit.
pub open spec fn glyph_on(bits: u8, gx: int) -> bool {
    bits & (1u8 << (gx as u8)) != 0
}

/// The color of font pixel (`gx`, `gy`) of a glyph.
pub open spec fn glyph_color(glyph: Seq<u8>, gx: int, gy: int, fg: u32, bg: u32) -> u32 {
    if glyph_on(glyph[gy], gx) {
        fg
    } else {
        bg
    }
}

/// An image with the first `done` font pixels of a glyph drawn at
/// (`x`, `y`), each a `scale` by `scale` square, in row-major order.
pub open spec fn glyph_partial(
    img: Seq<Seq<u32>>,
    glyph: Seq<u8>,
    x: int,
    y: int,
    scale: int,
    fg: u32,
    bg: u32,
    done: int,
) -> Seq<Seq<u32>> {
    Seq::new(
        img.len(),
        |r: int|
            Seq::new(
                img[r].len(),
                |c: int|
                    if x <= c < x + 8 * scale && y <= r < y + 8 * scale && ((r - y) / scale) * 8 + (c
                        - x) / scale < done {
                        glyph_color(glyph, (c - x) / scale, (r - y) / scale, fg, bg)
                    } else {
                        img[r][c]
                    },
            ),
    )
}

/// An image with a whole glyph drawn at (`x`, `y`): the `8 * scale`
/// square there takes the glyph's colors, font pixel by font pixel.
pub open spec fn glyph_image(
    img: Seq<Seq<u32>>,
    glyph: Seq<u8>,
    x: int,
    y: int,
    scale: int,
    fg: u32,
    bg: u32,
) -> Seq<Seq<u32>> {
    glyph_partial(img, glyph, x, y, scale, fg, bg, 64)
}

/// `d` lies in cell `g` of a row of cells `s` wide exactly when `d / s`
/// is `g`.
proof fn lemma_cell_index(d: int, s: int, g: int)
    requires
        s > 0,
        d >= 0,
    ensures
        (g * s <= d < g * s + s) == (d / s == g),
{
    if g * s <= d < g * s + s {
        vstd::arithmetic::div_mod::lemma_fundamental_div_mod_converse(d, s, g, d - g * s);
    }
    if d / s == g {
        vstd::arithmetic::div_mod::lemma_fundamental_div_mod(d, s);
        assert(0 <= d % s < s) by {
            vstd::arithmetic::div_mod::lemma_mod_bound(d, s);
        }
        assert(d == s * g + d % s);
        assert(s * g == g * s) by (nonlinear_arith);
    }
}

/// A font of 128 glyphs, one per 7-bit character code.
pub struct Font {
    glyphs: Vec<[u8; 8]>,
}

impl Font {
    /// The rows of the glyph for character code `ch`.
    pub closed spec fn glyph(&self, ch: int) -> Seq<u8> {
        self.glyphs@[ch]@
    }

    pub closed spec fn wf(&self) -> bool {
        self.glyphs@.len() == GLYPH_COUNT
    }

    /// A font from its glyph table; `None` unless the table holds
    /// exactly one glyph per 7-bit code.
    pub fn new(glyphs: Vec<[u8; 8]>) -> (f: Option<Font>)
        ensures
            f is Some <==> glyphs@.len() == GLYPH_COUNT,
            f matches Some(font) ==> font.wf() && forall|c: int|
                0 <= c < GLYPH_COUNT ==> #[trigger] font.glyph(c) == glyphs@[c]@,
    {
        if glyphs.len() == GLYPH_COUNT {
            Some(Font { glyphs })
        } else {
            None
        }
    }

    /// Row `gy` of the glyph for `ch`.
    fn row(&self, ch: u8, gy: usize) -> (bits: u8)
        requires
            self.wf(),
            ch < GLYPH_COUNT,
            gy < GLYPH_H,
        ensures
            bits == self.glyph(ch as int)[gy as int],
    {
        let g: &[u8; 8] = &self.glyphs[ch as usize];
        g[gy]
    }
}

/// Draw the glyph for `ch` with its top left corner at pixel (`x`, `y`),
/// each font pixel a `scale` by `scale` square in `fg` or `bg`.
pub fn draw_glyph(
    fb: &mut Framebuffer,
    font: &Font,
    ch: u8,
    x: usize,
    y: usize,
    scale: usize,
    fg: Color,
    bg: Color,
)
    requires
        old(fb).wf(),
        font.wf(),
        ch < GLYPH_COUNT,
        x + 8 * scale <= usize::MAX,
        y + 8 * scale <= usize::MAX,
    ensures
        final(fb).wf(),
        final(fb).spec_width() == old(fb).spec_width(),
        final(fb).spec_height() == old(fb).spec_height(),
        final(fb).spec_pitch() == old(fb).spec_pitch(),
        final(fb).spec_bpp() == old(fb).spec_bpp(),
        final(fb)@ == glyph_image(old(fb)@, font.glyph(ch as int), x as int, y as int, scale as int, fg, bg),
{
    let ghost img = fb@;
    let ghost glyph = font.glyph(ch as int);
    let ghost s = scale as int;
    if scale == 0 {
        // every font pixel is an empty square: nothing to paint
        proof {
            let drawn = glyph_image(img, glyph, x as int, y as int, s, fg, bg);
            assert forall|r: int| 0 <= r < img.len() implies #[trigger] drawn[r] =~= img[r] by {}
            assert(drawn =~= img);
        }
        return;
    }
    proof {
        assert(glyph_partial(img, glyph, x as int, y as int, s, fg, bg, 0) =~= img) by {
            assert forall|r: int| 0 <= r < img.len() implies #[trigger] glyph_partial(img, glyph, x as int, y as int, s, fg, bg, 0)[r] =~= img[r] by {
                assert forall|c: int| 0 <= c < img[r].len() implies #[trigger] glyph_partial(img, glyph, x as int, y as int, s, fg, bg, 0)[r][c] == img[r][c] by {
                    if x <= c && y <= r {
                        assert((r - y) / s >= 0 && (c - x) / s >= 0) by (nonlinear_arith)
                            requires s > 0, r - y >= 0, c - x >= 0;
                    }
                }
            }
        }
    }
    let mut gy: usize = 0;
    while gy < GLYPH_H
        invariant
            fb.wf(),
            font.wf(),
            ch < GLYPH_COUNT,
            glyph == font.glyph(ch as int),
            s == scale as int,
            scale > 0,
            x + 8 * scale <= usize::MAX,
            y + 8 * scale <= usize::MAX,
            gy <= GLYPH_H,
            fb.spec_width() == old(fb).spec_width(),
            fb.spec_height() == old(fb).spec_height(),
            fb.spec_pitch() == old(fb).spec_pitch(),
            fb.spec_bpp() == old(fb).spec_bpp(),
            img == old(fb)@,
            fb@ == glyph_partial(img, glyph, x as int, y as int, s, fg, bg, gy * 8),
        decreases GLYPH_H - gy,
    {
        let bits = font.row(ch, gy);
        let mut gx: usize = 0;
        while gx < GLYPH_W
            invariant
                fb.wf(),
                glyph == font.glyph(ch as int),
                bits == glyph[gy as int],
                s == scale as int,
                scale > 0,
                x + 8 * scale <= usize::MAX,
                y + 8 * scale <= usize::MAX,
                gy < GLYPH_H,
                gx <= GLYPH_W,
                fb.spec_width() == old(fb).spec_width(),
                fb.spec_height() == old(fb).spec_height(),
                fb.spec_pitch() == old(fb).spec_pitch(),
                fb.spec_bpp() == old(fb).spec_bpp(),
                img == old(fb)@,
                fb@ == glyph_partial(img, glyph, x as int, y as int, s, fg, bg, gy * 8 + gx),
            decreases GLYPH_W - gx,
        {
            // bit 0 is the leftmost pixel in this font
            let color = if bits & (1u8 << (gx as u8)) != 0 {
                fg
            } else {
                bg
            };
            assert(gx * scale + scale <= 8 * scale && gy * scale + scale <= 8 * scale) by (nonlinear_arith)
                requires gx < 8, gy < 8, scale > 0;
            let cx = x + gx * scale;
            let cy = y + gy * scale;
            let ghost before = fb@;
            fb.fill_rect(cx, cy, scale, scale, color);
            proof {
                let done = gy * 8 + gx;
                let next = glyph_partial(img, glyph, x as int, y as int, s, fg, bg, done + 1);
                let filled = fill_image(before, cx as int, cy as int, s, s, color);
                assert forall|r: int| 0 <= r < img.len() implies #[trigger] filled[r] =~= next[r] by {
                    assert forall|c: int| 0 <= c < img[r].len() implies #[trigger] filled[r][c] == next[r][c] by {
                        if x <= c && y <= r {
                            lemma_cell_index(c - x, s, gx as int);
                            lemma_cell_index(r - y, s, gy as int);
                            let cxi = (c - x) / s;
                            let cyi = (r - y) / s;
                            assert(cxi >= 0 && cyi >= 0) by (nonlinear_arith)
                                requires s > 0, r - y >= 0, c - x >= 0, cxi == (c - x) / s, cyi == (r - y) / s;
                            if c < x + 8 * s && r < y + 8 * s {
                                assert(cxi < 8 && cyi < 8) by (nonlinear_arith)
                                    requires s > 0, 0 <= c - x < 8 * s, 0 <= r - y < 8 * s, cxi == (c - x) / s, cyi == (r - y) / s;
                            }
                        }
                    }
                }
                assert(filled =~= next);
            }
            gx = gx + 1;
        }
        gy = gy + 1;
    }
}

} // verus!

verus! {

/// A glyph drawn at (`x`, `y`) and scale `s` paints, for font pixel
/// (`gx`, `gy`), the whole `s` by `s` square at (x + gx * s, y + gy * s)
/// in `fg` when bit `gx` of glyph row `gy` is set (bit 0 is the leftmost
/// pixel) and in `bg` when it is clear; pixels outside the `8 * s`
/// square keep their color.
pub proof fn lemma_glyph_pixels(
    img: Seq<Seq<u32>>,
    glyph: Seq<u8>,
    x: int,
    y: int,
    s: int,
    fg: u32,
    bg: u32,
    gx: int,
    gy: int,
    dx: int,
    dy: int,
    r: int,
    c: int,
)
    requires
        s > 0,
        0 <= r < img.len(),
        0 <= c < img[r].len(),
    ensures
        glyph_image(img, glyph, x, y, s, fg, bg).len() == img.len(),
        glyph_image(img, glyph, x, y, s, fg, bg)[r].len() == img[r].len(),
        (0 <= gx < 8 && 0 <= gy < 8 && 0 <= dx < s && 0 <= dy < s && r == y + gy * s + dy && c == x
            + gx * s + dx) ==> glyph_image(img, glyph, x, y, s, fg, bg)[r][c] == if (glyph[gy] >> (
            gx as u8)) & 1 == 1 {
            fg
        } else {
            bg
        },
        !(x <= c < x + 8 * s && y <= r < y + 8 * s) ==> glyph_image(img, glyph, x, y, s, fg, bg)[r][c]
            == img[r][c],
{
    if 0 <= gx < 8 && 0 <= gy < 8 && 0 <= dx < s && 0 <= dy < s && r == y + gy * s + dy && c == x
        + gx * s + dx {
        lemma_cell_index(c - x, s, gx);
        lemma_cell_index(r - y, s, gy);
        assert(gx * s + dx < 8 * s && gy * s + dy < 8 * s) by (nonlinear_arith)
            requires 0 <= gx < 8, 0 <= gy < 8, 0 <= dx < s, 0 <= dy < s;
        assert(gy * 8 + gx < 64);
        let bits = glyph[gy];
        let k = gx as u8;
        assert(((bits >> k) & 1 == 1) == (bits & (1u8 << k) != 0)) by (bit_vector)
            requires k < 8;
    }
}

} // verus!
