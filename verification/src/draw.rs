//! Display lists: text and rectangles drawn straight on the framebuffer.
//!
//! Each screen of the boot menu is a list of drawing operations applied
//! in order; the functions that paint a screen are stated as that list.

use vstd::prelude::*;
use crate::font::{Font, draw_glyph, glyph_image, GLYPH_W};
use crate::framebuffer::{Color, Framebuffer, fill_image};

verus! {

/// One drawing operation.
pub enum DrawOp {
    /// A filled rectangle, clipped against the screen.
    Rect { x: int, y: int, w: int, h: int, color: u32 },
    /// A line of text, each byte drawn with the glyph for its low seven
    /// bits, glyphs `8 * scale` pixels wide side by side.
    Text { x: int, y: int, scale: int, fg: u32, bg: u32, text: Seq<u8> },
}

/// The screen with a line of text drawn at (`x`, `y`).
pub open spec fn text_image(
    img: Seq<Seq<u32>>,
    font: Font,
    x: int,
    y: int,
    scale: int,
    fg: u32,
    bg: u32,
    text: Seq<u8>,
) -> Seq<Seq<u32>>
    decreases text.len(),
{
    if text.len() == 0 {
        img
    } else {
        glyph_image(
            text_image(img, font, x, y, scale, fg, bg, text.drop_last()),
            font.glyph(text.last() as int % 128),
            x + (text.len() - 1) * 8 * scale,
            y,
            scale,
            fg,
            bg,
        )
    }
}

/// The screen after one operation.
pub open spec fn apply_op(img: Seq<Seq<u32>>, font: Font, op: DrawOp) -> Seq<Seq<u32>> {
    match op {
        DrawOp::Rect { x, y, w, h, color } => fill_image(img, x, y, w, h, color),
        DrawOp::Text { x, y, scale, fg, bg, text } => text_image(img, font, x, y, scale, fg, bg, text),
    }
}

/// The screen after a list of operations, applied first to last.
pub open spec fn apply_ops(img: Seq<Seq<u32>>, font: Font, ops: Seq<DrawOp>) -> Seq<Seq<u32>>
    decreases ops.len(),
{
    if ops.len() == 0 {
        img
    } else {
        apply_op(apply_ops(img, font, ops.drop_last()), font, ops.last())
    }
}

/// An operation whose coordinates all fit in a `usize`.
pub open spec fn op_fits(op: DrawOp) -> bool {
    match op {
        DrawOp::Rect { x, y, w, h, color } => 0 <= x && 0 <= y && 0 <= w && 0 <= h && x + w
            <= usize::MAX && y + h <= usize::MAX,
        DrawOp::Text { x, y, scale, fg, bg, text } => 0 <= x && 0 <= y && 0 <= scale && x + text.len()
            * 8 * scale <= usize::MAX && y + 8 * scale <= usize::MAX,
    }
}

/// Every operation of a list fits.
pub open spec fn ops_fit(ops: Seq<DrawOp>) -> bool {
    forall|i: int| 0 <= i < ops.len() ==> op_fits(#[trigger] ops[i])
}

/// Applying one more operation is applying it to what the list made.
pub proof fn lemma_apply_push(img: Seq<Seq<u32>>, font: Font, ops: Seq<DrawOp>, op: DrawOp)
    ensures
        apply_ops(img, font, ops.push(op)) == apply_op(apply_ops(img, font, ops), font, op),
{
    assert(ops.push(op).drop_last() =~= ops);
}

/// A rectangle operation.
pub open spec fn rect_op(x: int, y: int, w: int, h: int, color: u32) -> DrawOp {
    DrawOp::Rect { x, y, w, h, color }
}

/// A text operation.
pub open spec fn text_op(x: int, y: int, scale: int, fg: u32, bg: u32, text: Seq<u8>) -> DrawOp {
    DrawOp::Text { x, y, scale, fg, bg, text }
}

/// Pixel width of `len` glyphs at a given scale.
pub fn text_w(len: usize, scale: usize) -> (w: usize)
    requires
        len * 8 <= usize::MAX,
        len * 8 * scale <= usize::MAX,
    ensures
        w == len * 8 * scale,
{
    len * GLYPH_W * scale
}

/// Draw one line of text at pixel (`x`, `y`), glyphs scaled up by an
/// integer factor, background painted so redraws do not smear.
pub fn draw_text(
    fb: &mut Framebuffer,
    font: &Font,
    x: usize,
    y: usize,
    scale: usize,
    fg: Color,
    bg: Color,
    s: &[u8],
)
    requires
        old(fb).wf(),
        font.wf(),
        op_fits(text_op(x as int, y as int, scale as int, fg, bg, s@)),
    ensures
        final(fb).wf(),
        final(fb).spec_width() == old(fb).spec_width(),
        final(fb).spec_height() == old(fb).spec_height(),
        final(fb).spec_pitch() == old(fb).spec_pitch(),
        final(fb).spec_bpp() == old(fb).spec_bpp(),
        final(fb)@ == text_image(old(fb)@, *font, x as int, y as int, scale as int, fg, bg, s@),
{
    let mut i: usize = 0;
    while i < s.len()
        invariant
            fb.wf(),
            font.wf(),
            i <= s@.len(),
            op_fits(text_op(x as int, y as int, scale as int, fg, bg, s@)),
            fb.spec_width() == old(fb).spec_width(),
            fb.spec_height() == old(fb).spec_height(),
            fb.spec_pitch() == old(fb).spec_pitch(),
            fb.spec_bpp() == old(fb).spec_bpp(),
            fb@ == text_image(old(fb)@, *font, x as int, y as int, scale as int, fg, bg, s@.subrange(0, i as int)),
        decreases s@.len() - i,
    {
        let b = s[i];
        let ch = b & 0x7f;
        assert(ch == b % 128) by (bit_vector)
            requires ch == b & 0x7f;
        assert(i * (8 * scale) + 8 * scale <= s@.len() * 8 * scale && 8 * scale <= s@.len() * 8 * scale && i * (8 * scale) == i * 8 * scale) by (nonlinear_arith)
            requires i < s@.len(), scale >= 0;
        let step = GLYPH_W * scale;
        let gx0 = x + i * step;
        draw_glyph(fb, font, ch, gx0, y, scale, fg, bg);
        proof {
            let p = s@.subrange(0, i as int + 1);
            assert(p.drop_last() =~= s@.subrange(0, i as int));
            assert(p.last() == b);
        }
        i = i + 1;
    }
    assert(s@.subrange(0, s@.len() as int) =~= s@);
}

/// The four one-pixel edges of a rectangle.
pub open spec fn frame_ops(x: int, y: int, w: int, h: int, color: u32) -> Seq<DrawOp> {
    seq![
        rect_op(x, y, w, 1, color),
        rect_op(x, y + h - 1, w, 1, color),
        rect_op(x, y, 1, h, color),
        rect_op(x + w - 1, y, 1, h, color),
    ]
}

/// A one pixel outline: an inset border, not a shadow.
pub(crate) fn frame(fb: &mut Framebuffer, x: usize, y: usize, w: usize, h: usize, color: Color, Ghost(font): Ghost<Font>, Ghost(ops): Ghost<Seq<DrawOp>>, Ghost(img): Ghost<Seq<Seq<u32>>>)
    requires
        old(fb).wf(),
        old(fb)@ == apply_ops(img, font, ops),
        x + w >= 1,
        y + h >= 1,
        x + w <= usize::MAX,
        y + h <= usize::MAX,
        x + 1 <= usize::MAX,
        y + 1 <= usize::MAX,
    ensures
        final(fb).wf(),
        final(fb).spec_width() == old(fb).spec_width(),
        final(fb).spec_height() == old(fb).spec_height(),
        final(fb).spec_pitch() == old(fb).spec_pitch(),
        final(fb).spec_bpp() == old(fb).spec_bpp(),
        final(fb)@ == apply_ops(img, font, ops + frame_ops(x as int, y as int, w as int, h as int, color)),
{
    let ghost f = frame_ops(x as int, y as int, w as int, h as int, color);
    fb.fill_rect(x, y, w, 1, color);
    proof { lemma_apply_push(img, font, ops, f[0]); }
    fb.fill_rect(x, y + h - 1, w, 1, color);
    proof { lemma_apply_push(img, font, ops.push(f[0]), f[1]); }
    fb.fill_rect(x, y, 1, h, color);
    proof { lemma_apply_push(img, font, ops.push(f[0]).push(f[1]), f[2]); }
    fb.fill_rect(x + w - 1, y, 1, h, color);
    proof {
        lemma_apply_push(img, font, ops.push(f[0]).push(f[1]).push(f[2]), f[3]);
        assert(ops.push(f[0]).push(f[1]).push(f[2]).push(f[3]) =~= ops + f);
    }
}

/// Decimal digits of a number, most significant first, no leading
/// zeros.
pub open spec fn decimal(n: nat) -> Seq<u8>
    decreases n,
{
    if n < 10 {
        seq![(0x30 + n) as u8]
    } else {
        decimal(n / 10).push((0x30 + n % 10) as u8)
    }
}

/// The decimal form of `n` in ASCII.
pub fn format_decimal(n: u64) -> (out: Vec<u8>)
    ensures
        out@ == decimal(n as nat),
    decreases n,
{
    if n < 10 {
        let mut v = Vec::new();
        v.push(0x30 + n as u8);
        proof { assert(v@ =~= decimal(n as nat)); }
        v
    } else {
        let mut v = format_decimal(n / 10);
        v.push(0x30 + (n % 10) as u8);
        proof {
            assert(v@ =~= decimal(n as nat));
        }
        v
    }
}

/// Ten to the `d`.
pub open spec fn pow10(d: nat) -> nat
    decreases d,
{
    if d == 0 {
        1
    } else {
        10 * pow10((d - 1) as nat)
    }
}

/// A number below `10^d` has at most `d` digits.
pub proof fn lemma_decimal_len(n: nat, d: nat)
    requires
        d >= 1,
        n < pow10(d),
    ensures
        decimal(n).len() <= d,
    decreases d,
{
    if n >= 10 {
        assert(d >= 2) by {
            if d == 1 {
                assert(pow10(1) == 10 * pow10(0));
            }
        }
        assert(pow10(d) == 10 * pow10((d - 1) as nat));
        lemma_decimal_len(n / 10, (d - 1) as nat);
    }
}

/// A 64-bit number has at most twenty digits.
pub proof fn lemma_decimal_u64(n: u64)
    ensures
        decimal(n as nat).len() <= 20,
{
    reveal_with_fuel(pow10, 21);
    assert(pow10(20) == 100000000000000000000);
    lemma_decimal_len(n as nat, 20);
}

/// Append `s` to `v`.
pub fn append(v: &mut Vec<u8>, s: &[u8])
    ensures
        final(v)@ == old(v)@ + s@,
{
    let mut i: usize = 0;
    while i < s.len()
        invariant
            i <= s@.len(),
            v@ == old(v)@ + s@.subrange(0, i as int),
        decreases s@.len() - i,
    {
        v.push(s[i]);
        assert(old(v)@ + s@.subrange(0, i as int + 1) =~= (old(v)@ + s@.subrange(0, i as int)).push(s@[i as int]));
        i = i + 1;
    }
    assert(s@.subrange(0, s@.len() as int) =~= s@);
}

} // verus!

verus! {

/// Painting one list and then another is painting their concatenation.
pub proof fn lemma_apply_concat(img: Seq<Seq<u32>>, font: Font, a: Seq<DrawOp>, b: Seq<DrawOp>)
    ensures
        apply_ops(img, font, a + b) == apply_ops(apply_ops(img, font, a), font, b),
    decreases b.len(),
{
    if b.len() == 0 {
        assert(a + b =~= a);
    } else {
        lemma_apply_concat(img, font, a, b.drop_last());
        assert((a + b).drop_last() =~= a + b.drop_last());
        assert((a + b).last() == b.last());
    }
}

/// The number a run of ASCII digits stands for, read left to right.
pub open spec fn digits_value(s: Seq<u8>) -> int
    decreases s.len(),
{
    if s.len() == 0 {
        0
    } else {
        digits_value(s.drop_last()) * 10 + (s.last() - 0x30)
    }
}

/// The decimal form of `n` is a run of ASCII digits that reads back as
/// `n`, with no leading zero.
pub proof fn lemma_decimal_reads_back(n: nat)
    ensures
        decimal(n).len() >= 1,
        forall|i: int| 0 <= i < decimal(n).len() ==> 0x30 <= #[trigger] decimal(n)[i] <= 0x39,
        digits_value(decimal(n)) == n,
        decimal(n).len() > 1 ==> decimal(n)[0] != 0x30,
    decreases n,
{
    if n >= 10 {
        lemma_decimal_reads_back(n / 10);
        let d = decimal(n);
        assert(d.drop_last() =~= decimal(n / 10));
        assert forall|i: int| 0 <= i < d.len() implies 0x30 <= #[trigger] d[i] <= 0x39 by {
            if i < d.len() - 1 {
                assert(d[i] == decimal(n / 10)[i]);
            }
        }
        assert(d[0] == decimal(n / 10)[0]);
        if decimal(n / 10).len() == 1 {
            assert(n / 10 < 10) by {
                if n / 10 >= 10 {
                    lemma_decimal_reads_back(n / 10 / 10);
                }
            }
            assert(decimal(n / 10)[0] == 0x30 + n / 10);
        }
    } else {
        assert(digits_value(decimal(n).drop_last()) == 0);
    }
}

} // verus!
