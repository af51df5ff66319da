use font8x8::legacy::BASIC_LEGACY;
use rozeos::console::{Console, BG, FG};
use rozeos::font::{draw_glyph, Font};
use rozeos::framebuffer::Framebuffer;

fn font() -> Font {
    Font::new(BASIC_LEGACY.to_vec()).unwrap()
}

fn lit(glyph: &[u8; 8], gx: usize, gy: usize) -> bool {
    glyph[gy] & (1 << gx) != 0
}

#[test]
fn font_needs_128_glyphs() {
    assert!(Font::new(vec![[0u8; 8]; 127]).is_none());
    assert!(Font::new(vec![[0u8; 8]; 128]).is_some());
}

#[test]
fn new_framebuffer_is_black() {
    let fb = Framebuffer::new(4, 3, 16, 32);
    assert_eq!(fb.width(), 4);
    assert_eq!(fb.height(), 3);
    assert_eq!(fb.bpp(), 32);
    for y in 0..3 {
        for x in 0..4 {
            assert_eq!(fb.pixel(x, y), 0);
        }
    }
}

#[test]
fn fill_rect_is_clipped() {
    let mut fb = Framebuffer::new(4, 3, 16, 32);
    fb.fill_rect(2, 1, 10, 10, 7);
    for y in 0..3 {
        for x in 0..4 {
            let want = if x >= 2 && y >= 1 { 7 } else { 0 };
            assert_eq!(fb.pixel(x, y), want);
        }
    }
    fb.fill_rect(100, 100, 5, 5, 9);
    assert_eq!(fb.pixel(3, 2), 7);
}

#[test]
fn clear_paints_everything() {
    let mut fb = Framebuffer::new(5, 2, 20, 32);
    fb.clear(0x123456);
    for y in 0..2 {
        for x in 0..5 {
            assert_eq!(fb.pixel(x, y), 0x123456);
        }
    }
}

#[test]
fn put_pixel_drops_out_of_bounds() {
    let mut fb = Framebuffer::new(2, 2, 8, 32);
    fb.put_pixel(1, 1, 5);
    fb.put_pixel(2, 0, 6);
    fb.put_pixel(0, 2, 6);
    assert_eq!(fb.pixel(1, 1), 5);
    assert_eq!(fb.pixel(0, 0), 0);
    assert_eq!(fb.pixel(1, 0), 0);
    assert_eq!(fb.pixel(0, 1), 0);
}

#[test]
fn scroll_up_moves_rows_and_fills() {
    let mut fb = Framebuffer::new(2, 4, 8, 32);
    for y in 0..4 {
        fb.fill_rect(0, y, 2, 1, y as u32 + 1);
    }
    fb.scroll_up(1, 9);
    assert_eq!(fb.pixel(0, 0), 2);
    assert_eq!(fb.pixel(1, 2), 4);
    assert_eq!(fb.pixel(0, 3), 9);
    fb.scroll_up(10, 3);
    for y in 0..4 {
        assert_eq!(fb.pixel(1, y), 3);
    }
}

#[test]
fn glyph_is_drawn_scaled() {
    let f = font();
    let mut fb = Framebuffer::new(40, 40, 160, 32);
    draw_glyph(&mut fb, &f, b'A', 4, 4, 3, 1, 2);
    let g = &BASIC_LEGACY[b'A' as usize];
    for y in 0..40 {
        for x in 0..40 {
            let want = if (4..28).contains(&x) && (4..28).contains(&y) {
                if lit(g, (x - 4) / 3, (y - 4) / 3) { 1 } else { 2 }
            } else {
                0
            };
            assert_eq!(fb.pixel(x, y), want, "pixel {},{}", x, y);
        }
    }
}

#[test]
fn console_grid_follows_the_framebuffer() {
    let c = Console::new(Framebuffer::new(80, 50, 320, 32), font());
    assert_eq!(c.cols(), 5);
    assert_eq!(c.rows(), 3);
}

#[test]
fn console_starts_cleared() {
    let mut c = Console::new(Framebuffer::new(32, 32, 128, 32), font());
    let fb = c.framebuffer();
    assert_eq!(fb.pixel(0, 0), BG);
    assert_eq!(fb.pixel(31, 31), BG);
}

/// Whether the 16x16 cell at (col, row) shows the glyph for `ch`.
fn shows(c: &mut Console, col: usize, row: usize, ch: u8) -> bool {
    let g = BASIC_LEGACY[ch as usize];
    let fb = c.framebuffer();
    for y in 0..16 {
        for x in 0..16 {
            let want = if lit(&g, x / 2, y / 2) { FG } else { BG };
            if fb.pixel(col * 16 + x, row * 16 + y) != want {
                return false;
            }
        }
    }
    true
}

#[test]
fn console_prints_and_wraps() {
    let mut c = Console::new(Framebuffer::new(48, 48, 192, 32), font());
    c.write_bytes(b"ABCD");
    assert!(shows(&mut c, 0, 0, b'A'));
    assert!(shows(&mut c, 2, 0, b'C'));
    // three columns: D wraps onto the second line
    assert!(shows(&mut c, 0, 1, b'D'));
}

#[test]
fn console_carriage_return_and_newline() {
    let mut c = Console::new(Framebuffer::new(48, 48, 192, 32), font());
    c.write_bytes(b"AB\rC\nD");
    assert!(shows(&mut c, 0, 0, b'C'));
    assert!(shows(&mut c, 1, 0, b'B'));
    assert!(shows(&mut c, 0, 1, b'D'));
}

#[test]
fn console_shows_non_ascii_as_box() {
    let mut c = Console::new(Framebuffer::new(48, 48, 192, 32), font());
    c.put_byte(0xc3);
    c.put_byte(0x01);
    assert!(shows(&mut c, 0, 0, 0x7f));
    assert!(shows(&mut c, 1, 0, 0x7f));
}

#[test]
fn console_scrolls_at_the_bottom() {
    let mut c = Console::new(Framebuffer::new(48, 32, 192, 32), font());
    c.write_bytes(b"A\nB\nC");
    // two rows: the A line scrolled away, B moved up, C below it
    assert!(shows(&mut c, 0, 0, b'B'));
    assert!(shows(&mut c, 0, 1, b'C'));
}

fn same_screen(a: &mut Console, b: &mut Console) -> bool {
    let (w, h) = (a.framebuffer().width(), a.framebuffer().height());
    for y in 0..h {
        for x in 0..w {
            if a.framebuffer().pixel(x, y) != b.framebuffer().pixel(x, y) {
                return false;
            }
        }
    }
    true
}

#[test]
fn unprintable_bytes_print_as_the_box() {
    for b in [0x00u8, 0x1b, 0x7f, 0x80, 0xff] {
        let mut a = Console::new(Framebuffer::new(32, 32, 128, 32), font());
        let mut c = Console::new(Framebuffer::new(32, 32, 128, 32), font());
        a.write_bytes(&[b, b'A', b, b]);
        c.write_bytes(&[0x7f, b'A', 0x7f, 0x7f]);
        assert!(same_screen(&mut a, &mut c));
    }
}

#[test]
fn writing_a_concatenation_is_two_writes() {
    let mut a = Console::new(Framebuffer::new(48, 32, 192, 32), font());
    let mut b = Console::new(Framebuffer::new(48, 32, 192, 32), font());
    a.write_bytes(b"AB\nCDEF");
    b.write_bytes(b"AB\nC");
    b.write_bytes(b"DEF");
    assert!(same_screen(&mut a, &mut b));
    a.write_bytes(b"G");
    b.write_bytes(b"G");
    assert!(same_screen(&mut a, &mut b));
}

#[test]
fn clearing_twice_is_clearing_once() {
    let mut c = Console::new(Framebuffer::new(32, 32, 128, 32), font());
    c.write_bytes(b"AB");
    c.clear();
    c.clear();
    for y in 0..32 {
        for x in 0..32 {
            assert_eq!(c.framebuffer().pixel(x, y), BG);
        }
    }
    c.put_byte(b'C');
    assert!(shows(&mut c, 0, 0, b'C'));
    assert_eq!(c.cols(), 2);
    assert_eq!(c.rows(), 2);
}
