use font8x8::legacy::BASIC_LEGACY;
use rozeos::draw::{draw_text, format_decimal, text_w};
use rozeos::font::Font;
use rozeos::framebuffer::Framebuffer;
use rozeos::screens::{
    draw_menu, graphics_test_screen, mib_of_frames, status_strip_fits, sysinfo_screen, SystemFacts,
    BORDER_DEFAULT, BORDER_STRONG, SIGNAL_PRIMARY, SURFACE_BASE, SURFACE_PANEL, SURFACE_RAISED,
    SURFACE_SELECTED, TEXT_PRIMARY,
};

fn font() -> Font {
    Font::new(BASIC_LEGACY.to_vec()).unwrap()
}

#[test]
fn decimal_formatting() {
    assert_eq!(format_decimal(0), b"0".to_vec());
    assert_eq!(format_decimal(7), b"7".to_vec());
    assert_eq!(format_decimal(1000), b"1000".to_vec());
    assert_eq!(format_decimal(u64::MAX), b"18446744073709551615".to_vec());
}

#[test]
fn text_width() {
    assert_eq!(text_w(6, 4), 192);
    assert_eq!(text_w(40, 1), 320);
}

#[test]
fn free_memory_in_mib() {
    assert_eq!(mib_of_frames(0), 0);
    assert_eq!(mib_of_frames(255), 0);
    assert_eq!(mib_of_frames(256), 1);
    assert_eq!(mib_of_frames(131072), 512);
}

#[test]
fn text_glyphs_sit_side_by_side() {
    let f = font();
    let mut fb = Framebuffer::new(40, 10, 160, 32);
    draw_text(&mut fb, &f, 1, 1, 1, 5, 6, b"AB");
    for (i, ch) in [b'A', b'B'].iter().enumerate() {
        let g = BASIC_LEGACY[*ch as usize];
        for gy in 0..8 {
            for gx in 0..8 {
                let want = if g[gy] & (1 << gx) != 0 { 5 } else { 6 };
                assert_eq!(fb.pixel(1 + i * 8 + gx, 1 + gy), want);
            }
        }
    }
    assert_eq!(fb.pixel(17, 1), 0);
    assert_eq!(fb.pixel(0, 0), 0);
}

#[test]
fn text_at_scale_zero_paints_nothing() {
    let f = font();
    let mut fb = Framebuffer::new(8, 8, 32, 32);
    draw_text(&mut fb, &f, 2, 2, 0, 5, 6, b"AB");
    for y in 0..8 {
        for x in 0..8 {
            assert_eq!(fb.pixel(x, y), 0);
        }
    }
}

#[test]
fn text_uses_the_low_seven_bits() {
    let f = font();
    let mut a = Framebuffer::new(8, 8, 32, 32);
    let mut b = Framebuffer::new(8, 8, 32, 32);
    draw_text(&mut a, &f, 0, 0, 1, 1, 2, &[b'A']);
    draw_text(&mut b, &f, 0, 0, 1, 1, 2, &[b'A' | 0x80]);
    for y in 0..8 {
        for x in 0..8 {
            assert_eq!(a.pixel(x, y), b.pixel(x, y));
        }
    }
}

#[test]
fn status_strip_needs_room() {
    assert!(status_strip_fits(640, 480, None));
    assert!(!status_strip_fits(640, 27, None));
    // "WAD MISSING" is 11 glyphs: 16 + 88 pixels
    assert!(status_strip_fits(104, 28, None));
    assert!(!status_strip_fits(103, 28, None));
    // "WAD 4 KIB"
    assert!(status_strip_fits(88, 28, Some(4096)));
    assert!(!status_strip_fits(87, 28, Some(4096)));
}

#[test]
fn menu_layout() {
    let f = font();
    let mut fb = Framebuffer::new(640, 480, 2560, 32);
    draw_menu(&mut fb, &f, 0, None, 500, 12_000);
    let (px, py) = (80, 64);
    assert_eq!(fb.pixel(0, 0), SURFACE_BASE);
    assert_eq!(fb.pixel(px, py), BORDER_STRONG);
    assert_eq!(fb.pixel(px + 5, py + 5), SURFACE_PANEL);
    assert_eq!(fb.pixel(px + 5, py + 92), BORDER_DEFAULT);
    // the selected first row: tinted surface and a cyan edge bar
    assert_eq!(fb.pixel(px + 1, py + 104), SIGNAL_PRIMARY);
    assert_eq!(fb.pixel(px + 5, py + 104), SURFACE_SELECTED);
    // the second row is not selected
    assert_eq!(fb.pixel(px + 1, py + 144), SURFACE_PANEL);
    assert_eq!(fb.pixel(px + 5, py + 312), BORDER_DEFAULT);
    // the status strip across the bottom
    assert_eq!(fb.pixel(5, 480 - 28), BORDER_DEFAULT);
    assert_eq!(fb.pixel(5, 480 - 2), SURFACE_RAISED);
}

#[test]
fn menu_selection_moves_the_highlight() {
    let f = font();
    let mut fb = Framebuffer::new(640, 480, 2560, 32);
    draw_menu(&mut fb, &f, 3, Some(4 * 1024 * 1024), 500, 0);
    let (px, py) = (80, 64);
    assert_eq!(fb.pixel(px + 1, py + 104), SURFACE_PANEL);
    assert_eq!(fb.pixel(px + 1, py + 104 + 3 * 40), SIGNAL_PRIMARY);
}

#[test]
fn sysinfo_layout() {
    let f = font();
    let mut fb = Framebuffer::new(640, 480, 2560, 32);
    let facts = SystemFacts { fb_width: 640, fb_height: 480, fb_bpp: 32, free_mib: 400, ticks_ms: 1234, wad: None };
    sysinfo_screen(&mut fb, &f, &facts);
    let (px, py) = (64, 48);
    assert_eq!(fb.pixel(0, 0), SURFACE_BASE);
    assert_eq!(fb.pixel(px, py), BORDER_STRONG);
    assert_eq!(fb.pixel(px + 5, py + 5), SURFACE_PANEL);
    assert_eq!(fb.pixel(px + 11, py + 60), BORDER_DEFAULT);
}

#[test]
fn graphics_test_layout() {
    let f = font();
    let mut fb = Framebuffer::new(640, 480, 2560, 32);
    graphics_test_screen(&mut fb, &f);
    assert_eq!(fb.pixel(0, 0), SURFACE_BASE);
    assert_eq!(fb.pixel(32 + 5, 96 + 5), TEXT_PRIMARY);
    assert_eq!(fb.pixel(32, 96), BORDER_STRONG);
    // ramps: red, green, blue, rising left to right over 576 columns
    assert_eq!(fb.pixel(42, 200), 4 << 16);
    assert_eq!(fb.pixel(132, 250), 44 << 8);
    assert_eq!(fb.pixel(132, 300), 44);
    assert_eq!(fb.pixel(32, 200), BORDER_DEFAULT);
}
