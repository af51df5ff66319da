//! The boot menu's screens, each a display list painted in order: the
//! menu itself, the system info panel and the graphics test.

use vstd::prelude::*;
use vstd::string::StringSliceAdditionalSpecFns;
use crate::draw::{
    DrawOp, apply_ops, op_fits, lemma_apply_push, rect_op, text_op, frame_ops, decimal, draw_text, frame,
    format_decimal, append, text_w, lemma_decimal_u64,
};
use crate::font::Font;
use crate::framebuffer::{Color, Framebuffer};
use crate::menu::{ENTRY_COUNT, Activation, MenuCommand, entry_activation, menu_step};
use crate::keyboard::{KeyCode, KeyEvent};
use crate::physical::HEAP_SIZE;
use crate::timer::HZ;

verus! {

// Color tokens: obsidian surfaces, phosphor text, terminal cyan for the
// selection.
pub const SURFACE_BASE: Color = 0x0008_0b0d;
pub const SURFACE_RAISED: Color = 0x000b_1011;
pub const SURFACE_PANEL: Color = 0x0015_1b1c;
/// The selected surface: 10% cyan over the panel, precomputed because
/// the framebuffer has no alpha.
pub const SURFACE_SELECTED: Color = 0x001c_2f31;
pub const TEXT_PRIMARY: Color = 0x00e6_eee9;
pub const TEXT_SECONDARY: Color = 0x009b_aaa5;
pub const TEXT_MUTED: Color = 0x0065_736f;
/// Terminal cyan, the primary interaction signal.
pub const SIGNAL_PRIMARY: Color = 0x005a_e4ed;
pub const SIGNAL_SECONDARY: Color = 0x0044_d7a2;
pub const STATUS_WARNING: Color = 0x00e4_a84b;
pub const STATUS_DANGER: Color = 0x00d9_4d5b;
pub const BORDER_DEFAULT: Color = 0x0024_302f;
pub const BORDER_STRONG: Color = 0x003a_4a48;

/// Panel geometry, on a 4 pixel grid.
pub const PANEL_W: usize = 480;
pub const PANEL_H: usize = 352;
pub const ROW_H: usize = 40;

/// Height of the status strip at the bottom of the menu.
pub const STRIP_H: usize = 28;

/// The label of menu entry `i`.
pub open spec fn entry_label(i: int) -> Seq<u8> {
    if i == 0 {
        "Play DOOM".spec_bytes()
    } else if i == 1 {
        "System Info".spec_bytes()
    } else if i == 2 {
        "Graphics Test".spec_bytes()
    } else if i == 3 {
        "Reboot".spec_bytes()
    } else {
        "Shutdown".spec_bytes()
    }
}

fn entry_label_bytes(i: usize) -> (s: &'static [u8])
    requires
        i < ENTRY_COUNT,
    ensures
        s@ == entry_label(i as int),
        s@.len() <= 13,
{
    proof {
        reveal_strlit("Play DOOM");
        reveal_strlit("System Info");
        reveal_strlit("Graphics Test");
        reveal_strlit("Reboot");
        reveal_strlit("Shutdown");
        assert(vstd::string::is_ascii("Play DOOM"));
        assert(vstd::string::is_ascii("System Info"));
        assert(vstd::string::is_ascii("Graphics Test"));
        assert(vstd::string::is_ascii("Reboot"));
        assert(vstd::string::is_ascii("Shutdown"));
        vstd::string::is_ascii_spec_bytes("Play DOOM");
        vstd::string::is_ascii_spec_bytes("System Info");
        vstd::string::is_ascii_spec_bytes("Graphics Test");
        vstd::string::is_ascii_spec_bytes("Reboot");
        vstd::string::is_ascii_spec_bytes("Shutdown");
    }
    match i {
        0 => "Play DOOM".as_bytes(),
        1 => "System Info".as_bytes(),
        2 => "Graphics Test".as_bytes(),
        3 => "Reboot".as_bytes(),
        _ => "Shutdown".as_bytes(),
    }
}

/// The "[n]" tag in front of entry `i`.
pub open spec fn entry_tag(i: int) -> Seq<u8> {
    seq![0x5bu8, (0x31 + i) as u8, 0x5du8]
}

/// One menu row. The selected row gets the tinted surface, a cyan edge
/// bar and a cyan tag; the doom row without a WAD is parked: muted,
/// with a warning after its label.
pub open spec fn row_ops(px: int, y: int, i: int, selected: bool, wad_loaded: bool) -> Seq<DrawOp> {
    let parked = i == 0 && !wad_loaded;
    let bg = if selected { SURFACE_SELECTED } else { SURFACE_PANEL };
    let tag_fg = if selected { SIGNAL_PRIMARY } else { TEXT_MUTED };
    let label_fg = if parked {
        TEXT_MUTED
    } else if selected {
        TEXT_PRIMARY
    } else {
        TEXT_SECONDARY
    };
    let label = entry_label(i);
    let base = seq![rect_op(px + 1, y, PANEL_W - 2, ROW_H as int, bg)];
    let barred = if selected {
        base.push(rect_op(px + 1, y, 2, ROW_H as int, SIGNAL_PRIMARY))
    } else {
        base
    };
    let texts = barred.push(text_op(px + 24, y + 12, 2, tag_fg, bg, entry_tag(i))).push(
        text_op(px + 88, y + 12, 2, label_fg, bg, label),
    );
    if parked {
        texts.push(
            text_op(px + 88 + label.len() * 16 + 16, y + 16, 1, STATUS_WARNING, bg, "NO WAD".spec_bytes()),
        )
    } else {
        texts
    }
}

fn draw_row(
    fb: &mut Framebuffer,
    font: &Font,
    px: usize,
    y: usize,
    i: usize,
    selected: bool,
    wad_loaded: bool,
    Ghost(img): Ghost<Seq<Seq<u32>>>,
    Ghost(ops): Ghost<Seq<DrawOp>>,
)
    requires
        old(fb).wf(),
        font.wf(),
        old(fb)@ == apply_ops(img, *font, ops),
        i < ENTRY_COUNT,
        px + 4096 <= usize::MAX,
        y + 64 <= usize::MAX,
    ensures
        final(fb).wf(),
        final(fb).spec_width() == old(fb).spec_width(),
        final(fb).spec_height() == old(fb).spec_height(),
        final(fb).spec_pitch() == old(fb).spec_pitch(),
        final(fb).spec_bpp() == old(fb).spec_bpp(),
        final(fb)@ == apply_ops(img, *font, ops + row_ops(px as int, y as int, i as int, selected, wad_loaded)),
{
    let ghost mut acc = ops;
    let parked = i == 0 && !wad_loaded;
    let bg = if selected { SURFACE_SELECTED } else { SURFACE_PANEL };
    fb.fill_rect(px + 1, y, PANEL_W - 2, ROW_H, bg);
    proof {
        let op = rect_op(px + 1, y as int, PANEL_W - 2, ROW_H as int, bg);
        lemma_apply_push(img, *font, acc, op);
        acc = acc.push(op);
    }
    if selected {
        fb.fill_rect(px + 1, y, 2, ROW_H, SIGNAL_PRIMARY);
        proof {
            let op = rect_op(px + 1, y as int, 2, ROW_H as int, SIGNAL_PRIMARY);
            lemma_apply_push(img, *font, acc, op);
            acc = acc.push(op);
        }
    }
    let tag_fg = if selected { SIGNAL_PRIMARY } else { TEXT_MUTED };
    let label_fg = if parked {
        TEXT_MUTED
    } else if selected {
        TEXT_PRIMARY
    } else {
        TEXT_SECONDARY
    };
    let tag: [u8; 3] = [0x5b, 0x31 + i as u8, 0x5d];
    assert(tag@ =~= entry_tag(i as int));
    assert(tag@.len() == 3);
    assert((px + 24) + 3 * 8 * 2 <= usize::MAX);
    assert(y + 12 + 8 * 2 <= usize::MAX);
    draw_text(fb, font, px + 24, y + 12, 2, tag_fg, bg, &tag);
    proof {
        let op = text_op(px + 24, y + 12, 2, tag_fg, bg, entry_tag(i as int));
        lemma_apply_push(img, *font, acc, op);
        acc = acc.push(op);
    }
    let label = entry_label_bytes(i);
    assert(px + 88 + label@.len() * 8 * 2 <= usize::MAX);
    draw_text(fb, font, px + 88, y + 12, 2, label_fg, bg, label);
    proof {
        let op = text_op(px + 88, y + 12, 2, label_fg, bg, label@);
        lemma_apply_push(img, *font, acc, op);
        acc = acc.push(op);
    }
    if parked {
        let no_wad = "NO WAD".as_bytes();
        proof {
            reveal_strlit("NO WAD");
            assert(vstd::string::is_ascii("NO WAD"));
            vstd::string::is_ascii_spec_bytes("NO WAD");
            assert(no_wad@.len() == 6);
        }
        assert(label@.len() <= 13);
        let lw = text_w(label.len(), 2);
        assert(lw <= 208);
        let x = px + 88 + lw + 16;
        assert(x <= px + 312);
        assert(x + no_wad@.len() * 8 * 1 <= usize::MAX);
        draw_text(fb, font, x, y + 16, 1, STATUS_WARNING, bg, no_wad);
        proof {
            let op = text_op(x as int, y + 16, 1, STATUS_WARNING, bg, no_wad@);
            lemma_apply_push(img, *font, acc, op);
            acc = acc.push(op);
        }
    }
    assert(acc =~= ops + row_ops(px as int, y as int, i as int, selected, wad_loaded));
}


/// The status strip's left text: free memory and uptime.
pub open spec fn status_left(free_mib: nat, up: nat) -> Seq<u8> {
    "MEM ".spec_bytes() + decimal(free_mib) + " MIB FREE   UPTIME ".spec_bytes() + decimal(up)
        + "S".spec_bytes()
}

/// The status strip's right text and its color: the WAD size, or a
/// warning that there is none.
pub open spec fn wad_status(wad: Option<usize>) -> (Seq<u8>, u32) {
    match wad {
        Some(len) => (
            "WAD ".spec_bytes() + decimal((len / 1024) as nat) + " KIB".spec_bytes(),
            SIGNAL_SECONDARY,
        ),
        None => ("WAD MISSING".spec_bytes(), STATUS_WARNING),
    }
}

/// The bottom status strip: raised surface, top border, small facts.
pub open spec fn strip_ops(width: int, height: int, wad: Option<usize>, free_mib: nat, ticks_ms: nat) -> Seq<DrawOp> {
    let y = height - STRIP_H;
    let (wt, wc) = wad_status(wad);
    seq![
        rect_op(0, y, width, STRIP_H as int, SURFACE_RAISED),
        rect_op(0, y, width, 1, BORDER_DEFAULT),
        text_op(16, y + 10, 1, TEXT_SECONDARY, SURFACE_RAISED, status_left(free_mib, ticks_ms / 1000)),
        text_op(width - 16 - wt.len() * 8, y + 10, 1, wc, SURFACE_RAISED, wt),
    ]
}

/// The lengths of the fixed texts of the menu screens.
proof fn lemma_menu_texts()
    ensures
        "MEM ".spec_bytes().len() == 4,
        " MIB FREE   UPTIME ".spec_bytes().len() == 19,
        "S".spec_bytes().len() == 1,
        "WAD ".spec_bytes().len() == 4,
        " KIB".spec_bytes().len() == 4,
        "WAD MISSING".spec_bytes().len() == 11,
        "RozeOS".spec_bytes().len() == 6,
        "version 0.1".spec_bytes().len() == 11,
        "UP/DOWN SELECT   ENTER LAUNCH   1-5 JUMP".spec_bytes().len() == 40,
{
    reveal_strlit("MEM ");
    reveal_strlit(" MIB FREE   UPTIME ");
    reveal_strlit("S");
    reveal_strlit("WAD ");
    reveal_strlit(" KIB");
    reveal_strlit("WAD MISSING");
    reveal_strlit("RozeOS");
    reveal_strlit("version 0.1");
    reveal_strlit("UP/DOWN SELECT   ENTER LAUNCH   1-5 JUMP");
    assert(vstd::string::is_ascii("MEM "));
    assert(vstd::string::is_ascii(" MIB FREE   UPTIME "));
    assert(vstd::string::is_ascii("S"));
    assert(vstd::string::is_ascii("WAD "));
    assert(vstd::string::is_ascii(" KIB"));
    assert(vstd::string::is_ascii("WAD MISSING"));
    assert(vstd::string::is_ascii("RozeOS"));
    assert(vstd::string::is_ascii("version 0.1"));
    assert(vstd::string::is_ascii("UP/DOWN SELECT   ENTER LAUNCH   1-5 JUMP"));
    vstd::string::is_ascii_spec_bytes("MEM ");
    vstd::string::is_ascii_spec_bytes(" MIB FREE   UPTIME ");
    vstd::string::is_ascii_spec_bytes("S");
    vstd::string::is_ascii_spec_bytes("WAD ");
    vstd::string::is_ascii_spec_bytes(" KIB");
    vstd::string::is_ascii_spec_bytes("WAD MISSING");
    vstd::string::is_ascii_spec_bytes("RozeOS");
    vstd::string::is_ascii_spec_bytes("version 0.1");
    vstd::string::is_ascii_spec_bytes("UP/DOWN SELECT   ENTER LAUNCH   1-5 JUMP");
}

/// Free memory in MiB for a count of free frames.
pub fn mib_of_frames(frames: usize) -> (mib: usize)
    requires
        frames * 4096 <= usize::MAX,
    ensures
        mib == frames * 4096 / 1048576,
{
    frames * 4096 / (1024 * 1024)
}

/// The status strip's right text and color, computed.
fn wad_status_text(wad: Option<usize>) -> (r: (Vec<u8>, Color))
    ensures
        (r.0@, r.1) == wad_status(wad),
        r.0@.len() <= 28,
{
    proof {
        lemma_menu_texts();
    }
    match wad {
        Some(len) => {
            let mut t = Vec::new();
            append(&mut t, "WAD ".as_bytes());
            let kib = format_decimal((len / 1024) as u64);
            proof {
                lemma_decimal_u64((len / 1024) as u64);
            }
            append(&mut t, kib.as_slice());
            append(&mut t, " KIB".as_bytes());
            (t, SIGNAL_SECONDARY)
        },
        None => {
            let mut t = Vec::new();
            append(&mut t, "WAD MISSING".as_bytes());
            assert(t@ =~= "WAD MISSING".spec_bytes());
            (t, STATUS_WARNING)
        },
    }
}

/// Whether the status strip fits a screen of the given size.
pub open spec fn strip_fits(width: int, height: int, wad: Option<usize>) -> bool {
    &&& height >= STRIP_H
    &&& width >= 16 + wad_status(wad).0.len() * 8
}

/// Whether the status strip fits a screen of the given size.
pub fn status_strip_fits(width: usize, height: usize, wad: Option<usize>) -> (r: bool)
    ensures
        r == strip_fits(width as int, height as int, wad),
{
    let (text, _) = wad_status_text(wad);
    height >= STRIP_H && width >= 16 && width - 16 >= text.len() * 8
}

fn draw_status_strip(
    fb: &mut Framebuffer,
    font: &Font,
    wad: Option<usize>,
    free_mib: usize,
    ticks_ms: u64,
    Ghost(img): Ghost<Seq<Seq<u32>>>,
    Ghost(ops): Ghost<Seq<DrawOp>>,
)
    requires
        old(fb).wf(),
        font.wf(),
        old(fb)@ == apply_ops(img, *font, ops),
        old(fb).spec_width() <= usize::MAX / 4,
        old(fb).spec_height() <= usize::MAX / 4,
        strip_fits(old(fb).spec_width() as int, old(fb).spec_height() as int, wad),
    ensures
        final(fb).wf(),
        final(fb).spec_width() == old(fb).spec_width(),
        final(fb).spec_height() == old(fb).spec_height(),
        final(fb).spec_pitch() == old(fb).spec_pitch(),
        final(fb).spec_bpp() == old(fb).spec_bpp(),
        final(fb)@ == apply_ops(
            img,
            *font,
            ops + strip_ops(
                old(fb).spec_width() as int,
                old(fb).spec_height() as int,
                wad,
                free_mib as nat,
                ticks_ms as nat,
            ),
        ),
{
    proof {
        lemma_menu_texts();
    }
    let ghost mut acc = ops;
    let h = STRIP_H;
    let y = fb.height() - h;
    let w = fb.width();
    fb.fill_rect(0, y, w, h, SURFACE_RAISED);
    proof {
        let op = rect_op(0, y as int, w as int, h as int, SURFACE_RAISED);
        lemma_apply_push(img, *font, acc, op);
        acc = acc.push(op);
    }
    fb.fill_rect(0, y, w, 1, BORDER_DEFAULT);
    proof {
        let op = rect_op(0, y as int, w as int, 1, BORDER_DEFAULT);
        lemma_apply_push(img, *font, acc, op);
        acc = acc.push(op);
    }
    let up = ticks_ms / 1000;
    let mut left = Vec::new();
    append(&mut left, "MEM ".as_bytes());
    let mib = format_decimal(free_mib as u64);
    append(&mut left, mib.as_slice());
    append(&mut left, " MIB FREE   UPTIME ".as_bytes());
    let secs = format_decimal(up);
    append(&mut left, secs.as_slice());
    append(&mut left, "S".as_bytes());
    proof {
        lemma_decimal_u64(free_mib as u64);
        lemma_decimal_u64(up);
        assert(left@ =~= status_left(free_mib as nat, (ticks_ms / 1000) as nat));
        assert(left@.len() <= 64);
        assert(16 + left@.len() * 8 * 1 <= usize::MAX);
    }
    draw_text(fb, font, 16, y + 10, 1, TEXT_SECONDARY, SURFACE_RAISED, left.as_slice());
    proof {
        let op = text_op(16, y + 10, 1, TEXT_SECONDARY, SURFACE_RAISED, left@);
        lemma_apply_push(img, *font, acc, op);
        acc = acc.push(op);
    }
    let (wtext, wcolor) = wad_status_text(wad);
    let wx = w - 16 - text_w(wtext.len(), 1);
    draw_text(fb, font, wx, y + 10, 1, wcolor, SURFACE_RAISED, wtext.as_slice());
    proof {
        let op = text_op(wx as int, y + 10, 1, wcolor, SURFACE_RAISED, wtext@);
        lemma_apply_push(img, *font, acc, op);
        acc = acc.push(op);
        assert(acc =~= ops + strip_ops(w as int, fb.spec_height() as int, wad, free_mib as nat, ticks_ms as nat));
    }
}


/// The first `n` menu rows, one under the other from `rows_y` down.
pub open spec fn rows_ops(px: int, rows_y: int, sel: int, wad_loaded: bool, n: nat) -> Seq<DrawOp>
    decreases n,
{
    if n == 0 {
        Seq::empty()
    } else {
        rows_ops(px, rows_y, sel, wad_loaded, (n - 1) as nat) + row_ops(
            px,
            rows_y + (n - 1) * ROW_H,
            n - 1,
            n - 1 == sel,
            wad_loaded,
        )
    }
}

/// `a - b`, or zero when `b` is larger.
pub open spec fn saturating_sub(a: int, b: int) -> int {
    if a > b {
        a - b
    } else {
        0
    }
}

/// The menu's panel, wordmark, version and divider.
pub open spec fn head_ops(width: int, height: int) -> Seq<DrawOp> {
    let px = saturating_sub(width, PANEL_W as int) / 2;
    let py = saturating_sub(height, PANEL_H as int) / 2;
    let title = "RozeOS".spec_bytes();
    let ver = "version 0.1".spec_bytes();
    seq![rect_op(0, 0, width, height, SURFACE_BASE), rect_op(px, py, PANEL_W as int, PANEL_H as int, SURFACE_PANEL)]
        + frame_ops(px, py, PANEL_W as int, PANEL_H as int, BORDER_STRONG)
        + seq![
            text_op(px + (PANEL_W - title.len() * 32) / 2, py + 24, 4, TEXT_PRIMARY, SURFACE_PANEL, title),
            text_op(px + (PANEL_W - ver.len() * 16) / 2, py + 64, 2, TEXT_MUTED, SURFACE_PANEL, ver),
            rect_op(px + 1, py + 92, PANEL_W - 2, 1, BORDER_DEFAULT),
        ]
}

/// The menu's footer: a divider and the key hints under the rows.
pub open spec fn foot_ops(width: int, height: int) -> Seq<DrawOp> {
    let px = saturating_sub(width, PANEL_W as int) / 2;
    let py = saturating_sub(height, PANEL_H as int) / 2;
    let hint = "UP/DOWN SELECT   ENTER LAUNCH   1-5 JUMP".spec_bytes();
    let fy = py + 104 + ENTRY_COUNT * ROW_H + 8;
    seq![
        rect_op(px + 1, fy, PANEL_W - 2, 1, BORDER_DEFAULT),
        text_op(px + (PANEL_W - hint.len() * 8) / 2, fy + 13, 1, TEXT_MUTED, SURFACE_PANEL, hint),
    ]
}

/// The menu screen: a panel centered on the screen with the wordmark,
/// the version, the five entries with `sel` highlighted, a footer with
/// the key hints, and the status strip at the bottom of the screen.
pub open spec fn menu_ops(width: int, height: int, sel: int, wad: Option<usize>, free_mib: nat, ticks_ms: nat) -> Seq<DrawOp> {
    let px = saturating_sub(width, PANEL_W as int) / 2;
    let py = saturating_sub(height, PANEL_H as int) / 2;
    head_ops(width, height) + rows_ops(px, py + 104, sel, wad is Some, ENTRY_COUNT as nat) + foot_ops(
        width,
        height,
    ) + strip_ops(width, height, wad, free_mib, ticks_ms)
}

fn draw_menu_head(fb: &mut Framebuffer, font: &Font)
    requires
        old(fb).wf(),
        font.wf(),
        old(fb).spec_width() <= usize::MAX / 4,
        old(fb).spec_height() <= usize::MAX / 4,
    ensures
        final(fb).wf(),
        final(fb).spec_width() == old(fb).spec_width(),
        final(fb).spec_height() == old(fb).spec_height(),
        final(fb).spec_pitch() == old(fb).spec_pitch(),
        final(fb).spec_bpp() == old(fb).spec_bpp(),
        final(fb)@ == apply_ops(old(fb)@, *font, head_ops(old(fb).spec_width() as int, old(fb).spec_height() as int)),
{
    proof {
        lemma_menu_texts();
    }
    let ghost img = fb@;
    let ghost mut acc: Seq<DrawOp> = Seq::empty();
    let w = fb.width();
    let h = fb.height();
    fb.clear(SURFACE_BASE);
    proof {
        let op = rect_op(0, 0, w as int, h as int, SURFACE_BASE);
        lemma_apply_push(img, *font, acc, op);
        acc = acc.push(op);
    }
    let px = w.saturating_sub(PANEL_W) / 2;
    let py = h.saturating_sub(PANEL_H) / 2;
    fb.fill_rect(px, py, PANEL_W, PANEL_H, SURFACE_PANEL);
    proof {
        let op = rect_op(px as int, py as int, PANEL_W as int, PANEL_H as int, SURFACE_PANEL);
        lemma_apply_push(img, *font, acc, op);
        acc = acc.push(op);
    }
    frame(fb, px, py, PANEL_W, PANEL_H, BORDER_STRONG, Ghost(*font), Ghost(acc), Ghost(img));
    proof {
        acc = acc + frame_ops(px as int, py as int, PANEL_W as int, PANEL_H as int, BORDER_STRONG);
    }
    let title = "RozeOS".as_bytes();
    let tx = px + (PANEL_W - text_w(title.len(), 4)) / 2;
    draw_text(fb, font, tx, py + 24, 4, TEXT_PRIMARY, SURFACE_PANEL, title);
    proof {
        let op = text_op(tx as int, py + 24, 4, TEXT_PRIMARY, SURFACE_PANEL, title@);
        lemma_apply_push(img, *font, acc, op);
        acc = acc.push(op);
    }
    let ver = "version 0.1".as_bytes();
    let vx = px + (PANEL_W - text_w(ver.len(), 2)) / 2;
    draw_text(fb, font, vx, py + 64, 2, TEXT_MUTED, SURFACE_PANEL, ver);
    proof {
        let op = text_op(vx as int, py + 64, 2, TEXT_MUTED, SURFACE_PANEL, ver@);
        lemma_apply_push(img, *font, acc, op);
        acc = acc.push(op);
    }
    fb.fill_rect(px + 1, py + 92, PANEL_W - 2, 1, BORDER_DEFAULT);
    proof {
        let op = rect_op(px + 1, py + 92, PANEL_W - 2, 1, BORDER_DEFAULT);
        lemma_apply_push(img, *font, acc, op);
        acc = acc.push(op);
        assert(acc =~= head_ops(w as int, h as int));
    }
}

fn draw_menu_foot(fb: &mut Framebuffer, font: &Font, Ghost(img): Ghost<Seq<Seq<u32>>>, Ghost(ops): Ghost<Seq<DrawOp>>)
    requires
        old(fb).wf(),
        font.wf(),
        old(fb)@ == apply_ops(img, *font, ops),
        old(fb).spec_width() <= usize::MAX / 4,
        old(fb).spec_height() <= usize::MAX / 4,
    ensures
        final(fb).wf(),
        final(fb).spec_width() == old(fb).spec_width(),
        final(fb).spec_height() == old(fb).spec_height(),
        final(fb).spec_pitch() == old(fb).spec_pitch(),
        final(fb).spec_bpp() == old(fb).spec_bpp(),
        final(fb)@ == apply_ops(img, *font, ops + foot_ops(old(fb).spec_width() as int, old(fb).spec_height() as int)),
{
    proof {
        lemma_menu_texts();
    }
    let ghost mut acc = ops;
    let w = fb.width();
    let h = fb.height();
    let px = w.saturating_sub(PANEL_W) / 2;
    let py = h.saturating_sub(PANEL_H) / 2;
    let fy = py + 104 + ENTRY_COUNT * ROW_H + 8;
    fb.fill_rect(px + 1, fy, PANEL_W - 2, 1, BORDER_DEFAULT);
    proof {
        let op = rect_op(px + 1, fy as int, PANEL_W - 2, 1, BORDER_DEFAULT);
        lemma_apply_push(img, *font, acc, op);
        acc = acc.push(op);
    }
    let hint = "UP/DOWN SELECT   ENTER LAUNCH   1-5 JUMP".as_bytes();
    let hx = px + (PANEL_W - text_w(hint.len(), 1)) / 2;
    draw_text(fb, font, hx, fy + 13, 1, TEXT_MUTED, SURFACE_PANEL, hint);
    proof {
        let op = text_op(hx as int, fy + 13, 1, TEXT_MUTED, SURFACE_PANEL, hint@);
        lemma_apply_push(img, *font, acc, op);
        acc = acc.push(op);
        assert(acc =~= ops + foot_ops(w as int, h as int));
    }
}

/// Paint the whole menu screen with entry `sel` selected. `wad` is the
/// size of the loaded WAD, if any; `free_mib` and `ticks_ms` feed the
/// status strip.
pub fn draw_menu(
    fb: &mut Framebuffer,
    font: &Font,
    sel: usize,
    wad: Option<usize>,
    free_mib: usize,
    ticks_ms: u64,
)
    requires
        old(fb).wf(),
        font.wf(),
        sel < ENTRY_COUNT,
        old(fb).spec_width() <= usize::MAX / 4,
        old(fb).spec_height() <= usize::MAX / 4,
        strip_fits(old(fb).spec_width() as int, old(fb).spec_height() as int, wad),
    ensures
        final(fb).wf(),
        final(fb).spec_width() == old(fb).spec_width(),
        final(fb).spec_height() == old(fb).spec_height(),
        final(fb).spec_pitch() == old(fb).spec_pitch(),
        final(fb).spec_bpp() == old(fb).spec_bpp(),
        final(fb)@ == apply_ops(
            old(fb)@,
            *font,
            menu_ops(
                old(fb).spec_width() as int,
                old(fb).spec_height() as int,
                sel as int,
                wad,
                free_mib as nat,
                ticks_ms as nat,
            ),
        ),
{
    let ghost img = fb@;
    let w = fb.width();
    let h = fb.height();
    draw_menu_head(fb, font);
    let ghost head = head_ops(w as int, h as int);
    let px = w.saturating_sub(PANEL_W) / 2;
    let py = h.saturating_sub(PANEL_H) / 2;

    // entry rows
    let rows_y = py + 104;
    let wad_loaded = wad.is_some();
    let mut i: usize = 0;
    while i < ENTRY_COUNT
        invariant
            fb.wf(),
            font.wf(),
            i <= ENTRY_COUNT,
            sel < ENTRY_COUNT,
            px + 4096 <= usize::MAX,
            rows_y + 300 <= usize::MAX,
            wad_loaded == wad is Some,
            fb.spec_width() == old(fb).spec_width(),
            fb.spec_height() == old(fb).spec_height(),
            fb.spec_pitch() == old(fb).spec_pitch(),
            fb.spec_bpp() == old(fb).spec_bpp(),
            fb@ == apply_ops(img, *font, head + rows_ops(px as int, rows_y as int, sel as int, wad_loaded, i as nat)),
        decreases ENTRY_COUNT - i,
    {
        draw_row(fb, font, px, rows_y + i * ROW_H, i, i == sel, wad_loaded, Ghost(img), Ghost(head + rows_ops(px as int, rows_y as int, sel as int, wad_loaded, i as nat)));
        proof {
            let r = row_ops(px as int, rows_y + i * ROW_H, i as int, i == sel, wad_loaded);
            assert(head + rows_ops(px as int, rows_y as int, sel as int, wad_loaded, i as nat) + r =~= head + rows_ops(px as int, rows_y as int, sel as int, wad_loaded, (i + 1) as nat));
        }
        i = i + 1;
    }
    let ghost body = head + rows_ops(px as int, rows_y as int, sel as int, wad_loaded, ENTRY_COUNT as nat);
    draw_menu_foot(fb, font, Ghost(img), Ghost(body));
    draw_status_strip(fb, font, wad, free_mib, ticks_ms, Ghost(img), Ghost(body + foot_ops(w as int, h as int)));
    proof {
        assert(body + foot_ops(w as int, h as int) + strip_ops(w as int, h as int, wad, free_mib as nat, ticks_ms as nat) =~= menu_ops(
            w as int,
            h as int,
            sel as int,
            wad,
            free_mib as nat,
            ticks_ms as nat,
        ));
    }
}


/// The label of system info row `i`.
pub open spec fn info_key(i: int) -> Seq<u8> {
    if i == 0 {
        "boot protocol".spec_bytes()
    } else if i == 1 {
        "architecture".spec_bytes()
    } else if i == 2 {
        "framebuffer".spec_bytes()
    } else if i == 3 {
        "memory free".spec_bytes()
    } else if i == 4 {
        "kernel heap".spec_bytes()
    } else if i == 5 {
        "timer".spec_bytes()
    } else if i == 6 {
        "uptime".spec_bytes()
    } else {
        "wad".spec_bytes()
    }
}

/// The facts the system info screen shows.
pub struct SystemFacts {
    pub fb_width: usize,
    pub fb_height: usize,
    pub fb_bpp: usize,
    pub free_mib: usize,
    pub ticks_ms: u64,
    /// Size of the loaded WAD in bytes, if any.
    pub wad: Option<usize>,
}

/// The value of system info row `i`.
pub open spec fn info_value(i: int, f: SystemFacts) -> Seq<u8> {
    if i == 0 {
        "limine".spec_bytes()
    } else if i == 1 {
        "x86_64".spec_bytes()
    } else if i == 2 {
        decimal(f.fb_width as nat) + "x".spec_bytes() + decimal(f.fb_height as nat) + "x".spec_bytes()
            + decimal(f.fb_bpp as nat)
    } else if i == 3 {
        decimal(f.free_mib as nat) + " MiB".spec_bytes()
    } else if i == 4 {
        decimal((HEAP_SIZE / 1048576) as nat) + " MiB".spec_bytes()
    } else if i == 5 {
        "PIT ".spec_bytes() + decimal(HZ as nat) + " Hz".spec_bytes()
    } else if i == 6 {
        decimal(f.ticks_ms as nat) + " ms".spec_bytes()
    } else {
        match f.wad {
            Some(len) => decimal((len / 1024) as nat) + " KiB".spec_bytes(),
            None => "not loaded".spec_bytes(),
        }
    }
}

/// The first `n` key and value rows of the system info panel.
pub open spec fn info_rows_ops(px: int, py: int, f: SystemFacts, n: nat) -> Seq<DrawOp>
    decreases n,
{
    if n == 0 {
        Seq::empty()
    } else {
        let i = n - 1;
        let y = py + 80 + i * 32;
        info_rows_ops(px, py, f, (n - 1) as nat) + seq![
            text_op(px + 24, y, 2, TEXT_MUTED, SURFACE_PANEL, info_key(i)),
            text_op(px + 240, y, 2, TEXT_PRIMARY, SURFACE_PANEL, info_value(i, f)),
        ]
    }
}

/// System info panel size.
pub const INFO_W: usize = 512;
pub const INFO_H: usize = 384;

/// Number of system info rows.
pub const INFO_ROWS: usize = 8;

/// The system info screen: a centered panel with a title, one row per
/// fact and the way back.
pub open spec fn sysinfo_ops(width: int, height: int, f: SystemFacts) -> Seq<DrawOp> {
    let px = saturating_sub(width, INFO_W as int) / 2;
    let py = saturating_sub(height, INFO_H as int) / 2;
    sysinfo_head_ops(width, height) + info_rows_ops(px, py, f, INFO_ROWS as nat) + seq![
        text_op(px + 24, py + INFO_H - 24, 1, TEXT_MUTED, SURFACE_PANEL, "ESC BACK".spec_bytes()),
    ]
}

/// The system info panel, its title and divider.
pub open spec fn sysinfo_head_ops(width: int, height: int) -> Seq<DrawOp> {
    let px = saturating_sub(width, INFO_W as int) / 2;
    let py = saturating_sub(height, INFO_H as int) / 2;
    seq![rect_op(0, 0, width, height, SURFACE_BASE), rect_op(px, py, INFO_W as int, INFO_H as int, SURFACE_PANEL)]
        + frame_ops(px, py, INFO_W as int, INFO_H as int, BORDER_STRONG)
        + seq![
            text_op(px + 24, py + 24, 3, TEXT_PRIMARY, SURFACE_PANEL, "System Info".spec_bytes()),
            rect_op(px + 1, py + 60, INFO_W - 2, 1, BORDER_DEFAULT),
        ]
}

proof fn lemma_info_frame_texts()
    ensures
        "System Info".spec_bytes().len() == 11,
        "ESC BACK".spec_bytes().len() == 8,
{
    reveal_strlit("System Info");
    reveal_strlit("ESC BACK");
    assert(vstd::string::is_ascii("System Info"));
    assert(vstd::string::is_ascii("ESC BACK"));
    vstd::string::is_ascii_spec_bytes("System Info");
    vstd::string::is_ascii_spec_bytes("ESC BACK");
}

/// The lengths of the fixed texts of the system info screen.
proof fn lemma_info_texts()
    ensures
        "boot protocol".spec_bytes().len() == 13,
        "architecture".spec_bytes().len() == 12,
        "framebuffer".spec_bytes().len() == 11,
        "memory free".spec_bytes().len() == 11,
        "kernel heap".spec_bytes().len() == 11,
        "timer".spec_bytes().len() == 5,
        "uptime".spec_bytes().len() == 6,
        "wad".spec_bytes().len() == 3,
        "limine".spec_bytes().len() == 6,
        "x86_64".spec_bytes().len() == 6,
        "x".spec_bytes().len() == 1,
        " MiB".spec_bytes().len() == 4,
        "PIT ".spec_bytes().len() == 4,
        " Hz".spec_bytes().len() == 3,
        " ms".spec_bytes().len() == 3,
        " KiB".spec_bytes().len() == 4,
        "not loaded".spec_bytes().len() == 10,
        "System Info".spec_bytes().len() == 11,
        "ESC BACK".spec_bytes().len() == 8,
{
    reveal_strlit("boot protocol");
    reveal_strlit("architecture");
    reveal_strlit("framebuffer");
    reveal_strlit("memory free");
    reveal_strlit("kernel heap");
    reveal_strlit("timer");
    reveal_strlit("uptime");
    reveal_strlit("wad");
    reveal_strlit("limine");
    reveal_strlit("x86_64");
    reveal_strlit("x");
    reveal_strlit(" MiB");
    reveal_strlit("PIT ");
    reveal_strlit(" Hz");
    reveal_strlit(" ms");
    reveal_strlit(" KiB");
    reveal_strlit("not loaded");
    reveal_strlit("System Info");
    reveal_strlit("ESC BACK");
    assert(vstd::string::is_ascii("boot protocol"));
    assert(vstd::string::is_ascii("architecture"));
    assert(vstd::string::is_ascii("framebuffer"));
    assert(vstd::string::is_ascii("memory free"));
    assert(vstd::string::is_ascii("kernel heap"));
    assert(vstd::string::is_ascii("timer"));
    assert(vstd::string::is_ascii("uptime"));
    assert(vstd::string::is_ascii("wad"));
    assert(vstd::string::is_ascii("limine"));
    assert(vstd::string::is_ascii("x86_64"));
    assert(vstd::string::is_ascii("x"));
    assert(vstd::string::is_ascii(" MiB"));
    assert(vstd::string::is_ascii("PIT "));
    assert(vstd::string::is_ascii(" Hz"));
    assert(vstd::string::is_ascii(" ms"));
    assert(vstd::string::is_ascii(" KiB"));
    assert(vstd::string::is_ascii("not loaded"));
    assert(vstd::string::is_ascii("System Info"));
    assert(vstd::string::is_ascii("ESC BACK"));
    vstd::string::is_ascii_spec_bytes("boot protocol");
    vstd::string::is_ascii_spec_bytes("architecture");
    vstd::string::is_ascii_spec_bytes("framebuffer");
    vstd::string::is_ascii_spec_bytes("memory free");
    vstd::string::is_ascii_spec_bytes("kernel heap");
    vstd::string::is_ascii_spec_bytes("timer");
    vstd::string::is_ascii_spec_bytes("uptime");
    vstd::string::is_ascii_spec_bytes("wad");
    vstd::string::is_ascii_spec_bytes("limine");
    vstd::string::is_ascii_spec_bytes("x86_64");
    vstd::string::is_ascii_spec_bytes("x");
    vstd::string::is_ascii_spec_bytes(" MiB");
    vstd::string::is_ascii_spec_bytes("PIT ");
    vstd::string::is_ascii_spec_bytes(" Hz");
    vstd::string::is_ascii_spec_bytes(" ms");
    vstd::string::is_ascii_spec_bytes(" KiB");
    vstd::string::is_ascii_spec_bytes("not loaded");
    vstd::string::is_ascii_spec_bytes("System Info");
    vstd::string::is_ascii_spec_bytes("ESC BACK");
}

fn info_key_bytes(i: usize) -> (s: &'static [u8])
    requires
        i < INFO_ROWS,
    ensures
        s@ == info_key(i as int),
        s@.len() <= 13,
{
    proof {
        lemma_info_texts();
    }
    match i {
        0 => "boot protocol".as_bytes(),
        1 => "architecture".as_bytes(),
        2 => "framebuffer".as_bytes(),
        3 => "memory free".as_bytes(),
        4 => "kernel heap".as_bytes(),
        5 => "timer".as_bytes(),
        6 => "uptime".as_bytes(),
        _ => "wad".as_bytes(),
    }
}

fn info_value_bytes(i: usize, f: &SystemFacts) -> (v: Vec<u8>)
    requires
        i < INFO_ROWS,
    ensures
        v@ == info_value(i as int, *f),
        v@.len() <= 64,
{
    proof {
        lemma_info_texts();
        lemma_decimal_u64(f.fb_width as u64);
        lemma_decimal_u64(f.fb_height as u64);
        lemma_decimal_u64(f.fb_bpp as u64);
        lemma_decimal_u64(f.free_mib as u64);
        lemma_decimal_u64((HEAP_SIZE / 1048576) as u64);
        lemma_decimal_u64(HZ as u64);
        lemma_decimal_u64(f.ticks_ms);
    }
    let mut v = Vec::new();
    match i {
        0 => append(&mut v, "limine".as_bytes()),
        1 => append(&mut v, "x86_64".as_bytes()),
        2 => {
            append(&mut v, format_decimal(f.fb_width as u64).as_slice());
            append(&mut v, "x".as_bytes());
            append(&mut v, format_decimal(f.fb_height as u64).as_slice());
            append(&mut v, "x".as_bytes());
            append(&mut v, format_decimal(f.fb_bpp as u64).as_slice());
        },
        3 => {
            append(&mut v, format_decimal(f.free_mib as u64).as_slice());
            append(&mut v, " MiB".as_bytes());
        },
        4 => {
            append(&mut v, format_decimal((HEAP_SIZE / 1048576) as u64).as_slice());
            append(&mut v, " MiB".as_bytes());
        },
        5 => {
            append(&mut v, "PIT ".as_bytes());
            append(&mut v, format_decimal(HZ as u64).as_slice());
            append(&mut v, " Hz".as_bytes());
        },
        6 => {
            append(&mut v, format_decimal(f.ticks_ms).as_slice());
            append(&mut v, " ms".as_bytes());
        },
        _ => match f.wad {
            Some(len) => {
                proof {
                    lemma_decimal_u64((len / 1024) as u64);
                }
                append(&mut v, format_decimal((len / 1024) as u64).as_slice());
                append(&mut v, " KiB".as_bytes());
            },
            None => append(&mut v, "not loaded".as_bytes()),
        },
    }
    assert(v@ =~= info_value(i as int, *f));
    v
}

fn draw_info_rows(
    fb: &mut Framebuffer,
    font: &Font,
    px: usize,
    py: usize,
    facts: &SystemFacts,
    Ghost(img): Ghost<Seq<Seq<u32>>>,
    Ghost(head): Ghost<Seq<DrawOp>>,
)
    requires
        old(fb).wf(),
        font.wf(),
        old(fb)@ == apply_ops(img, *font, head),
        px + 4096 <= usize::MAX,
        py + 4096 <= usize::MAX,
    ensures
        final(fb).wf(),
        final(fb).spec_width() == old(fb).spec_width(),
        final(fb).spec_height() == old(fb).spec_height(),
        final(fb).spec_pitch() == old(fb).spec_pitch(),
        final(fb).spec_bpp() == old(fb).spec_bpp(),
        final(fb)@ == apply_ops(img, *font, head + info_rows_ops(px as int, py as int, *facts, INFO_ROWS as nat)),
{
    assert(head + info_rows_ops(px as int, py as int, *facts, 0) =~= head);
    let mut i: usize = 0;
    while i < INFO_ROWS
        invariant
            fb.wf(),
            font.wf(),
            i <= INFO_ROWS,
            px + 4096 <= usize::MAX,
            py + 4096 <= usize::MAX,
            fb.spec_width() == old(fb).spec_width(),
            fb.spec_height() == old(fb).spec_height(),
            fb.spec_pitch() == old(fb).spec_pitch(),
            fb.spec_bpp() == old(fb).spec_bpp(),
            fb@ == apply_ops(img, *font, head + info_rows_ops(px as int, py as int, *facts, i as nat)),
        decreases INFO_ROWS - i,
    {
        let y = py + 80 + i * 32;
        let key = info_key_bytes(i);
        let value = info_value_bytes(i, facts);
        let ghost before = head + info_rows_ops(px as int, py as int, *facts, i as nat);
        assert(px + 24 + key@.len() * 8 * 2 <= usize::MAX);
        assert(y + 8 * 2 <= usize::MAX);
        draw_text(fb, font, px + 24, y, 2, TEXT_MUTED, SURFACE_PANEL, key);
        proof {
            lemma_apply_push(img, *font, before, text_op(px + 24, y as int, 2, TEXT_MUTED, SURFACE_PANEL, key@));
        }
        assert(px + 240 + value@.len() * 8 * 2 <= usize::MAX);
        draw_text(fb, font, px + 240, y, 2, TEXT_PRIMARY, SURFACE_PANEL, value.as_slice());
        proof {
            let k = text_op(px + 24, y as int, 2, TEXT_MUTED, SURFACE_PANEL, key@);
            let v = text_op(px + 240, y as int, 2, TEXT_PRIMARY, SURFACE_PANEL, value@);
            lemma_apply_push(img, *font, before.push(k), v);
            assert(before.push(k).push(v) =~= head + info_rows_ops(px as int, py as int, *facts, (i + 1) as nat));
        }
        i = i + 1;
    }
}

/// Paint the system info screen.
pub fn sysinfo_screen(fb: &mut Framebuffer, font: &Font, facts: &SystemFacts)
    requires
        old(fb).wf(),
        font.wf(),
        old(fb).spec_width() <= usize::MAX / 4,
        old(fb).spec_height() <= usize::MAX / 4,
    ensures
        final(fb).wf(),
        final(fb).spec_width() == old(fb).spec_width(),
        final(fb).spec_height() == old(fb).spec_height(),
        final(fb).spec_pitch() == old(fb).spec_pitch(),
        final(fb).spec_bpp() == old(fb).spec_bpp(),
        final(fb)@ == apply_ops(
            old(fb)@,
            *font,
            sysinfo_ops(old(fb).spec_width() as int, old(fb).spec_height() as int, *facts),
        ),
{
    proof {
        lemma_info_frame_texts();
    }
    let ghost img = fb@;
    let ghost mut acc: Seq<DrawOp> = Seq::empty();
    let w = fb.width();
    let h = fb.height();
    fb.clear(SURFACE_BASE);
    proof {
        let op = rect_op(0, 0, w as int, h as int, SURFACE_BASE);
        lemma_apply_push(img, *font, acc, op);
        acc = acc.push(op);
    }
    let px = w.saturating_sub(INFO_W) / 2;
    let py = h.saturating_sub(INFO_H) / 2;
    fb.fill_rect(px, py, INFO_W, INFO_H, SURFACE_PANEL);
    proof {
        let op = rect_op(px as int, py as int, INFO_W as int, INFO_H as int, SURFACE_PANEL);
        lemma_apply_push(img, *font, acc, op);
        acc = acc.push(op);
    }
    frame(fb, px, py, INFO_W, INFO_H, BORDER_STRONG, Ghost(*font), Ghost(acc), Ghost(img));
    proof {
        acc = acc + frame_ops(px as int, py as int, INFO_W as int, INFO_H as int, BORDER_STRONG);
    }
    let title = "System Info".as_bytes();
    proof {
        lemma_info_frame_texts();
        assert(title@ == "System Info".spec_bytes());
        assert(title@.len() == 11);
        assert(px + 24 + title@.len() * 8 * 3 <= usize::MAX);
        assert(py + 24 + 8 * 3 <= usize::MAX);
        assert(op_fits(text_op(px + 24, py + 24, 3, TEXT_PRIMARY, SURFACE_PANEL, title@)));
    }
    draw_text(fb, font, px + 24, py + 24, 3, TEXT_PRIMARY, SURFACE_PANEL, title);
    proof {
        let op = text_op(px + 24, py + 24, 3, TEXT_PRIMARY, SURFACE_PANEL, "System Info".spec_bytes());
        lemma_apply_push(img, *font, acc, op);
        acc = acc.push(op);
    }
    fb.fill_rect(px + 1, py + 60, INFO_W - 2, 1, BORDER_DEFAULT);
    proof {
        let op = rect_op(px + 1, py + 60, INFO_W - 2, 1, BORDER_DEFAULT);
        lemma_apply_push(img, *font, acc, op);
        acc = acc.push(op);
    }
    proof {
        assert(acc =~= sysinfo_head_ops(w as int, h as int));
    }
    draw_info_rows(fb, font, px, py, facts, Ghost(img), Ghost(acc));
    let ghost rows = info_rows_ops(px as int, py as int, *facts, INFO_ROWS as nat);
    proof {
        acc = acc + rows;
    }
    let back = "ESC BACK".as_bytes();
    proof {
        lemma_info_frame_texts();
        assert(back@ == "ESC BACK".spec_bytes());
        assert(back@.len() == 8);
        assert(px + 24 + back@.len() * 8 * 1 <= usize::MAX);
        assert(py + INFO_H - 24 + 8 * 1 <= usize::MAX);
        assert(py + INFO_H - 24 >= 0);
        assert(op_fits(text_op(px + 24, py + INFO_H - 24, 1, TEXT_MUTED, SURFACE_PANEL, back@)));
    }
    draw_text(fb, font, px + 24, py + INFO_H - 24, 1, TEXT_MUTED, SURFACE_PANEL, back);
    proof {
        let op = text_op(px + 24, py + INFO_H - 24, 1, TEXT_MUTED, SURFACE_PANEL, "ESC BACK".spec_bytes());
        lemma_apply_push(img, *font, acc, op);
        assert(acc.push(op) =~= acc + seq![op]);
    }
}

/// The swatch colors of the graphics test: the raw palette.
pub open spec fn palette(i: int) -> u32 {
    if i == 0 {
        TEXT_PRIMARY
    } else if i == 1 {
        TEXT_SECONDARY
    } else if i == 2 {
        TEXT_MUTED
    } else if i == 3 {
        SIGNAL_PRIMARY
    } else if i == 4 {
        SIGNAL_SECONDARY
    } else if i == 5 {
        0x0016_8cff  // electric blue
    } else if i == 6 {
        0x0037_6bd9  // cold blue
    } else if i == 7 {
        STATUS_WARNING
    } else if i == 8 {
        STATUS_DANGER
    } else if i == 9 {
        0x00cc_5edb  // magenta
    } else if i == 10 {
        0x0063_dc8b  // success
    } else {
        0x0010_2526  // deep petrol
    }
}

/// Number of palette swatches.
pub const SWATCHES: usize = 12;

/// Swatch size in pixels.
pub const SWATCH_W: usize = 64;

/// The first `n` palette swatches, left to right, each outlined.
pub open spec fn swatch_ops(n: nat) -> Seq<DrawOp>
    decreases n,
{
    if n == 0 {
        Seq::empty()
    } else {
        let x = 32 + (n - 1) * 72;
        swatch_ops((n - 1) as nat) + seq![rect_op(x, 96, SWATCH_W as int, SWATCH_W as int, palette(n - 1))]
            + frame_ops(x, 96, SWATCH_W as int, SWATCH_W as int, BORDER_STRONG)
    }
}

/// The shift that puts a ramp value in ramp `bi`'s channel: red, green,
/// then blue.
pub open spec fn ramp_shift(bi: int) -> u32 {
    if bi == 0 {
        16
    } else if bi == 1 {
        8
    } else {
        0
    }
}

/// The color of column `i` of a ramp `bar_w` columns wide: the channel
/// value rises from 0 towards 255 across the bar.
pub open spec fn ramp_color(i: int, bar_w: int, shift: u32) -> u32 {
    ((i * 255 / (if bar_w > 1 { bar_w } else { 1 })) as u32) << shift
}

/// The first `n` columns of a ramp at height `y`.
pub open spec fn ramp_columns(y: int, bar_w: int, shift: u32, n: nat) -> Seq<DrawOp> {
    Seq::new(n, |i: int| rect_op(32 + i, y, 1, 40, ramp_color(i, bar_w, shift)))
}

/// The first `n` channel ramps, one under the other, each outlined.
pub open spec fn ramps_ops(bar_w: int, n: nat) -> Seq<DrawOp>
    decreases n,
{
    if n == 0 {
        Seq::empty()
    } else {
        let y = 192 + (n - 1) * 48;
        ramps_ops(bar_w, (n - 1) as nat) + ramp_columns(y, bar_w, ramp_shift(n - 1), bar_w as nat)
            + frame_ops(32, y, bar_w, 40, BORDER_DEFAULT)
    }
}

/// The font specimen line.
pub open spec fn specimen() -> Seq<u8> {
    "THE QUICK BROWN FOX JUMPS OVER THE LAZY DOG 0123456789".spec_bytes()
}

/// The graphics test: palette swatches, one ramp per color channel, the
/// font at the scales the interface uses, and the way back.
pub open spec fn graphics_ops(width: int, height: int) -> Seq<DrawOp> {
    seq![
        rect_op(0, 0, width, height, SURFACE_BASE),
        text_op(32, 32, 3, TEXT_PRIMARY, SURFACE_BASE, "Graphics Test".spec_bytes()),
    ] + swatch_ops(SWATCHES as nat) + ramps_ops(width - 64, 3) + seq![
        text_op(32, 352, 1, TEXT_SECONDARY, SURFACE_BASE, specimen()),
        text_op(32, 372, 2, TEXT_SECONDARY, SURFACE_BASE, specimen()),
        text_op(32, height - 48, 1, TEXT_MUTED, SURFACE_BASE, "ESC BACK".spec_bytes()),
    ]
}

/// The screen sizes the graphics test can be drawn on: room for the
/// ramps' margins and the bottom line, and ramp values that do not
/// overflow.
pub open spec fn graphics_fits(width: int, height: int) -> bool {
    &&& width >= 64
    &&& height >= 48
    &&& width - 64 <= 1 || (width - 64 - 1) * 255 <= usize::MAX
}

proof fn lemma_graphics_texts()
    ensures
        "Graphics Test".spec_bytes().len() == 13,
        specimen().len() == 54,
        "ESC BACK".spec_bytes().len() == 8,
{
    reveal_strlit("Graphics Test");
    reveal_strlit("THE QUICK BROWN FOX JUMPS OVER THE LAZY DOG 0123456789");
    reveal_strlit("ESC BACK");
    assert(vstd::string::is_ascii("Graphics Test"));
    assert(vstd::string::is_ascii("THE QUICK BROWN FOX JUMPS OVER THE LAZY DOG 0123456789"));
    assert(vstd::string::is_ascii("ESC BACK"));
    vstd::string::is_ascii_spec_bytes("Graphics Test");
    vstd::string::is_ascii_spec_bytes("THE QUICK BROWN FOX JUMPS OVER THE LAZY DOG 0123456789");
    vstd::string::is_ascii_spec_bytes("ESC BACK");
}

fn palette_color(i: usize) -> (c: Color)
    requires
        i < SWATCHES,
    ensures
        c == palette(i as int),
{
    let colors: [Color; 12] = [
        TEXT_PRIMARY,
        TEXT_SECONDARY,
        TEXT_MUTED,
        SIGNAL_PRIMARY,
        SIGNAL_SECONDARY,
        0x0016_8cff,
        0x0037_6bd9,
        STATUS_WARNING,
        STATUS_DANGER,
        0x00cc_5edb,
        0x0063_dc8b,
        0x0010_2526,
    ];
    colors[i]
}

/// Paint the graphics test screen.
pub fn graphics_test_screen(fb: &mut Framebuffer, font: &Font)
    requires
        old(fb).wf(),
        font.wf(),
        old(fb).spec_width() <= usize::MAX / 4,
        old(fb).spec_height() <= usize::MAX / 4,
        graphics_fits(old(fb).spec_width() as int, old(fb).spec_height() as int),
    ensures
        final(fb).wf(),
        final(fb).spec_width() == old(fb).spec_width(),
        final(fb).spec_height() == old(fb).spec_height(),
        final(fb).spec_pitch() == old(fb).spec_pitch(),
        final(fb).spec_bpp() == old(fb).spec_bpp(),
        final(fb)@ == apply_ops(
            old(fb)@,
            *font,
            graphics_ops(old(fb).spec_width() as int, old(fb).spec_height() as int),
        ),
{
    proof {
        lemma_graphics_texts();
    }
    let ghost img = fb@;
    let ghost mut acc: Seq<DrawOp> = Seq::empty();
    let w = fb.width();
    let h = fb.height();
    fb.clear(SURFACE_BASE);
    proof {
        let op = rect_op(0, 0, w as int, h as int, SURFACE_BASE);
        lemma_apply_push(img, *font, acc, op);
        acc = acc.push(op);
    }
    draw_text(fb, font, 32, 32, 3, TEXT_PRIMARY, SURFACE_BASE, "Graphics Test".as_bytes());
    proof {
        let op = text_op(32, 32, 3, TEXT_PRIMARY, SURFACE_BASE, "Graphics Test".spec_bytes());
        lemma_apply_push(img, *font, acc, op);
        acc = acc.push(op);
    }

    // palette swatches
    let ghost head = acc;
    let mut i: usize = 0;
    while i < SWATCHES
        invariant
            fb.wf(),
            font.wf(),
            i <= SWATCHES,
            fb.spec_width() == old(fb).spec_width(),
            fb.spec_height() == old(fb).spec_height(),
            fb.spec_pitch() == old(fb).spec_pitch(),
            fb.spec_bpp() == old(fb).spec_bpp(),
            fb@ == apply_ops(img, *font, head + swatch_ops(i as nat)),
        decreases SWATCHES - i,
    {
        let x = 32 + i * 72;
        let color = palette_color(i);
        fb.fill_rect(x, 96, SWATCH_W, SWATCH_W, color);
        let ghost op = rect_op(x as int, 96, SWATCH_W as int, SWATCH_W as int, color);
        proof {
            lemma_apply_push(img, *font, head + swatch_ops(i as nat), op);
        }
        frame(fb, x, 96, SWATCH_W, SWATCH_W, BORDER_STRONG, Ghost(*font), Ghost((head + swatch_ops(i as nat)).push(op)), Ghost(img));
        proof {
            assert((head + swatch_ops(i as nat)).push(op) + frame_ops(x as int, 96, SWATCH_W as int, SWATCH_W as int, BORDER_STRONG) =~= head + swatch_ops((i + 1) as nat));
        }
        i = i + 1;
    }

    // channel ramps, one bar per primary: a swapped channel shows up as
    // the wrong bar lighting the wrong color
    let ghost head = head + swatch_ops(SWATCHES as nat);
    let bar_w = w - 64;
    let shifts: [u32; 3] = [16, 8, 0];
    let mut bi: usize = 0;
    while bi < 3
        invariant
            fb.wf(),
            font.wf(),
            bi <= 3,
            bar_w == w - 64,
            w == fb.spec_width(),
            w <= usize::MAX / 4,
            graphics_fits(w as int, h as int),
            shifts@ == seq![16u32, 8u32, 0u32],
            fb.spec_width() == old(fb).spec_width(),
            fb.spec_height() == old(fb).spec_height(),
            fb.spec_pitch() == old(fb).spec_pitch(),
            fb.spec_bpp() == old(fb).spec_bpp(),
            fb@ == apply_ops(img, *font, head + ramps_ops(bar_w as int, bi as nat)),
        decreases 3 - bi,
    {
        let y = 192 + bi * 48;
        let shift = shifts[bi];
        assert(shift == ramp_shift(bi as int));
        let ghost row_head = head + ramps_ops(bar_w as int, bi as nat);
        let divisor = if bar_w > 1 { bar_w } else { 1 };
        let mut i: usize = 0;
        while i < bar_w
            invariant
                fb.wf(),
                i <= bar_w,
                bar_w == w - 64,
                w <= usize::MAX / 4,
                graphics_fits(w as int, h as int),
                divisor == if bar_w > 1 { bar_w } else { 1 },
                y == 192 + bi * 48,
                bi < 3,
                shift == ramp_shift(bi as int),
                fb.spec_width() == old(fb).spec_width(),
                fb.spec_height() == old(fb).spec_height(),
                fb.spec_pitch() == old(fb).spec_pitch(),
                fb.spec_bpp() == old(fb).spec_bpp(),
                fb@ == apply_ops(img, *font, row_head + ramp_columns(y as int, bar_w as int, shift, i as nat)),
            decreases bar_w - i,
        {
            assert(i * 255 <= usize::MAX) by (nonlinear_arith)
                requires
                    i < bar_w,
                    bar_w <= 1 || (bar_w - 1) * 255 <= usize::MAX;
            assert((i * 255) as int / (divisor as int) < 256) by (nonlinear_arith)
                requires
                    i < bar_w,
                    divisor == if bar_w > 1 { bar_w } else { 1 };
            let v = (i * 255 / divisor) as u32;
            let color = v << shift;
            fb.fill_rect(32 + i, y, 1, 40, color);
            proof {
                let op = rect_op(32 + i, y as int, 1, 40, ramp_color(i as int, bar_w as int, shift));
                lemma_apply_push(img, *font, row_head + ramp_columns(y as int, bar_w as int, shift, i as nat), op);
                assert((row_head + ramp_columns(y as int, bar_w as int, shift, i as nat)).push(op) =~= row_head + ramp_columns(y as int, bar_w as int, shift, (i + 1) as nat));
            }
            i = i + 1;
        }
        frame(fb, 32, y, bar_w, 40, BORDER_DEFAULT, Ghost(*font), Ghost(row_head + ramp_columns(y as int, bar_w as int, shift, bar_w as nat)), Ghost(img));
        proof {
            assert(row_head + ramp_columns(y as int, bar_w as int, shift, bar_w as nat) + frame_ops(32, y as int, bar_w as int, 40, BORDER_DEFAULT) =~= head + ramps_ops(bar_w as int, (bi + 1) as nat));
        }
        bi = bi + 1;
    }
    let ghost acc2 = head + ramps_ops(bar_w as int, 3);

    // the font at the scales the interface actually uses
    let specimen_text = "THE QUICK BROWN FOX JUMPS OVER THE LAZY DOG 0123456789".as_bytes();
    assert(specimen_text@.len() == 54);
    assert(32 + specimen_text@.len() * 8 * 2 <= usize::MAX);
    draw_text(fb, font, 32, 352, 1, TEXT_SECONDARY, SURFACE_BASE, specimen_text);
    let ghost op1 = text_op(32, 352, 1, TEXT_SECONDARY, SURFACE_BASE, specimen());
    proof {
        lemma_apply_push(img, *font, acc2, op1);
    }
    draw_text(fb, font, 32, 372, 2, TEXT_SECONDARY, SURFACE_BASE, specimen_text);
    let ghost op2 = text_op(32, 372, 2, TEXT_SECONDARY, SURFACE_BASE, specimen());
    proof {
        lemma_apply_push(img, *font, acc2.push(op1), op2);
    }
    draw_text(fb, font, 32, h - 48, 1, TEXT_MUTED, SURFACE_BASE, "ESC BACK".as_bytes());
    proof {
        let op3 = text_op(32, h - 48, 1, TEXT_MUTED, SURFACE_BASE, "ESC BACK".spec_bytes());
        lemma_apply_push(img, *font, acc2.push(op1).push(op2), op3);
        assert(acc2.push(op1).push(op2).push(op3) =~= graphics_ops(w as int, h as int));
    }
}

} // verus!

verus! {

/// Each menu row is labelled with what launching it does: the row that
/// hands the machine to doom reads "Play DOOM", the one that opens the
/// system info screen "System Info", the graphics test "Graphics Test",
/// and the rows that reboot and shut down "Reboot" and "Shutdown".
pub proof fn lemma_labels_name_actions(i: int)
    requires
        0 <= i < ENTRY_COUNT,
    ensures
        (entry_activation(i, true) == Activation::Doom) <==> entry_label(i) == "Play DOOM".spec_bytes(),
        (entry_activation(i, true) == Activation::SystemInfo) <==> entry_label(i)
            == "System Info".spec_bytes(),
        (entry_activation(i, true) == Activation::GraphicsTest) <==> entry_label(i)
            == "Graphics Test".spec_bytes(),
        (entry_activation(i, true) == Activation::Reboot) <==> entry_label(i) == "Reboot".spec_bytes(),
        (entry_activation(i, true) == Activation::Shutdown) <==> entry_label(i)
            == "Shutdown".spec_bytes(),
{
    lemma_menu_texts();
    reveal_strlit("Play DOOM");
    reveal_strlit("System Info");
    reveal_strlit("Graphics Test");
    reveal_strlit("Reboot");
    reveal_strlit("Shutdown");
    assert(vstd::string::is_ascii("Play DOOM"));
    assert(vstd::string::is_ascii("System Info"));
    assert(vstd::string::is_ascii("Graphics Test"));
    assert(vstd::string::is_ascii("Reboot"));
    assert(vstd::string::is_ascii("Shutdown"));
    vstd::string::is_ascii_spec_bytes("Play DOOM");
    vstd::string::is_ascii_spec_bytes("System Info");
    vstd::string::is_ascii_spec_bytes("Graphics Test");
    vstd::string::is_ascii_spec_bytes("Reboot");
    vstd::string::is_ascii_spec_bytes("Shutdown");
}

/// Each system info row shows the fact its key names: "framebuffer" the
/// width, an "x", the height, an "x" and the bits per pixel, in decimal;
/// "memory free" the free MiB; "kernel heap" the heap size in MiB;
/// "timer" the PIT rate; "uptime" the milliseconds since boot; "wad" the
/// WAD's size in KiB, or "not loaded"; "boot protocol" limine and
/// "architecture" x86_64.
pub proof fn lemma_info_rows_show_their_facts(i: int, f: SystemFacts)
    requires
        0 <= i < INFO_ROWS,
    ensures
        info_key(i) == "boot protocol".spec_bytes() ==> info_value(i, f) == "limine".spec_bytes(),
        info_key(i) == "architecture".spec_bytes() ==> info_value(i, f) == "x86_64".spec_bytes(),
        info_key(i) == "framebuffer".spec_bytes() ==> info_value(i, f) == decimal(f.fb_width as nat)
            + seq![0x78u8] + decimal(f.fb_height as nat) + seq![0x78u8] + decimal(f.fb_bpp as nat),
        info_key(i) == "memory free".spec_bytes() ==> info_value(i, f) == decimal(f.free_mib as nat)
            + seq![0x20u8, 0x4du8, 0x69u8, 0x42u8],
        info_key(i) == "kernel heap".spec_bytes() ==> info_value(i, f) == decimal(
            (HEAP_SIZE as int / 1048576) as nat,
        ) + seq![0x20u8, 0x4du8, 0x69u8, 0x42u8],
        info_key(i) == "timer".spec_bytes() ==> info_value(i, f) == seq![0x50u8, 0x49u8, 0x54u8, 0x20u8]
            + decimal(HZ as nat) + seq![0x20u8, 0x48u8, 0x7au8],
        info_key(i) == "uptime".spec_bytes() ==> info_value(i, f) == decimal(f.ticks_ms as nat)
            + seq![0x20u8, 0x6du8, 0x73u8],
        info_key(i) == "wad".spec_bytes() ==> info_value(i, f) == match f.wad {
            Some(len) => decimal((len / 1024) as nat) + seq![0x20u8, 0x4bu8, 0x69u8, 0x42u8],
            None => "not loaded".spec_bytes(),
        },
{
    lemma_info_texts();
    reveal_strlit("x");
    reveal_strlit(" MiB");
    reveal_strlit("PIT ");
    reveal_strlit(" Hz");
    reveal_strlit(" ms");
    reveal_strlit(" KiB");
    reveal_strlit("boot protocol");
    reveal_strlit("architecture");
    reveal_strlit("framebuffer");
    reveal_strlit("memory free");
    reveal_strlit("kernel heap");
    reveal_strlit("timer");
    reveal_strlit("uptime");
    reveal_strlit("wad");
    assert(vstd::string::is_ascii("x"));
    assert(vstd::string::is_ascii(" MiB"));
    assert(vstd::string::is_ascii("PIT "));
    assert(vstd::string::is_ascii(" Hz"));
    assert(vstd::string::is_ascii(" ms"));
    assert(vstd::string::is_ascii(" KiB"));
    assert(vstd::string::is_ascii("framebuffer"));
    assert(vstd::string::is_ascii("memory free"));
    assert(vstd::string::is_ascii("kernel heap"));
    vstd::string::is_ascii_spec_bytes("x");
    vstd::string::is_ascii_spec_bytes(" MiB");
    vstd::string::is_ascii_spec_bytes("PIT ");
    vstd::string::is_ascii_spec_bytes(" Hz");
    vstd::string::is_ascii_spec_bytes(" ms");
    vstd::string::is_ascii_spec_bytes(" KiB");
    vstd::string::is_ascii_spec_bytes("framebuffer");
    vstd::string::is_ascii_spec_bytes("memory free");
    vstd::string::is_ascii_spec_bytes("kernel heap");
    assert("x".spec_bytes() =~= seq![0x78u8]);
    assert(" MiB".spec_bytes() =~= seq![0x20u8, 0x4du8, 0x69u8, 0x42u8]);
    assert("PIT ".spec_bytes() =~= seq![0x50u8, 0x49u8, 0x54u8, 0x20u8]);
    assert(" Hz".spec_bytes() =~= seq![0x20u8, 0x48u8, 0x7au8]);
    assert(" ms".spec_bytes() =~= seq![0x20u8, 0x6du8, 0x73u8]);
    assert(" KiB".spec_bytes() =~= seq![0x20u8, 0x4bu8, 0x69u8, 0x42u8]);
    assert("framebuffer".spec_bytes()[0] != "memory free".spec_bytes()[0]);
    assert("framebuffer".spec_bytes()[0] != "kernel heap".spec_bytes()[0]);
    assert("memory free".spec_bytes()[0] != "kernel heap".spec_bytes()[0]);
}

/// The menu lists its entries in launcher order: Play DOOM, System
/// Info, Graphics Test, Reboot, Shutdown, so the digit keys 1 to 5 pick
/// them in that order.
pub proof fn lemma_menu_order(k: int)
    requires
        0 <= k < ENTRY_COUNT,
    ensures
        entry_label(k) == seq![
            "Play DOOM".spec_bytes(),
            "System Info".spec_bytes(),
            "Graphics Test".spec_bytes(),
            "Reboot".spec_bytes(),
            "Shutdown".spec_bytes(),
        ][k],
        entry_activation(k, true) == seq![
            Activation::Doom,
            Activation::SystemInfo,
            Activation::GraphicsTest,
            Activation::Reboot,
            Activation::Shutdown,
        ][k],
{
}

/// A menu row's tag names the digit key that launches it: "[1]" to
/// "[5]", and pressing the digit inside the brackets selects and launches
/// that very row from any selection. A row carries the "NO WAD" warning,
/// as one extra text after its label, exactly when launching it does
/// nothing.
pub proof fn lemma_row_tag_and_parking(px: int, y: int, i: int, sel: int, selected: bool, wad_loaded: bool)
    requires
        0 <= i < ENTRY_COUNT,
    ensures
        entry_tag(i).len() == 3,
        entry_tag(i)[0] == 0x5b && entry_tag(i)[2] == 0x5d,
        menu_step(sel, KeyEvent { code: KeyCode::Char(entry_tag(i)[1]), pressed: true }) == (
            i,
            MenuCommand::SelectAndLaunch,
        ),
        ({
            let ops = row_ops(px, y, i, selected, wad_loaded);
            let plain = if selected { 4int } else { 3int };
            &&& (entry_activation(i, wad_loaded) == Activation::Nothing) <==> ops.len() == plain + 1
            &&& ops.len() == plain || ops.len() == plain + 1
            &&& ops.len() == plain + 1 ==> ops.last() == text_op(
                px + 88 + entry_label(i).len() * 16 + 16,
                y + 16,
                1,
                STATUS_WARNING,
                if selected { SURFACE_SELECTED } else { SURFACE_PANEL },
                "NO WAD".spec_bytes(),
            )
        }),
{
}

/// The status strip: its left text reads "MEM ", the free MiB, " MIB
/// FREE   UPTIME ", the whole seconds since boot and "S"; its right text
/// ends 16 pixels from the right edge of the screen.
pub proof fn lemma_status_strip(width: int, height: int, wad: Option<usize>, free_mib: nat, ticks_ms: nat)
    ensures
        strip_ops(width, height, wad, free_mib, ticks_ms)[2] == text_op(
            16,
            height - STRIP_H + 10,
            1,
            TEXT_SECONDARY,
            SURFACE_RAISED,
            "MEM ".spec_bytes() + decimal(free_mib) + " MIB FREE   UPTIME ".spec_bytes() + decimal(
                ticks_ms / 1000,
            ) + "S".spec_bytes(),
        ),
        ({
            let last = strip_ops(width, height, wad, free_mib, ticks_ms)[3];
            &&& last is Text
            &&& last->Text_x + last->Text_text.len() * 8 * last->Text_scale == width - 16
            &&& last->Text_text == match wad {
                Some(len) => "WAD ".spec_bytes() + decimal((len / 1024) as nat) + " KIB".spec_bytes(),
                None => "WAD MISSING".spec_bytes(),
            }
        }),
{
    let ops = strip_ops(width, height, wad, free_mib, ticks_ms);
    let (wt, wc) = wad_status(wad);
    assert(ops[3] == text_op(width - 16 - wt.len() * 8, height - STRIP_H + 10, 1, wc, SURFACE_RAISED, wt));
    assert(wt.len() * 8 * 1 == wt.len() * 8);
}

/// The channel ramps of the graphics test: ramp 0 lights only red, ramp
/// 1 only green and ramp 2 only blue; across a bar `bar_w` columns wide
/// the channel starts at 0, never falls, and stays at most 255.
pub proof fn lemma_ramps(bi: int, i: int, j: int, bar_w: int)
    requires
        0 <= bi < 3,
        0 <= i <= j < bar_w,
    ensures
        ({
            let v = i * 255 / bar_w;
            &&& 0 <= v <= 255
            &&& ramp_color(i, bar_w, ramp_shift(bi)) == v * (if bi == 0 {
                0x1_0000int
            } else if bi == 1 {
                0x100int
            } else {
                1int
            })
        }),
        i * 255 / bar_w <= j * 255 / bar_w,
        ramp_color(0, bar_w, ramp_shift(bi)) == 0,
{
    let v = i * 255 / bar_w;
    assert(0 <= v <= 255) by (nonlinear_arith)
        requires 0 <= i < bar_w, v == i * 255 / bar_w;
    assert(i * 255 / bar_w <= j * 255 / bar_w) by (nonlinear_arith)
        requires 0 <= i <= j, bar_w > 0;
    let b = v as u32;
    assert(b << 16u32 == b * 0x1_0000 && b << 8u32 == b * 0x100 && b << 0u32 == b) by (bit_vector)
        requires b <= 255;
    assert(0int * 255 / bar_w == 0);
    assert(0u32 << 16u32 == 0u32 && 0u32 << 8u32 == 0u32 && 0u32 << 0u32 == 0u32) by (bit_vector);
}

} // verus!
