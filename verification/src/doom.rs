//! The kernel side of the doom platform bridge: key translation, the
//! key poll and the frame blit.

use vstd::prelude::*;
use crate::framebuffer::{Color, Framebuffer};
use crate::keyboard::{KeyCode, KeyEvent, Keyboard, poll_event, poll_result, base_key, extended_key};
use vstd::string::StringSliceAdditionalSpecFns;

verus! {

// doomkeys.h values the engine expects back from its key poll.
pub const KEY_RIGHTARROW: u8 = 0xae;
pub const KEY_LEFTARROW: u8 = 0xac;
pub const KEY_UPARROW: u8 = 0xad;
pub const KEY_DOWNARROW: u8 = 0xaf;
pub const KEY_ESCAPE: u8 = 27;
pub const KEY_ENTER: u8 = 13;
pub const KEY_FIRE: u8 = 0xa3;
pub const KEY_USE: u8 = 0xa2;
pub const KEY_RSHIFT: u8 = 0xb6;
pub const KEY_LALT: u8 = 0xb8;

/// ASCII lowercase: uppercase letters move down by 0x20, every other
/// byte stays.
pub open spec fn ascii_lower(c: u8) -> u8 {
    if 0x41 <= c <= 0x5a {
        (c + 0x20) as u8
    } else {
        c
    }
}

/// The doom key for a kernel key, zero for keys doom does not get.
pub open spec fn doom_code(code: KeyCode) -> u8 {
    match code {
        KeyCode::Up => KEY_UPARROW,
        KeyCode::Down => KEY_DOWNARROW,
        KeyCode::Left => KEY_LEFTARROW,
        KeyCode::Right => KEY_RIGHTARROW,
        KeyCode::Escape => KEY_ESCAPE,
        KeyCode::Enter => KEY_ENTER,
        KeyCode::Space => KEY_USE,
        KeyCode::LCtrl => KEY_FIRE,
        KeyCode::LShift => KEY_RSHIFT,
        KeyCode::RShift => KEY_RSHIFT,
        KeyCode::LAlt => KEY_LALT,
        KeyCode::Char(c) => ascii_lower(c),
        KeyCode::Unknown(_) => 0,
    }
}

fn to_ascii_lowercase(c: u8) -> (l: u8)
    ensures
        l == ascii_lower(c),
{
    if 0x41 <= c && c <= 0x5a {
        c + 0x20
    } else {
        c
    }
}

/// Kernel key to doom key code. Zero means drop it.
pub fn doom_key(code: KeyCode) -> (k: u8)
    ensures
        k == doom_code(code),
{
    match code {
        KeyCode::Up => KEY_UPARROW,
        KeyCode::Down => KEY_DOWNARROW,
        KeyCode::Left => KEY_LEFTARROW,
        KeyCode::Right => KEY_RIGHTARROW,
        KeyCode::Escape => KEY_ESCAPE,
        KeyCode::Enter => KEY_ENTER,
        KeyCode::Space => KEY_USE,
        KeyCode::LCtrl => KEY_FIRE,
        KeyCode::LShift | KeyCode::RShift => KEY_RSHIFT,
        KeyCode::LAlt => KEY_LALT,
        // doom wants lowercase ascii for letters and digits
        KeyCode::Char(c) => to_ascii_lowercase(c),
        KeyCode::Unknown(_) => 0,
    }
}

/// What one doom key poll yields from the decoder state: events that
/// map to no doom key are skipped; the first one that does is returned
/// as (pressed, key), with the decoder state left after it.
pub open spec fn doom_poll(pending: bool, q: Seq<u8>) -> (Option<(bool, u8)>, bool, Seq<u8>)
    decreases q.len(),
{
    let (ev, p2, q2) = poll_result(pending, q);
    match ev {
        None => (None, p2, q2),
        Some(e) => if q2.len() < q.len() {
            if doom_code(e.code) == 0 {
                doom_poll(p2, q2)
            } else {
                (Some((e.pressed, doom_code(e.code))), p2, q2)
            }
        } else {
            (None, p2, q2)
        },
    }
}

/// A poll that yields an event consumes at least one byte.
proof fn lemma_poll_consumes(pending: bool, q: Seq<u8>)
    ensures
        poll_result(pending, q).0 is Some ==> poll_result(pending, q).2.len() < q.len(),
        poll_result(pending, q).0 is None ==> poll_result(pending, q).2.len() == 0,
    decreases q.len(),
{
    if q.len() > 0 && q[0] == 0xe0 {
        lemma_poll_consumes(true, q.drop_first());
    }
}

/// The next key event doom cares about, as (pressed, doom key), or
/// `None` when the queue runs dry first.
pub fn next_doom_key(kb: &mut Keyboard) -> (r: Option<(bool, u8)>)
    requires
        old(kb).wf(),
    ensures
        final(kb).wf(),
        (r, final(kb).pending(), final(kb).queued()) == doom_poll(old(kb).pending(), old(kb).queued()),
{
    loop
        invariant
            kb.wf(),
            doom_poll(kb.pending(), kb.queued()) == doom_poll(old(kb).pending(), old(kb).queued()),
        decreases kb.queued().len(),
    {
        let ghost p0 = kb.pending();
        let ghost q0 = kb.queued();
        proof {
            lemma_poll_consumes(p0, q0);
        }
        match poll_event(kb) {
            None => {
                return None;
            },
            Some(ev) => {
                let k = doom_key(ev.code);
                if k == 0 {
                    continue;
                }
                return Some((ev.pressed, k));
            },
        }
    }
}

/// The screen with a `w` by `h` frame drawn with its top left corner at
/// (`ox`, `oy`); the parts that fall off the screen are dropped.
pub open spec fn blit_image(
    img: Seq<Seq<u32>>,
    frame: Seq<u32>,
    w: int,
    h: int,
    ox: int,
    oy: int,
) -> Seq<Seq<u32>> {
    blit_partial(img, frame, w, h, ox, oy, h, 0)
}

/// The screen after the frame's rows before `y`, and the first `x`
/// pixels of row `y`, have been drawn.
pub open spec fn blit_partial(
    img: Seq<Seq<u32>>,
    frame: Seq<u32>,
    w: int,
    h: int,
    ox: int,
    oy: int,
    y: int,
    x: int,
) -> Seq<Seq<u32>> {
    Seq::new(
        img.len(),
        |r: int|
            Seq::new(
                img[r].len(),
                |c: int|
                    if ox <= c < ox + w && oy <= r < oy + h && (r - oy < y || (r - oy == y && c - ox
                        < x)) {
                        frame[(r - oy) * w + (c - ox)]
                    } else {
                        img[r][c]
                    },
            ),
    )
}

/// Where a `w` by `h` frame starts so that it sits centered on a screen
/// `width` by `height`; a frame larger than the screen starts at the edge.
pub open spec fn centered_origin(width: int, height: int, w: int, h: int) -> (int, int) {
    (if width > w { (width - w) / 2 } else { 0 }, if height > h { (height - h) / 2 } else { 0 })
}

/// Draw a `w` by `h` XRGB frame centered on the screen, row-major in
/// `frame`.
pub fn draw_frame(fb: &mut Framebuffer, frame: &[u32], w: usize, h: usize)
    requires
        old(fb).wf(),
        frame@.len() == w * h,
    ensures
        final(fb).wf(),
        final(fb).spec_width() == old(fb).spec_width(),
        final(fb).spec_height() == old(fb).spec_height(),
        final(fb).spec_pitch() == old(fb).spec_pitch(),
        final(fb).spec_bpp() == old(fb).spec_bpp(),
        final(fb)@ == blit_image(
            old(fb)@,
            frame@,
            w as int,
            h as int,
            centered_origin(old(fb).spec_width() as int, old(fb).spec_height() as int, w as int, h as int).0,
            centered_origin(old(fb).spec_width() as int, old(fb).spec_height() as int, w as int, h as int).1,
        ),
{
    let ghost img = fb@;
    let len = frame.len();
    let ox = fb.width().saturating_sub(w) / 2;
    let oy = fb.height().saturating_sub(h) / 2;
    assert(blit_partial(img, frame@, w as int, h as int, ox as int, oy as int, 0, 0) =~= img) by {
        assert forall|r: int| 0 <= r < img.len() implies #[trigger] blit_partial(img, frame@, w as int, h as int, ox as int, oy as int, 0, 0)[r] =~= img[r] by {}
    }
    let mut y: usize = 0;
    while y < h
        invariant
            fb.wf(),
            y <= h,
            frame@.len() == w * h,
            w * h <= usize::MAX,
            img == old(fb)@,
            ox <= fb.spec_width(),
            oy <= fb.spec_height(),
            ox + w <= usize::MAX,
            oy + h <= usize::MAX,
            fb.spec_width() == old(fb).spec_width(),
            fb.spec_height() == old(fb).spec_height(),
            fb.spec_pitch() == old(fb).spec_pitch(),
            fb.spec_bpp() == old(fb).spec_bpp(),
            fb@ == blit_partial(img, frame@, w as int, h as int, ox as int, oy as int, y as int, 0),
        decreases h - y,
    {
        let mut x: usize = 0;
        while x < w
            invariant
                fb.wf(),
                y < h,
                x <= w,
                frame@.len() == w * h,
                w * h <= usize::MAX,
                img == old(fb)@,
                ox <= fb.spec_width(),
                oy <= fb.spec_height(),
                ox + w <= usize::MAX,
                oy + h <= usize::MAX,
                fb.spec_width() == old(fb).spec_width(),
                fb.spec_height() == old(fb).spec_height(),
                fb.spec_pitch() == old(fb).spec_pitch(),
                fb.spec_bpp() == old(fb).spec_bpp(),
                fb@ == blit_partial(img, frame@, w as int, h as int, ox as int, oy as int, y as int, x as int),
            decreases w - x,
        {
            assert(y * w + x < w * h) by (nonlinear_arith)
                requires y < h, x < w;
            let ghost before = fb@;
            fb.put_pixel(ox + x, oy + y, frame[y * w + x]);
            proof {
                let next = blit_partial(img, frame@, w as int, h as int, ox as int, oy as int, y as int, x + 1);
                assert(before.len() == img.len());
                assert forall|r: int| 0 <= r < img.len() implies #[trigger] fb@[r] =~= next[r] by {
                    assert(before[r].len() == img[r].len());
                    assert forall|c: int| 0 <= c < img[r].len() implies #[trigger] fb@[r][c] == next[r][c] by {
                        if r == oy + y && c == ox + x {
                            assert((r - oy) * w + (c - ox) == y * w + x);
                        }
                    }
                }
                assert(fb@ =~= next);
            }
            x = x + 1;
        }
        proof {
            let a = blit_partial(img, frame@, w as int, h as int, ox as int, oy as int, y as int, w as int);
            let b = blit_partial(img, frame@, w as int, h as int, ox as int, oy as int, y + 1, 0);
            assert forall|r: int| 0 <= r < img.len() implies #[trigger] a[r] =~= b[r] by {}
            assert(a =~= b);
        }
        y = y + 1;
    }
}

} // verus!

verus! {

/// Each key reaches doom as the doomkeys.h code of the same meaning: the
/// arrows by direction (left 0xac, up 0xad, right 0xae, down 0xaf),
/// Escape 27, Enter 13, Space as use (0xa2), Ctrl as fire (0xa3), either
/// Shift as run (0x80 + 0x36) and Alt as strafe (0x80 + 0x38); an
/// uppercase letter as its lowercase, any other character as itself,
/// and an unknown key as 0, which drops it.
pub proof fn lemma_doom_keys(code: KeyCode)
    ensures
        code == KeyCode::Left ==> doom_code(code) == 0xac,
        code == KeyCode::Up ==> doom_code(code) == 0xad,
        code == KeyCode::Right ==> doom_code(code) == 0xae,
        code == KeyCode::Down ==> doom_code(code) == 0xaf,
        code == KeyCode::Escape ==> doom_code(code) == 27,
        code == KeyCode::Enter ==> doom_code(code) == 13,
        code == KeyCode::Space ==> doom_code(code) == 0xa2,
        code == KeyCode::LCtrl ==> doom_code(code) == 0xa3,
        code == KeyCode::LShift ==> doom_code(code) == 0x80 + 0x36,
        code == KeyCode::RShift ==> doom_code(code) == 0x80 + 0x36,
        code == KeyCode::LAlt ==> doom_code(code) == 0x80 + 0x38,
        code matches KeyCode::Char(c) ==> doom_code(code) == if 0x41 <= c <= 0x5a {
            c + 0x20
        } else {
            c as int
        },
        code is Unknown ==> doom_code(code) == 0,
{
}

/// A key press travels from scancode to doom with its meaning: the
/// arrow make codes behind 0xe0 turn doom the same way, and a letter or
/// digit key gives doom the lowercase of the character printed on it.
pub proof fn lemma_scancode_to_doom(k: int)
    ensures
        doom_code(extended_key(0x4b)) == 0xac && doom_code(extended_key(0x4d)) == 0xae
            && doom_code(extended_key(0x48)) == 0xad && doom_code(extended_key(0x50)) == 0xaf,
        0 <= k < 10 ==> doom_code(base_key((0x02 + k) as u8)) == "1234567890".spec_bytes()[k],
        0 <= k < 10 ==> doom_code(base_key((0x10 + k) as u8)) == "qwertyuiop".spec_bytes()[k],
        0 <= k < 9 ==> doom_code(base_key((0x1e + k) as u8)) == "asdfghjkl".spec_bytes()[k],
        0 <= k < 7 ==> doom_code(base_key((0x2c + k) as u8)) == "zxcvbnm".spec_bytes()[k],
{
    reveal_strlit("1234567890");
    reveal_strlit("qwertyuiop");
    reveal_strlit("asdfghjkl");
    reveal_strlit("zxcvbnm");
    assert(vstd::string::is_ascii("1234567890"));
    assert(vstd::string::is_ascii("qwertyuiop"));
    assert(vstd::string::is_ascii("asdfghjkl"));
    assert(vstd::string::is_ascii("zxcvbnm"));
    vstd::string::is_ascii_spec_bytes("1234567890");
    vstd::string::is_ascii_spec_bytes("qwertyuiop");
    vstd::string::is_ascii_spec_bytes("asdfghjkl");
    vstd::string::is_ascii_spec_bytes("zxcvbnm");
}

/// The frame sits centered: when it is narrower than the screen the
/// margins left and right differ by at most one pixel, likewise top and
/// bottom when it is shorter; a frame as large as the screen or larger
/// starts at its edge. Each frame pixel that lands on the screen shows
/// the frame's pixel, row-major, and every other screen pixel keeps its
/// color.
pub proof fn lemma_frame_centered(
    img: Seq<Seq<u32>>,
    frame: Seq<u32>,
    width: int,
    height: int,
    w: int,
    h: int,
    r: int,
    c: int,
)
    requires
        0 <= r < img.len(),
        0 <= c < img[r].len(),
    ensures
        ({
            let (ox, oy) = centered_origin(width, height, w, h);
            &&& width > w ==> ox + w + ox <= width <= ox + w + ox + 1
            &&& width <= w ==> ox == 0
            &&& height > h ==> oy + h + oy <= height <= oy + h + oy + 1
            &&& height <= h ==> oy == 0
            &&& (ox <= c < ox + w && oy <= r < oy + h) ==> blit_image(img, frame, w, h, ox, oy)[r][c]
                == frame[(r - oy) * w + (c - ox)]
            &&& !(ox <= c < ox + w && oy <= r < oy + h) ==> blit_image(img, frame, w, h, ox, oy)[r][c]
                == img[r][c]
        }),
{
}

} // verus!
