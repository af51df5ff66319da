use rozeos::doom::{doom_key, draw_frame, next_doom_key, KEY_ESCAPE, KEY_FIRE, KEY_RSHIFT, KEY_UPARROW, KEY_USE};
use rozeos::framebuffer::Framebuffer;
use rozeos::keyboard::{KeyCode, KeyEvent, Keyboard};
use rozeos::menu::{activation, leaves_subscreen, step, Activation, MenuCommand};

#[test]
fn doom_keys() {
    assert_eq!(doom_key(KeyCode::Up), KEY_UPARROW);
    assert_eq!(doom_key(KeyCode::Escape), KEY_ESCAPE);
    assert_eq!(doom_key(KeyCode::LCtrl), KEY_FIRE);
    assert_eq!(doom_key(KeyCode::Space), KEY_USE);
    assert_eq!(doom_key(KeyCode::RShift), KEY_RSHIFT);
    assert_eq!(doom_key(KeyCode::LShift), KEY_RSHIFT);
    assert_eq!(doom_key(KeyCode::Enter), 13);
    assert_eq!(doom_key(KeyCode::Char(b'W')), b'w');
    assert_eq!(doom_key(KeyCode::Char(b'7')), b'7');
    assert_eq!(doom_key(KeyCode::Unknown(0x3b)), 0);
}

#[test]
fn doom_poll_skips_unmapped_keys() {
    let mut kb = Keyboard::new();
    kb.on_scancode(0x3b); // unmapped
    kb.on_scancode(0x11); // W
    kb.on_scancode(0xe0);
    kb.on_scancode(0xc8); // up released
    assert_eq!(next_doom_key(&mut kb), Some((true, b'w')));
    assert_eq!(next_doom_key(&mut kb), Some((false, KEY_UPARROW)));
    assert_eq!(next_doom_key(&mut kb), None);
}

#[test]
fn frame_is_centered() {
    let mut fb = Framebuffer::new(6, 4, 24, 32);
    let frame = [1u32, 2, 3, 4];
    draw_frame(&mut fb, &frame, 2, 2);
    assert_eq!(fb.pixel(2, 1), 1);
    assert_eq!(fb.pixel(3, 1), 2);
    assert_eq!(fb.pixel(2, 2), 3);
    assert_eq!(fb.pixel(3, 2), 4);
    assert_eq!(fb.pixel(1, 1), 0);
    assert_eq!(fb.pixel(4, 2), 0);
}

#[test]
fn frame_larger_than_screen_is_clipped() {
    let mut fb = Framebuffer::new(2, 1, 8, 32);
    let frame = [1u32, 2, 3, 4, 5, 6];
    draw_frame(&mut fb, &frame, 3, 2);
    assert_eq!(fb.pixel(0, 0), 1);
    assert_eq!(fb.pixel(1, 0), 2);
}

fn press(code: KeyCode) -> KeyEvent {
    KeyEvent { code, pressed: true }
}

#[test]
fn menu_arrows_wrap_round() {
    assert_eq!(step(0, press(KeyCode::Up)), (4, MenuCommand::Select));
    assert_eq!(step(4, press(KeyCode::Down)), (0, MenuCommand::Select));
    assert_eq!(step(2, press(KeyCode::Down)), (3, MenuCommand::Select));
}

#[test]
fn menu_digits_jump_and_launch() {
    assert_eq!(step(0, press(KeyCode::Char(b'3'))), (2, MenuCommand::SelectAndLaunch));
    assert_eq!(step(0, press(KeyCode::Char(b'6'))), (0, MenuCommand::Nothing));
    assert_eq!(step(1, press(KeyCode::Enter)), (1, MenuCommand::Launch));
    assert_eq!(step(1, press(KeyCode::Space)), (1, MenuCommand::Launch));
    assert_eq!(step(1, KeyEvent { code: KeyCode::Enter, pressed: false }), (1, MenuCommand::Nothing));
    assert_eq!(step(1, press(KeyCode::Escape)), (1, MenuCommand::Nothing));
}

#[test]
fn menu_entries() {
    assert_eq!(activation(0, true), Activation::Doom);
    assert_eq!(activation(0, false), Activation::Nothing);
    assert_eq!(activation(1, false), Activation::SystemInfo);
    assert_eq!(activation(2, true), Activation::GraphicsTest);
    assert_eq!(activation(3, true), Activation::Reboot);
    assert_eq!(activation(4, true), Activation::Shutdown);
}

#[test]
fn only_escape_down_leaves_a_subscreen() {
    assert!(leaves_subscreen(press(KeyCode::Escape)));
    assert!(!leaves_subscreen(KeyEvent { code: KeyCode::Escape, pressed: false }));
    assert!(!leaves_subscreen(press(KeyCode::Enter)));
}
