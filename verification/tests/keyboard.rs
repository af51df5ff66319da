use rozeos::keyboard::{
    decode_base, decode_extended, poll_event, KeyCode, KeyEvent, Keyboard, ScancodeQueue, QUEUE_SIZE,
};

#[test]
fn queue_is_first_in_first_out() {
    let mut q = ScancodeQueue::new();
    q.push(1);
    q.push(2);
    q.push(3);
    assert_eq!(q.pop(), Some(1));
    q.push(4);
    assert_eq!(q.pop(), Some(2));
    assert_eq!(q.pop(), Some(3));
    assert_eq!(q.pop(), Some(4));
    assert_eq!(q.pop(), None);
}

#[test]
fn full_queue_drops_new_bytes() {
    let mut q = ScancodeQueue::new();
    for i in 0..QUEUE_SIZE + 10 {
        q.push(i as u8);
    }
    for i in 0..QUEUE_SIZE {
        assert_eq!(q.pop(), Some(i as u8));
    }
    assert_eq!(q.pop(), None);
}

#[test]
fn queue_wraps_round_its_buffer() {
    let mut q = ScancodeQueue::new();
    for round in 0..3 * QUEUE_SIZE {
        q.push(round as u8);
        q.push((round + 1) as u8);
        assert_eq!(q.pop(), Some(round as u8));
        assert_eq!(q.pop(), Some((round + 1) as u8));
    }
    assert_eq!(q.pop(), None);
}

#[test]
fn base_table() {
    assert_eq!(decode_base(0x01), KeyCode::Escape);
    assert_eq!(decode_base(0x1c), KeyCode::Enter);
    assert_eq!(decode_base(0x39), KeyCode::Space);
    assert_eq!(decode_base(0x02), KeyCode::Char(b'1'));
    assert_eq!(decode_base(0x0a), KeyCode::Char(b'9'));
    assert_eq!(decode_base(0x0b), KeyCode::Char(b'0'));
    assert_eq!(decode_base(0x10), KeyCode::Char(b'Q'));
    assert_eq!(decode_base(0x19), KeyCode::Char(b'P'));
    assert_eq!(decode_base(0x1e), KeyCode::Char(b'A'));
    assert_eq!(decode_base(0x26), KeyCode::Char(b'L'));
    assert_eq!(decode_base(0x2c), KeyCode::Char(b'Z'));
    assert_eq!(decode_base(0x32), KeyCode::Char(b'M'));
    assert_eq!(decode_base(0x2a), KeyCode::LShift);
    assert_eq!(decode_base(0x36), KeyCode::RShift);
    assert_eq!(decode_base(0x38), KeyCode::LAlt);
    assert_eq!(decode_base(0x1d), KeyCode::LCtrl);
    assert_eq!(decode_base(0x3b), KeyCode::Unknown(0x3b));
}

#[test]
fn extended_table() {
    assert_eq!(decode_extended(0x48), KeyCode::Up);
    assert_eq!(decode_extended(0x50), KeyCode::Down);
    assert_eq!(decode_extended(0x4b), KeyCode::Left);
    assert_eq!(decode_extended(0x4d), KeyCode::Right);
    assert_eq!(decode_extended(0x1d), KeyCode::LCtrl);
    assert_eq!(decode_extended(0x1c), KeyCode::Unknown(0x1c));
}

#[test]
fn make_and_break_codes() {
    let mut kb = Keyboard::new();
    kb.on_scancode(0x1e);
    kb.on_scancode(0x9e);
    assert_eq!(poll_event(&mut kb), Some(KeyEvent { code: KeyCode::Char(b'A'), pressed: true }));
    assert_eq!(poll_event(&mut kb), Some(KeyEvent { code: KeyCode::Char(b'A'), pressed: false }));
    assert_eq!(poll_event(&mut kb), None);
}

#[test]
fn extended_prefix_selects_the_second_table() {
    let mut kb = Keyboard::new();
    kb.on_scancode(0xe0);
    kb.on_scancode(0x48);
    kb.on_scancode(0x48);
    assert_eq!(poll_event(&mut kb), Some(KeyEvent { code: KeyCode::Up, pressed: true }));
    // the prefix applies to one key only: 0x48 alone is unmapped
    assert_eq!(poll_event(&mut kb), Some(KeyEvent { code: KeyCode::Unknown(0x48), pressed: true }));
}

#[test]
fn extended_prefix_survives_an_empty_poll() {
    let mut kb = Keyboard::new();
    kb.on_scancode(0xe0);
    assert_eq!(poll_event(&mut kb), None);
    kb.on_scancode(0xd0);
    assert_eq!(poll_event(&mut kb), Some(KeyEvent { code: KeyCode::Down, pressed: false }));
}
