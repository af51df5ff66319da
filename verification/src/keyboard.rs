//! PS/2 keyboard: the scancode queue and the set 1 decoder.
//!
//! The interrupt handler drops one scancode byte per interrupt into a
//! ring buffer; decoding happens at the consumer end: scancode set 1,
//! make/break in bit 7, 0xe0 prefix for the extended keys.

use vstd::prelude::*;
use vstd::arithmetic::div_mod::lemma_mod_multiples_vanish;
use vstd::string::StringSliceAdditionalSpecFns;

verus! {

/// Ring buffer capacity, a power of two so wraparound is a mask.
pub const QUEUE_SIZE: usize = 256;

/// The size of the `usize` range is a multiple of the queue size.
proof fn lemma_usize_range_aligned()
    ensures
        (usize::MAX + 1) % (QUEUE_SIZE as int) == 0,
        usize::MAX + 1 >= QUEUE_SIZE,
{
    assert(usize::MAX == 0xffff_ffff || usize::MAX == 0xffff_ffff_ffff_ffff);
}

/// Subtracting the size of the `usize` range keeps the ring slot.
proof fn lemma_slot_wrap(x: int)
    ensures
        (x - (usize::MAX + 1)) % (QUEUE_SIZE as int) == x % (QUEUE_SIZE as int),
{
    lemma_usize_range_aligned();
    let q = (usize::MAX + 1) / (QUEUE_SIZE as int);
    assert(q * (QUEUE_SIZE as int) == usize::MAX + 1);
    lemma_mod_multiples_vanish(-q, x, QUEUE_SIZE as int);
    assert((QUEUE_SIZE as int) * (-q) + x == x - (usize::MAX + 1)) by (nonlinear_arith)
        requires
            q * (QUEUE_SIZE as int) == usize::MAX + 1,
    ;
}

/// The keys that matter to the kernel and to doom, plus letters and
/// digits.
#[derive(Clone, Copy, PartialEq, Eq, Debug, Structural)]
pub enum KeyCode {
    Escape,
    Enter,
    Space,
    LCtrl,
    LShift,
    RShift,
    LAlt,
    Up,
    Down,
    Left,
    Right,
    /// ASCII letter or digit, uppercase.
    Char(u8),
    /// A key without a mapping, raw scancode preserved.
    Unknown(u8),
}

/// One key transition.
#[derive(Clone, Copy, PartialEq, Eq, Debug, Structural)]
pub struct KeyEvent {
    pub code: KeyCode,
    pub pressed: bool,
}

/// The letter rows of the set 1 map in QWERTY order.
// ASCII codes: the letters are uppercase, digits start at 0x30.
pub open spec fn top_row() -> Seq<u8> {
    seq![0x51, 0x57, 0x45, 0x52, 0x54, 0x59, 0x55, 0x49, 0x4f, 0x50]
}

pub open spec fn home_row() -> Seq<u8> {
    seq![0x41, 0x53, 0x44, 0x46, 0x47, 0x48, 0x4a, 0x4b, 0x4c]
}

pub open spec fn bottom_row() -> Seq<u8> {
    seq![0x5a, 0x58, 0x43, 0x56, 0x42, 0x4e, 0x4d]
}

/// Set 1 base table, make codes.
pub open spec fn base_key(sc: u8) -> KeyCode {
    if sc == 0x01 {
        KeyCode::Escape
    } else if sc == 0x1c {
        KeyCode::Enter
    } else if sc == 0x1d {
        KeyCode::LCtrl
    } else if sc == 0x2a {
        KeyCode::LShift
    } else if sc == 0x36 {
        KeyCode::RShift
    } else if sc == 0x38 {
        KeyCode::LAlt
    } else if sc == 0x39 {
        KeyCode::Space
    } else if 0x02 <= sc <= 0x0a {
        KeyCode::Char((0x31 + sc - 0x02) as u8)
    } else if sc == 0x0b {
        KeyCode::Char(0x30)
    } else if 0x10 <= sc <= 0x19 {
        KeyCode::Char(top_row()[sc - 0x10])
    } else if 0x1e <= sc <= 0x26 {
        KeyCode::Char(home_row()[sc - 0x1e])
    } else if 0x2c <= sc <= 0x32 {
        KeyCode::Char(bottom_row()[sc - 0x2c])
    } else {
        KeyCode::Unknown(sc)
    }
}

/// Set 1 table behind the 0xe0 prefix.
pub open spec fn extended_key(sc: u8) -> KeyCode {
    if sc == 0x48 {
        KeyCode::Up
    } else if sc == 0x50 {
        KeyCode::Down
    } else if sc == 0x4b {
        KeyCode::Left
    } else if sc == 0x4d {
        KeyCode::Right
    } else if sc == 0x1d {
        KeyCode::LCtrl
    } else {
        KeyCode::Unknown(sc)
    }
}

/// The event a scancode byte stands for: bit 7 clear is a make code,
/// set is a break code; the low seven bits name the key.
pub open spec fn scancode_event(extended: bool, sc: u8) -> KeyEvent {
    let base = (sc % 0x80) as u8;
    KeyEvent {
        code: if extended { extended_key(base) } else { base_key(base) },
        pressed: sc < 0x80,
    }
}

/// Set 1 decode for the base table, make codes only.
pub fn decode_base(sc: u8) -> (k: KeyCode)
    ensures
        k == base_key(sc),
{
    let top: [u8; 10] = [0x51, 0x57, 0x45, 0x52, 0x54, 0x59, 0x55, 0x49, 0x4f, 0x50];
    let home: [u8; 9] = [0x41, 0x53, 0x44, 0x46, 0x47, 0x48, 0x4a, 0x4b, 0x4c];
    let bottom: [u8; 7] = [0x5a, 0x58, 0x43, 0x56, 0x42, 0x4e, 0x4d];
    assert(top@ =~= top_row());
    assert(home@ =~= home_row());
    assert(bottom@ =~= bottom_row());
    match sc {
        0x01 => KeyCode::Escape,
        0x1c => KeyCode::Enter,
        0x1d => KeyCode::LCtrl,
        0x2a => KeyCode::LShift,
        0x36 => KeyCode::RShift,
        0x38 => KeyCode::LAlt,
        0x39 => KeyCode::Space,
        // number row, 0x0b is zero because the row starts at one
        0x02..=0x0a => KeyCode::Char(0x31 + sc - 0x02),
        0x0b => KeyCode::Char(0x30),
        // letter rows in qwerty layout order
        0x10..=0x19 => KeyCode::Char(top[(sc - 0x10) as usize]),
        0x1e..=0x26 => KeyCode::Char(home[(sc - 0x1e) as usize]),
        0x2c..=0x32 => KeyCode::Char(bottom[(sc - 0x2c) as usize]),
        other => KeyCode::Unknown(other),
    }
}

/// Set 1 decode for the 0xe0 extended table.
pub fn decode_extended(sc: u8) -> (k: KeyCode)
    ensures
        k == extended_key(sc),
{
    match sc {
        0x48 => KeyCode::Up,
        0x50 => KeyCode::Down,
        0x4b => KeyCode::Left,
        0x4d => KeyCode::Right,
        0x1d => KeyCode::LCtrl,  // right ctrl, doom does not care which
        other => KeyCode::Unknown(other),
    }
}

/// Number of bytes between two free-running indices.
pub open spec fn ring_len(head: usize, tail: usize) -> int {
    if head >= tail {
        head - tail
    } else {
        head + (usize::MAX + 1) - tail
    }
}

/// Ring slot of the `k`-th byte after `tail`.
pub open spec fn ring_slot(tail: usize, k: int) -> int {
    (tail + k) % (QUEUE_SIZE as int)
}

/// Single producer, single consumer scancode ring. The indices run
/// freely and wrap at the end of the `usize` range.
pub struct ScancodeQueue {
    buf: Vec<u8>,
    /// Write index, advanced by the producer.
    head: usize,
    /// Read index, advanced by the consumer.
    tail: usize,
}

impl ScancodeQueue {
    /// The queued bytes, oldest first.
    pub closed spec fn view(&self) -> Seq<u8> {
        Seq::new(ring_len(self.head, self.tail) as nat, |k: int| self.buf@[ring_slot(self.tail, k)])
    }

    /// The ring holds its full buffer and never more than a buffer's
    /// worth of bytes.
    pub closed spec fn wf(&self) -> bool {
        &&& self.buf@.len() == QUEUE_SIZE
        &&& ring_len(self.head, self.tail) <= QUEUE_SIZE
    }

    /// An empty queue.
    pub fn new() -> (q: Self)
        ensures
            q.wf(),
            q@ == Seq::<u8>::empty(),
    {
        let q = ScancodeQueue { buf: vec![0u8; QUEUE_SIZE], head: 0, tail: 0 };
        assert(q@ =~= Seq::<u8>::empty());
        q
    }

    /// Append one byte. A full queue drops the byte: losing a keystroke
    /// beats blocking an interrupt handler.
    pub fn push(&mut self, b: u8)
        requires
            old(self).wf(),
        ensures
            final(self).wf(),
            old(self)@.len() < QUEUE_SIZE ==> final(self)@ == old(self)@.push(b),
            old(self)@.len() >= QUEUE_SIZE ==> final(self)@ == old(self)@,
    {
        let head = self.head;
        let tail = self.tail;
        let len = head.wrapping_sub(tail);
        assert(len == ring_len(head, tail));
        if len >= QUEUE_SIZE {
            return;
        }
        let ghost before = self@;
        proof {
            lemma_usize_range_aligned();
            if head < tail {
                lemma_slot_wrap(tail + len);
            }
            assert(head as int % (QUEUE_SIZE as int) == ring_slot(tail, len as int));
        }
        self.buf.set(head % QUEUE_SIZE, b);
        self.head = head.wrapping_add(1);
        proof {
            if head == usize::MAX {
                lemma_slot_wrap(tail + len + 1);
            }
            assert(ring_len(self.head, tail) == len + 1);
            assert forall|k: int| 0 <= k < len + 1 implies #[trigger] self@[k] == before.push(b)[k] by {
                if k < len {
                    assert(ring_slot(tail, k) != ring_slot(tail, len as int));
                }
            }
            assert(self@ =~= before.push(b));
        }
    }

    /// Take the oldest byte, `None` when the queue is empty.
    pub fn pop(&mut self) -> (r: Option<u8>)
        requires
            old(self).wf(),
        ensures
            final(self).wf(),
            old(self)@.len() == 0 ==> r is None && final(self)@ == old(self)@,
            old(self)@.len() > 0 ==> r == Some(old(self)@[0]) && final(self)@ == old(self)@.drop_first(),
    {
        let tail = self.tail;
        let head = self.head;
        if tail == head {
            return None;
        }
        let ghost before = self@;
        let b = self.buf[tail % QUEUE_SIZE];
        self.tail = tail.wrapping_add(1);
        proof {
            assert(b == before[0]);
            assert(ring_len(head, self.tail) == ring_len(head, tail) - 1);
            assert forall|k: int| 0 <= k < before.len() - 1 implies #[trigger] self@[k] == before[k + 1] by {
                if tail == usize::MAX {
                    lemma_slot_wrap(tail + k + 1);
                }
                assert(ring_slot(self.tail, k) == ring_slot(tail, k + 1));
            }
            assert(self@ =~= before.drop_first());
        }
        Some(b)
    }
}


/// What one poll of the decoder yields from a pending-prefix flag and
/// the queued bytes: the event, the new flag and the bytes left. Prefix
/// bytes are consumed and remembered; the first other byte is decoded.
pub open spec fn poll_result(pending: bool, q: Seq<u8>) -> (Option<KeyEvent>, bool, Seq<u8>)
    decreases q.len(),
{
    if q.len() == 0 {
        (None, pending, q)
    } else if q[0] == 0xe0 {
        poll_result(true, q.drop_first())
    } else {
        (Some(scancode_event(pending, q[0])), false, q.drop_first())
    }
}

/// Keyboard state: the scancode queue and the decoder's one bit of
/// memory, a pending 0xe0 prefix.
pub struct Keyboard {
    queue: ScancodeQueue,
    e0_pending: bool,
}

impl Keyboard {
    /// Bytes waiting to be decoded, oldest first.
    pub closed spec fn queued(&self) -> Seq<u8> {
        self.queue@
    }

    /// Whether an extended prefix has been read but not its key.
    pub closed spec fn pending(&self) -> bool {
        self.e0_pending
    }

    pub closed spec fn wf(&self) -> bool {
        self.queue.wf()
    }

    /// A keyboard with nothing queued and no prefix pending.
    pub fn new() -> (k: Self)
        ensures
            k.wf(),
            k.queued() == Seq::<u8>::empty(),
            !k.pending(),
    {
        Keyboard { queue: ScancodeQueue::new(), e0_pending: false }
    }

    /// Queue one scancode byte, as the interrupt handler does. A full
    /// queue drops it.
    pub fn on_scancode(&mut self, sc: u8)
        requires
            old(self).wf(),
        ensures
            final(self).wf(),
            final(self).pending() == old(self).pending(),
            old(self).queued().len() < QUEUE_SIZE ==> final(self).queued() == old(self).queued().push(sc),
            old(self).queued().len() >= QUEUE_SIZE ==> final(self).queued() == old(self).queued(),
    {
        self.queue.push(sc);
    }
}

/// Pull the next key event out of the queue, if any. Extended prefixes
/// are remembered across calls.
pub fn poll_event(kb: &mut Keyboard) -> (r: Option<KeyEvent>)
    requires
        old(kb).wf(),
    ensures
        final(kb).wf(),
        (r, final(kb).pending(), final(kb).queued()) == poll_result(old(kb).pending(), old(kb).queued()),
{
    loop
        invariant
            kb.wf(),
            poll_result(kb.pending(), kb.queued()) == poll_result(old(kb).pending(), old(kb).queued()),
        decreases kb.queued().len(),
    {
        let ghost q = kb.queued();
        match kb.queue.pop() {
            None => {
                return None;
            },
            Some(sc) => {
                if sc == 0xe0 {
                    kb.e0_pending = true;
                    continue;
                }
                let extended = kb.e0_pending;
                kb.e0_pending = false;
                let pressed = sc & 0x80 == 0;
                let base = sc & 0x7f;
                assert(pressed == (sc < 0x80) && base == sc % 0x80) by (bit_vector)
                    requires
                        pressed == (sc & 0x80 == 0),
                        base == sc & 0x7f,
                ;
                let code = if extended {
                    decode_extended(base)
                } else {
                    decode_base(base)
                };
                return Some(KeyEvent { code, pressed });
            },
        }
    }
}

} // verus!

verus! {

/// Prefix bytes read in one poll carry over to the next: polling bytes
/// that hold no key, then the rest, decodes the rest as if both had been
/// queued together.
pub proof fn lemma_prefix_carries_over(pending: bool, q1: Seq<u8>, q2: Seq<u8>)
    requires
        poll_result(pending, q1).0 is None,
    ensures
        poll_result(pending, q1 + q2) == poll_result(poll_result(pending, q1).1, q2),
    decreases q1.len(),
{
    if q1.len() == 0 {
        assert(q1 + q2 =~= q2);
    } else {
        assert(q1[0] == 0xe0);
        assert((q1 + q2)[0] == 0xe0);
        assert((q1 + q2).drop_first() =~= q1.drop_first() + q2);
        lemma_prefix_carries_over(true, q1.drop_first(), q2);
    }
}

/// The make and break codes of a key name the same key; only the make
/// code is a press.
pub proof fn lemma_make_break(extended: bool, sc: u8)
    requires
        sc < 0x80,
    ensures
        scancode_event(extended, sc).pressed,
        !scancode_event(extended, (sc + 0x80) as u8).pressed,
        scancode_event(extended, sc).code == scancode_event(extended, (sc + 0x80) as u8).code,
{
    assert(((sc + 0x80) as u8) % 0x80 == sc);
}

} // verus!

verus! {

/// The queue is first in, first out: a byte pushed behind others comes
/// out after them, and the oldest byte comes out first.
pub proof fn lemma_queue_fifo(s: Seq<u8>, b: u8)
    requires
        s.len() < QUEUE_SIZE,
    ensures
        s.len() == 0 ==> s.push(b)[0] == b && s.push(b).drop_first() == Seq::<u8>::empty(),
        s.len() > 0 ==> s.push(b)[0] == s[0] && s.push(b).drop_first() == s.drop_first().push(b),
{
    if s.len() > 0 {
        assert(s.push(b).drop_first() =~= s.drop_first().push(b));
    } else {
        assert(s.push(b).drop_first() =~= Seq::<u8>::empty());
    }
}

} // verus!

verus! {

/// The digit and letter keys of the base table decode to the character
/// printed on the key: the make codes run along the keyboard rows,
/// 0x02 to 0x0b over "1234567890", 0x10 on over "QWERTYUIOP", 0x1e on
/// over "ASDFGHJKL" and 0x2c on over "ZXCVBNM".
pub proof fn lemma_base_rows(k: int)
    ensures
        0 <= k < 10 ==> base_key((0x02 + k) as u8) == KeyCode::Char("1234567890".spec_bytes()[k]),
        0 <= k < 10 ==> base_key((0x10 + k) as u8) == KeyCode::Char("QWERTYUIOP".spec_bytes()[k]),
        0 <= k < 9 ==> base_key((0x1e + k) as u8) == KeyCode::Char("ASDFGHJKL".spec_bytes()[k]),
        0 <= k < 7 ==> base_key((0x2c + k) as u8) == KeyCode::Char("ZXCVBNM".spec_bytes()[k]),
{
    reveal_strlit("1234567890");
    reveal_strlit("QWERTYUIOP");
    reveal_strlit("ASDFGHJKL");
    reveal_strlit("ZXCVBNM");
    assert(vstd::string::is_ascii("1234567890"));
    assert(vstd::string::is_ascii("QWERTYUIOP"));
    assert(vstd::string::is_ascii("ASDFGHJKL"));
    assert(vstd::string::is_ascii("ZXCVBNM"));
    vstd::string::is_ascii_spec_bytes("1234567890");
    vstd::string::is_ascii_spec_bytes("QWERTYUIOP");
    vstd::string::is_ascii_spec_bytes("ASDFGHJKL");
    vstd::string::is_ascii_spec_bytes("ZXCVBNM");
}

/// The named keys of the base table: each has exactly one make code,
/// Escape 0x01, Enter 0x1c, left Ctrl 0x1d, left Shift 0x2a, right Shift
/// 0x36, left Alt 0x38 and Space 0x39; a code that names no key comes
/// back as itself.
pub proof fn lemma_base_named_keys(sc: u8)
    ensures
        (base_key(sc) == KeyCode::Escape) <==> sc == 0x01,
        (base_key(sc) == KeyCode::Enter) <==> sc == 0x1c,
        (base_key(sc) == KeyCode::LCtrl) <==> sc == 0x1d,
        (base_key(sc) == KeyCode::LShift) <==> sc == 0x2a,
        (base_key(sc) == KeyCode::RShift) <==> sc == 0x36,
        (base_key(sc) == KeyCode::LAlt) <==> sc == 0x38,
        (base_key(sc) == KeyCode::Space) <==> sc == 0x39,
        base_key(sc) is Unknown ==> base_key(sc) == KeyCode::Unknown(sc),
        base_key(sc) is Unknown <==> !(sc == 0x01 || 0x02 <= sc <= 0x0b || 0x10 <= sc <= 0x19
            || 0x1c <= sc <= 0x26 || 0x2a == sc || 0x2c <= sc <= 0x32 || sc == 0x36 || sc == 0x38
            || sc == 0x39),
{
}

/// The keys behind the 0xe0 prefix: the arrows at 0x48 (up), 0x50
/// (down), 0x4b (left) and 0x4d (right), right Ctrl at 0x1d reported as
/// Ctrl; every other code comes back as itself.
pub proof fn lemma_extended_keys(sc: u8)
    ensures
        (extended_key(sc) == KeyCode::Up) <==> sc == 0x48,
        (extended_key(sc) == KeyCode::Down) <==> sc == 0x50,
        (extended_key(sc) == KeyCode::Left) <==> sc == 0x4b,
        (extended_key(sc) == KeyCode::Right) <==> sc == 0x4d,
        (extended_key(sc) == KeyCode::LCtrl) <==> sc == 0x1d,
        !(sc == 0x48 || sc == 0x50 || sc == 0x4b || sc == 0x4d || sc == 0x1d) ==> extended_key(sc)
            == KeyCode::Unknown(sc),
{
}

/// A make code is a press of the key it names in its table, and the
/// same code with bit 7 set is the release of that key.
pub proof fn lemma_scancode_names_key(extended: bool, sc: u8)
    requires
        sc < 0x80,
    ensures
        scancode_event(extended, sc) == (KeyEvent {
            code: if extended { extended_key(sc) } else { base_key(sc) },
            pressed: true,
        }),
        scancode_event(extended, (sc + 0x80) as u8) == (KeyEvent {
            code: if extended { extended_key(sc) } else { base_key(sc) },
            pressed: false,
        }),
{
    assert(((sc + 0x80) as u8) % 0x80 == sc);
}

} // verus!
