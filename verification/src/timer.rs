//! Programmable interval timer, channel 0, as a millisecond clock.
//!
//! The 8253/8254 runs at 1193182 Hz; programmed as a rate generator
//! with divisor 1193 it fires every 0.99985 ms, close enough to call a
//! millisecond. Each interrupt bumps the tick counter.

use vstd::prelude::*;

verus! {

/// Tick rate: one tick, one millisecond, near enough.
pub const HZ: u32 = 1000;

/// PIT input clock in Hz, fixed by the hardware.
pub const PIT_CLOCK: u32 = 1_193_182;

/// The channel 0 reload value for `HZ` interrupts a second, low byte
/// first as the PIT takes it.
pub fn pit_reload_bytes() -> (b: (u8, u8))
    ensures
        b.0 as int + 256 * b.1 as int == PIT_CLOCK / HZ,
{
    let divisor = (PIT_CLOCK / HZ) as u16;
    let lo = (divisor & 0xff) as u8;
    let hi = (divisor >> 8u16) as u8;
    assert(divisor == 1193);
    assert(lo == 169 && hi == 4) by (bit_vector)
        requires
            divisor == 1193u16,
            lo == (divisor & 0xff) as u8,
            hi == (divisor >> 8u16) as u8,
    ;
    (lo, hi)
}

/// The counter after one tick: one more, wrapping at the end of the
/// `u64` range.
pub open spec fn tick_value(t: u64) -> u64 {
    if t == u64::MAX {
        0
    } else {
        (t + 1) as u64
    }
}

/// The counter after `n` ticks from `t`.
pub open spec fn ticks_after(t: u64, n: nat) -> u64
    decreases n,
{
    if n == 0 {
        t
    } else {
        tick_value(ticks_after(t, (n - 1) as nat))
    }
}

/// Milliseconds since the timer came up. The counter wraps at the end
/// of the `u64` range, after some 584 million years.
pub struct Timer {
    ticks: u64,
}

impl Timer {
    pub closed spec fn spec_ticks(&self) -> u64 {
        self.ticks
    }

    /// A clock at zero.
    pub fn new() -> (t: Self)
        ensures
            t.spec_ticks() == 0,
    {
        Timer { ticks: 0 }
    }

    /// One timer interrupt: one more millisecond.
    pub fn on_tick(&mut self)
        ensures
            final(self).spec_ticks() == tick_value(old(self).spec_ticks()),
    {
        self.ticks = self.ticks.wrapping_add(1);
    }

    /// Milliseconds since boot, give or take PIT drift.
    pub fn ticks_ms(&self) -> (t: u64)
        ensures
            t == self.spec_ticks(),
    {
        self.ticks
    }
}

/// The tick count at which a sleep of `ms` milliseconds started at
/// `now` ends.
pub fn sleep_deadline(now: u64, ms: u64) -> (end: u64)
    requires
        now + ms <= u64::MAX,
    ensures
        end == now + ms,
{
    now + ms
}

/// Whether a sleep that ends at `end` is still running at `now`.
pub fn still_sleeping(now: u64, end: u64) -> (r: bool)
    ensures
        r == (now < end),
{
    now < end
}

/// The clock counts its ticks: after `n` ticks from `t` it reads
/// `t + n`, modulo 2^64.
pub proof fn lemma_ticks_count(t: u64, n: nat)
    ensures
        ticks_after(t, n) == (t + n) % 0x1_0000_0000_0000_0000,
    decreases n,
{
    if n > 0 {
        lemma_ticks_count(t, (n - 1) as nat);
        let p = ticks_after(t, (n - 1) as nat);
        let m: int = 0x1_0000_0000_0000_0000;
        assert(p == (t + n - 1) % m);
        if p == u64::MAX {
            vstd::arithmetic::div_mod::lemma_add_mod_noop(t + n - 1, 1, m);
            assert((t + n) % m == ((p + 1) as int) % m);
            vstd::arithmetic::div_mod::lemma_mod_self_0(m);
        } else {
            vstd::arithmetic::div_mod::lemma_add_mod_noop(t + n - 1, 1, m);
            vstd::arithmetic::div_mod::lemma_small_mod((p + 1) as nat, m as nat);
        }
    }
}

} // verus!
