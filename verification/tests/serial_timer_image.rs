use rozeos::image::{mbr_sector, wad_kind, WadKind};
use rozeos::serial::Serial;
use rozeos::timer::{pit_reload_bytes, sleep_deadline, still_sleeping, Timer};

#[test]
fn serial_sends_crlf_for_lf() {
    assert_eq!(Serial.encode(b"ab\ncd\n"), b"ab\r\ncd\r\n".to_vec());
    assert_eq!(Serial.encode(b""), Vec::<u8>::new());
    assert_eq!(Serial.encode(b"\r"), b"\r".to_vec());
}

#[test]
fn pit_divisor_is_1193() {
    let (lo, hi) = pit_reload_bytes();
    assert_eq!(lo as u16 | (hi as u16) << 8, 1193);
}

#[test]
fn timer_counts_ticks() {
    let mut t = Timer::new();
    assert_eq!(t.ticks_ms(), 0);
    for _ in 0..5 {
        t.on_tick();
    }
    assert_eq!(t.ticks_ms(), 5);
    let end = sleep_deadline(t.ticks_ms(), 3);
    assert_eq!(end, 8);
    assert!(still_sleeping(t.ticks_ms(), end));
    t.on_tick();
    t.on_tick();
    t.on_tick();
    assert!(!still_sleeping(t.ticks_ms(), end));
}

#[test]
fn mbr_layout() {
    let m = mbr_sector();
    assert_eq!(m.len(), 512);
    assert_eq!(&m[446..462], &[0x80, 0xff, 0xff, 0xff, 0xef, 0xff, 0xff, 0xff,
        0x00, 0x08, 0x00, 0x00, 0x00, 0xf8, 0x03, 0x00]);
    assert_eq!(m[510], 0x55);
    assert_eq!(m[511], 0xaa);
    assert!(m[..446].iter().all(|&b| b == 0));
    assert!(m[462..510].iter().all(|&b| b == 0));
    // partition length: 128 MiB in sectors, less the 2048 before it
    let sectors = u32::from_le_bytes([m[458], m[459], m[460], m[461]]);
    assert_eq!(sectors, 128 * 1024 * 1024 / 512 - 2048);
}

#[test]
fn wad_magic() {
    assert_eq!(wad_kind(*b"IWAD"), WadKind::Iwad);
    assert_eq!(wad_kind(*b"PWAD"), WadKind::Pwad);
    assert_eq!(wad_kind(*b"IWAX"), WadKind::NotWad);
    assert_eq!(wad_kind(*b"\x7fELF"), WadKind::NotWad);
}
