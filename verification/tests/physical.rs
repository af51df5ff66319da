use rozeos::physical::{boot_layout, BootLayout, FrameAllocator, InitError, Region, FRAME_SIZE};

fn region(base: u64, length: u64) -> Region {
    Region { base, length }
}

#[test]
fn empty_memory_map_is_refused() {
    let r = FrameAllocator::from_regions(&[]);
    assert!(matches!(r, Err(InitError::NoUsableRegions)));
}

#[test]
fn map_without_room_for_the_bitmap_is_refused() {
    // one frame of usable memory far up: the bitmap needs more bytes
    // than the region holds
    let r = FrameAllocator::from_regions(&[region(0x1000_0000, 16)]);
    assert!(matches!(r, Err(InitError::NoBitmapHome)));
}

#[test]
fn boot_counts_usable_frames_minus_the_bitmap() {
    // 16 frames usable from 0x10000, top at 0x20000: 32 frames tracked,
    // bitmap of 4 bytes in the first frame of the region
    let a = FrameAllocator::from_regions(&[region(0x10000, 0x10000)]).unwrap();
    assert_eq!(a.frames(), 32);
    assert_eq!(a.bitmap_bytes(), 4);
    assert_eq!(a.free_frames(), 15);
}

#[test]
fn partial_frames_at_region_edges_stay_used() {
    // region 0x1800..0x5800 covers frames 2, 3 and 4 wholly; the bitmap
    // sits in frame 1, which is not usable anyway
    let a = FrameAllocator::from_regions(&[region(0x1800, 0x4000)]).unwrap();
    assert_eq!(a.frames(), 6);
    assert_eq!(a.free_frames(), 3);
}

#[test]
fn allocate_hands_out_distinct_aligned_frames() {
    let mut a = FrameAllocator::from_regions(&[region(0x10000, 0x10000)]).unwrap();
    let before = a.free_frames();
    let f1 = a.allocate_frame().unwrap();
    let f2 = a.allocate_frame().unwrap();
    assert_ne!(f1, f2);
    assert_eq!(f1 % FRAME_SIZE as u64, 0);
    assert_eq!(f2 % FRAME_SIZE as u64, 0);
    // the bitmap occupies frame 16, so the first free frame is 17
    assert_eq!(f1, 17 * 0x1000);
    assert_eq!(f2, 18 * 0x1000);
    a.free_frame(f1);
    a.free_frame(f2);
    assert_eq!(a.free_frames(), before);
}

#[test]
fn allocation_continues_after_the_hint_and_wraps() {
    let mut a = FrameAllocator::from_regions(&[region(0x10000, 0x10000)]).unwrap();
    let first = a.allocate_frame().unwrap();
    a.free_frame(first);
    // the hint moved past the freed frame, the scan goes on from there
    let second = a.allocate_frame().unwrap();
    assert_eq!(second, first + 0x1000);
    // take everything that is left; the freed first frame comes last
    let mut last = second;
    while let Some(f) = a.allocate_frame() {
        last = f;
    }
    assert_eq!(last, first);
    assert_eq!(a.free_frames(), 0);
    assert_eq!(a.allocate_frame(), None);
}

#[test]
fn contiguous_takes_the_lowest_run() {
    let mut a = FrameAllocator::from_regions(&[region(0x10000, 0x10000)]).unwrap();
    let free = a.free_frames();
    let base = a.allocate_contiguous(4).unwrap();
    assert_eq!(base, 17 * 0x1000);
    assert_eq!(a.free_frames(), free - 4);
    // the next single frame comes after the run... the hint is still
    // at zero, so the scan finds frame 21 first
    assert_eq!(a.allocate_frame(), Some(21 * 0x1000));
}

#[test]
fn contiguous_skips_runs_that_are_too_short() {
    let mut a = FrameAllocator::from_regions(&[region(0x10000, 0x10000)]).unwrap();
    let f = a.allocate_frame().unwrap(); // frame 17
    let g = a.allocate_frame().unwrap(); // frame 18
    a.free_frame(f);
    // frame 17 alone is free before 19..: a run of 2 starts at 19
    let base = a.allocate_contiguous(2).unwrap();
    assert_eq!(base, 19 * 0x1000);
    assert_eq!(g, 18 * 0x1000);
}

#[test]
fn contiguous_of_zero_or_too_many_is_none() {
    let mut a = FrameAllocator::from_regions(&[region(0x10000, 0x10000)]).unwrap();
    assert_eq!(a.allocate_contiguous(0), None);
    assert_eq!(a.allocate_contiguous(16), None);
    assert_eq!(a.allocate_contiguous(15), Some(17 * 0x1000));
    assert_eq!(a.free_frames(), 0);
}

#[test]
fn reserved_holes_stay_used() {
    let mut a = FrameAllocator::from_regions(&[region(0x10000, 0x4000), region(0x20000, 0x4000)])
        .unwrap();
    assert_eq!(a.frames(), 36);
    // frames 17..20 and 32..36 are free, 16 holds the bitmap
    assert_eq!(a.free_frames(), 7);
    let mut seen = Vec::new();
    while let Some(f) = a.allocate_frame() {
        seen.push(f);
    }
    assert_eq!(seen, vec![0x11000, 0x12000, 0x13000, 0x20000, 0x21000, 0x22000, 0x23000]);
}

#[test]
fn overlapping_bitmap_frames_are_counted_once() {
    // the bitmap of a large map spans several frames of its home region
    let a = FrameAllocator::from_regions(&[region(0, 0x800_0000)]).unwrap();
    // 0x8000 frames tracked, 0x1000 bitmap bytes: one frame
    assert_eq!(a.frames(), 0x8000);
    assert_eq!(a.bitmap_bytes(), 0x1000);
    assert_eq!(a.free_frames(), 0x8000 - 1);
}

#[test]
fn boot_layout_picks_the_first_region_that_fits() {
    // 0x40000 tracked bytes of frames: 64 frames, 8 bitmap bytes; the
    // first region is too small
    let l = boot_layout(&[region(0x1000, 4), region(0x20000, 0x20000)]).unwrap();
    assert_eq!(l, BootLayout { frames: 64, bitmap_bytes: 8, home: 1 });
    assert!(matches!(boot_layout(&[]), Err(InitError::NoUsableRegions)));
}

#[test]
fn two_region_boot_leaves_one_frame_free() {
    // five frames tracked, the one-byte bitmap sits in frame 1, frame 3
    // is only half covered: only frame 4 is free
    let mut a = FrameAllocator::from_regions(&[region(0x1000, 0x1000), region(0x3800, 0x1800)]).unwrap();
    assert_eq!(a.frames(), 5);
    assert_eq!(a.free_frames(), 1);
    assert_eq!(a.allocate_frame(), Some(0x4000));
    assert_eq!(a.free_frames(), 0);
    assert_eq!(a.allocate_frame(), None);
    assert_eq!(a.allocate_contiguous(1), None);
    assert_eq!(a.free_frames(), 0);
    a.free_frame(0x4000);
    assert_eq!(a.free_frames(), 1);
    assert_eq!(a.allocate_frame(), Some(0x4000));
    assert_eq!(a.free_frames(), 0);
}
