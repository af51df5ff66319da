//! Boot disk image layout: the master boot record and the WAD check.
//!
//! The image is a plain MBR with one bootable EFI system partition
//! starting at the customary LBA 2048 and running to the end; FAT32
//! lives inside it.

use vstd::prelude::*;
use vstd::string::StringSliceAdditionalSpecFns;

verus! {

/// Image size: 128 MiB.
pub const IMG_SIZE: u64 = 134_217_728;

/// First sector of the partition.
pub const PART_START_LBA: u64 = 2048;

/// Sector size in bytes.
pub const SECTOR: u64 = 512;

/// Byte `k` of the little-endian encoding of `v`.
pub open spec fn le_byte(v: int, k: int) -> u8 {
    if k == 0 {
        (v % 256) as u8
    } else if k == 1 {
        ((v / 256) % 256) as u8
    } else if k == 2 {
        ((v / 65536) % 256) as u8
    } else {
        ((v / 16777216) % 256) as u8
    }
}

/// Sectors in the partition: from its start to the end of the image.
pub open spec fn partition_sectors() -> int {
    IMG_SIZE / SECTOR - PART_START_LBA
}

/// Byte `i` of the master boot record: one bootable partition entry of
/// type 0xef with its CHS fields maxed out, start and length in
/// sectors, and the boot signature.
pub open spec fn mbr_byte(i: int) -> u8 {
    if i == 446 {
        0x80
    } else if 447 <= i <= 449 {
        0xff
    } else if i == 450 {
        0xef
    } else if 451 <= i <= 453 {
        0xff
    } else if 454 <= i < 458 {
        le_byte(PART_START_LBA as int, i - 454)
    } else if 458 <= i < 462 {
        le_byte(partition_sectors(), i - 458)
    } else if i == 510 {
        0x55
    } else if i == 511 {
        0xaa
    } else {
        0
    }
}

fn le_bytes(v: u32) -> (b: [u8; 4])
    ensures
        forall|k: int| 0 <= k < 4 ==> #[trigger] b@[k] == le_byte(v as int, k),
{
    let b0 = (v & 0xff) as u8;
    let b1 = ((v >> 8u32) & 0xff) as u8;
    let b2 = ((v >> 16u32) & 0xff) as u8;
    let b3 = ((v >> 24u32) & 0xff) as u8;
    assert(b0 == v % 256 && b1 == (v / 256) % 256 && b2 == (v / 65536) % 256 && b3 == (v
        / 16777216) % 256) by (bit_vector)
        requires
            b0 == (v & 0xff) as u8,
            b1 == ((v >> 8u32) & 0xff) as u8,
            b2 == ((v >> 16u32) & 0xff) as u8,
            b3 == ((v >> 24u32) & 0xff) as u8,
    ;
    [b0, b1, b2, b3]
}

/// The master boot record sector of the image.
pub fn mbr_sector() -> (mbr: Vec<u8>)
    ensures
        mbr@.len() == 512,
        forall|i: int| 0 <= i < 512 ==> #[trigger] mbr@[i] == mbr_byte(i),
{
    let mut mbr = vec![0u8; 512];
    mbr.set(446, 0x80);  // bootable
    mbr.set(447, 0xff);
    mbr.set(448, 0xff);
    mbr.set(449, 0xff);
    mbr.set(450, 0xef);  // efi system partition
    mbr.set(451, 0xff);
    mbr.set(452, 0xff);
    mbr.set(453, 0xff);
    let start = le_bytes(PART_START_LBA as u32);
    let sectors = le_bytes((IMG_SIZE / SECTOR - PART_START_LBA) as u32);
    let mut k: usize = 0;
    while k < 4
        invariant
            k <= 4,
            mbr@.len() == 512,
            forall|k2: int| 0 <= k2 < 4 ==> #[trigger] start@[k2] == le_byte(PART_START_LBA as int, k2),
            forall|k2: int| 0 <= k2 < 4 ==> #[trigger] sectors@[k2] == le_byte(partition_sectors(), k2),
            forall|i: int| 0 <= i < 512 ==> #[trigger] mbr@[i] == if 454 <= i < 454 + k {
                le_byte(PART_START_LBA as int, i - 454)
            } else if 458 <= i < 458 + k {
                le_byte(partition_sectors(), i - 458)
            } else if 454 <= i < 462 || i == 510 || i == 511 {
                0
            } else {
                mbr_byte(i)
            },
        decreases 4 - k,
    {
        mbr.set(454 + k, start[k]);
        mbr.set(458 + k, sectors[k]);
        k = k + 1;
    }
    mbr.set(510, 0x55);
    mbr.set(511, 0xaa);
    mbr
}

/// What the first four bytes of a file say it is.
#[derive(Clone, Copy, PartialEq, Eq, Debug, Structural)]
pub enum WadKind {
    /// A game: "IWAD".
    Iwad,
    /// Mod data, not a game: "PWAD".
    Pwad,
    /// Not a WAD file.
    NotWad,
}

/// The kind a WAD magic stands for ("IWAD" or "PWAD" in ASCII).
pub open spec fn magic_kind(magic: Seq<u8>) -> WadKind {
    if magic == seq![0x49u8, 0x57u8, 0x41u8, 0x44u8] {
        WadKind::Iwad
    } else if magic == seq![0x50u8, 0x57u8, 0x41u8, 0x44u8] {
        WadKind::Pwad
    } else {
        WadKind::NotWad
    }
}

/// Classify a file by its first four bytes. Doom needs an IWAD; a PWAD
/// is mod data and is refused.
pub fn wad_kind(magic: [u8; 4]) -> (k: WadKind)
    ensures
        k == magic_kind(magic@),
{
    let wad = magic[1] == 0x57 && magic[2] == 0x41 && magic[3] == 0x44;
    if wad && magic[0] == 0x49 {
        assert(magic@ =~= seq![0x49u8, 0x57u8, 0x41u8, 0x44u8]);
        WadKind::Iwad
    } else if wad && magic[0] == 0x50 {
        assert(magic@ =~= seq![0x50u8, 0x57u8, 0x41u8, 0x44u8]);
        WadKind::Pwad
    } else {
        proof {
            let iwad = seq![0x49u8, 0x57u8, 0x41u8, 0x44u8];
            let pwad = seq![0x50u8, 0x57u8, 0x41u8, 0x44u8];
            if magic@ == iwad {
                assert(magic@[0] == iwad[0] && magic@[1] == iwad[1] && magic@[2] == iwad[2] && magic@[3] == iwad[3]);
            }
            if magic@ == pwad {
                assert(magic@[0] == pwad[0] && magic@[1] == pwad[1] && magic@[2] == pwad[2] && magic@[3] == pwad[3]);
            }
        }
        WadKind::NotWad
    }
}

/// The little-endian number in bytes `at` to `at + 4` of the record.
pub open spec fn mbr_u32(at: int) -> int {
    mbr_byte(at) + 256 * mbr_byte(at + 1) + 65536 * mbr_byte(at + 2) + 16777216 * mbr_byte(at + 3)
}

/// The boot record holds one partition entry, the first of four at byte
/// 446: it is bootable (0x80), of type EFI system (0xef), starts at
/// sector 2048 and runs to the last of the image's 512-byte sectors; the
/// other three entries are empty, the boot code area is zero, and the
/// record ends in the 0x55 0xaa signature.
pub proof fn lemma_mbr_layout(i: int)
    ensures
        mbr_byte(446) == 0x80,
        mbr_byte(450) == 0xef,
        mbr_u32(454) == 2048,
        mbr_u32(454) + mbr_u32(458) == 134_217_728int / 512,
        mbr_byte(510) == 0x55,
        mbr_byte(511) == 0xaa,
        (0 <= i < 446 || 462 <= i < 510) ==> mbr_byte(i) == 0,
{
    assert(partition_sectors() == 260096);
}

/// A file is taken as a game only when it starts with "IWAD", and
/// refused as mod data when it starts with "PWAD"; anything else is no
/// WAD at all.
pub proof fn lemma_wad_magic(magic: Seq<u8>)
    ensures
        (magic_kind(magic) == WadKind::Iwad) <==> magic == "IWAD".spec_bytes(),
        (magic_kind(magic) == WadKind::Pwad) <==> magic == "PWAD".spec_bytes(),
{
    reveal_strlit("IWAD");
    reveal_strlit("PWAD");
    assert(vstd::string::is_ascii("IWAD"));
    assert(vstd::string::is_ascii("PWAD"));
    vstd::string::is_ascii_spec_bytes("IWAD");
    vstd::string::is_ascii_spec_bytes("PWAD");
    assert("IWAD".spec_bytes() =~= seq![0x49u8, 0x57u8, 0x41u8, 0x44u8]);
    assert("PWAD".spec_bytes() =~= seq![0x50u8, 0x57u8, 0x41u8, 0x44u8]);
}

} // verus!
