//! Conditions on the raw bytes of an image under which the outside partition-table readers
//! return at all, and verified checks of them.
//!
//! mbrman's `MBR::read_from` adds 32-bit sector numbers unchecked while it walks the chain of
//! extended boot records, and unwraps the largest common alignment of the used start sectors,
//! which does not exist when every used start sector is 0. gpt's `open_from_device` asserts
//! that the header it reads the entry array by declares 128-byte entries. The conditions
//! below follow the on-disk layouts those readers decode, so that the library refuses such
//! images instead of handing them over.
use crate::parser::superblock::{le_u32, le_u64};
use vstd::prelude::*;
use vstd::string::*;

verus! {

/// The number of bytes of one boot record (MBR or EBR) and of one logical block.
pub const BLOCK_SIZE: usize = 512;

/// The offset of the partition entries within a boot record.
pub const BOOT_RECORD_ENTRIES_OFFSET: usize = 446;

/// The number of bytes of one boot-record partition entry.
pub const BOOT_RECORD_ENTRY_SIZE: usize = 16;

/// The number of bytes of a GPT header that gpt reads and checksums.
pub const GPT_HEADER_LEN: usize = 92;

/// The offset into the byte sequence of field `field` of entry `slot` of the boot record in
/// sector `sector`.
pub open spec fn entry_offset(sector: int, slot: int, field: int) -> int {
    sector * BLOCK_SIZE + BOOT_RECORD_ENTRIES_OFFSET + BOOT_RECORD_ENTRY_SIZE * slot + field
}

/// The type byte of entry `slot` of the boot record in sector `sector`.
pub open spec fn entry_sys(d: Seq<u8>, sector: int, slot: int) -> u8 {
    d[entry_offset(sector, slot, 4)]
}

/// The start sector of entry `slot` of the boot record in sector `sector`.
pub open spec fn entry_start(d: Seq<u8>, sector: int, slot: int) -> int {
    le_u32(d, entry_offset(sector, slot, 8))
}

/// Whether sector `sector` lies in `d`, ends with the boot signature, and the boot flags of its
/// first `slots` entries are 0x00 or 0x80: what mbrman checks of a boot record it reads.
pub open spec fn boot_record_valid(d: Seq<u8>, sector: int, slots: int) -> bool {
    &&& 0 <= sector
    &&& (sector + 1) * BLOCK_SIZE <= d.len()
    &&& d[sector * BLOCK_SIZE + 510] == 0x55
    &&& d[sector * BLOCK_SIZE + 511] == 0xAA
    &&& forall|k: int|
        0 <= k < slots ==> (#[trigger] d[entry_offset(sector, k, 0)] == 0x00 || d[entry_offset(
            sector,
            k,
            0,
        )] == 0x80)
}

/// Whether a type byte marks an extended partition for mbrman (`is_extended`).
pub open spec fn is_extended_for_mbrman(sys: u8) -> bool {
    sys == 0x05 || sys == 0x0F || sys == 0x85 || sys == 0xC5 || sys == 0xD5
}

/// The first primary slot of the MBR whose type marks an extended partition.
pub open spec fn extended_slot(d: Seq<u8>) -> Option<int> {
    if is_extended_for_mbrman(entry_sys(d, 0, 0)) {
        Some(0)
    } else if is_extended_for_mbrman(entry_sys(d, 0, 1)) {
        Some(1)
    } else if is_extended_for_mbrman(entry_sys(d, 0, 2)) {
        Some(2)
    } else if is_extended_for_mbrman(entry_sys(d, 0, 3)) {
        Some(3)
    } else {
        None
    }
}

/// Whether the MBR has a used primary entry and every used primary entry starts at sector 0.
pub open spec fn primary_used_starts_all_zero(d: Seq<u8>) -> bool {
    &&& exists|k: int| 0 <= k < 4 && #[trigger] entry_sys(d, 0, k) != 0
    &&& forall|k: int| 0 <= k < 4 && #[trigger] entry_sys(d, 0, k) != 0 ==> entry_start(d, 0, k) == 0
}

/// Whether, from the extended boot record `rel` sectors into the extended partition that
/// starts at sector `x`, every record that mbrman goes on to read has an absolute sector and a
/// logical start sector that fit in 32 bits. The walk stops where mbrman stops: at a record
/// outside the image or not valid, at a next pointer of 0, or at one that does not increase.
pub open spec fn ebr_chain_fits(d: Seq<u8>, x: int, rel: int) -> bool
    decreases d.len() - (x + rel) * BLOCK_SIZE,
{
    let s = x + rel;
    if !boot_record_valid(d, s, 2) || x < 0 || rel < 0 {
        true
    } else if s > u32::MAX {
        false
    } else if entry_start(d, s, 0) + s > u32::MAX {
        false
    } else {
        let n = entry_start(d, s, 1);
        if n == 0 || rel >= n || !boot_record_valid(d, x + n, 2) {
            true
        } else {
            ebr_chain_fits(d, x, n)
        }
    }
}

/// Whether mbrman's walk of the chain of extended boot records, from the record `rel`
/// sectors into the extended partition that starts at sector `x`, ends without an error, and
/// every used logical partition it lists starts at absolute sector 0. A first record that
/// cannot be read ends the walk without an error; any later one that cannot be read, and a
/// next pointer that does not increase, is an error.
pub open spec fn ebr_chain_completes_at_zero(d: Seq<u8>, x: int, rel: int) -> bool
    decreases d.len() - (x + rel) * BLOCK_SIZE,
{
    let s = x + rel;
    if x < 0 || rel < 0 {
        false
    } else if !boot_record_valid(d, s, 2) {
        rel == 0
    } else {
        let here = entry_sys(d, s, 0) == 0 || entry_start(d, s, 0) + s == 0;
        let n = entry_start(d, s, 1);
        if n == 0 {
            here
        } else if rel >= n || !boot_record_valid(d, x + n, 2) {
            false
        } else {
            here && ebr_chain_completes_at_zero(d, x, n)
        }
    }
}

/// Whether every sector figure of the extended chain, if the MBR has an extended partition,
/// fits in 32 bits (see `ebr_chain_fits`).
pub open spec fn mbr_chain_fits(d: Seq<u8>) -> bool {
    match extended_slot(d) {
        None => true,
        Some(k) => ebr_chain_fits(d, entry_start(d, 0, k), 0),
    }
}

/// Whether mbrman reaches its choice of alignment with a non-empty list of used start sectors
/// that are all 0, where it unwraps a largest common divisor that does not exist: every used
/// primary entry starts at sector 0, and the chain walk, if any, ends without an error and
/// lists only used logical partitions that start at sector 0.
pub open spec fn mbr_alignment_fails(d: Seq<u8>) -> bool {
    primary_used_starts_all_zero(d) && match extended_slot(d) {
        None => true,
        Some(k) => ebr_chain_completes_at_zero(d, entry_start(d, 0, k), 0),
    }
}

/// Whether mbrman's `MBR::read_from` returns (with a table or an error) on image `d` read
/// with 512-byte sectors.
pub open spec fn mbr_read_returns(d: Seq<u8>) -> bool {
    !boot_record_valid(d, 0, 4) || (mbr_chain_fits(d) && !mbr_alignment_fails(d))
}

/// Why the library does not hand image `d` to mbrman.
pub open spec fn mbr_refusal(d: Seq<u8>) -> Seq<char> {
    if !mbr_chain_fits(d) {
        "a logical partition's start sector does not fit in 32 bits"@
    } else {
        "every used partition starts at sector 0"@
    }
}

/// One bit step of the reflected CRC-32 (polynomial 0xEDB88320).
pub open spec fn crc32_shift(c: u32) -> u32 {
    if c & 1 == 1 {
        (c >> 1) ^ 0xEDB8_8320
    } else {
        c >> 1
    }
}

/// The CRC-32 register after taking in byte `b`.
pub open spec fn crc32_byte(c: u32, b: u8) -> u32 {
    crc32_shift_times(c ^ (b as u32), 8)
}

/// The CRC-32 register after taking in `s`, from the all-ones start value.
pub open spec fn crc32_register(s: Seq<u8>) -> u32
    decreases s.len(),
{
    if s.len() == 0 {
        0xFFFF_FFFF
    } else {
        crc32_byte(crc32_register(s.drop_last()), s.last())
    }
}

/// The CRC-32 (ISO-HDLC, as used by GPT) of `s`.
pub open spec fn crc32_of(s: Seq<u8>) -> u32 {
    crc32_register(s) ^ 0xFFFF_FFFF
}

/// The bytes of the GPT header at `off` that its checksum covers: the header with its own
/// checksum field set to zero.
pub open spec fn gpt_header_checksummed(d: Seq<u8>, off: int) -> Seq<u8> {
    d.subrange(off, off + 16) + seq![0u8, 0u8, 0u8, 0u8] + d.subrange(off + 20, off + 92)
}

/// Whether gpt accepts a header at byte `off`: it lies in the image, starts with the
/// signature "EFI PART", and its checksum matches.
pub open spec fn gpt_header_valid(d: Seq<u8>, off: int) -> bool {
    &&& 0 <= off
    &&& off + GPT_HEADER_LEN <= d.len()
    &&& d.subrange(off, off + 8) == seq![0x45u8, 0x46u8, 0x49u8, 0x20u8, 0x50u8, 0x41u8, 0x52u8, 0x54u8]
    &&& le_u32(d, off + 16) == crc32_of(gpt_header_checksummed(d, off))
}

/// The byte offset of the last whole block, where gpt looks for the backup header.
pub open spec fn gpt_backup_offset(d: Seq<u8>) -> int {
    ((d.len() - BLOCK_SIZE) / BLOCK_SIZE as int) * BLOCK_SIZE
}

/// Whether gpt accepts a backup header: the image has at least three blocks and the header
/// in its last block is valid.
pub open spec fn gpt_backup_valid(d: Seq<u8>) -> bool {
    d.len() >= 3 * BLOCK_SIZE && gpt_header_valid(d, gpt_backup_offset(d))
}

/// Whether reading the entry array by the header at `off` passes gpt's entry-size
/// assertion: the array's start overflows first (an error), or the entries are 128 bytes.
pub open spec fn gpt_header_entries_fit(d: Seq<u8>, off: int) -> bool {
    le_u64(d, off + 72) * BLOCK_SIZE > u64::MAX || le_u32(d, off + 84) == 128
}

/// Whether gpt's `open_from_device` returns (with a disk or an error) on image `d` read with
/// 512-byte blocks: the header it reads the entries by, the primary one if valid and else the
/// backup, declares 128-byte entries.
pub open spec fn gpt_open_returns(d: Seq<u8>) -> bool {
    if gpt_header_valid(d, BLOCK_SIZE as int) {
        gpt_header_entries_fit(d, BLOCK_SIZE as int)
    } else if gpt_backup_valid(d) {
        gpt_header_entries_fit(d, gpt_backup_offset(d))
    } else {
        true
    }
}

/// The little-endian `u32` at `at`.
fn u32_at(d: &[u8], at: usize) -> (v: u32)
    requires
        at + 4 <= d@.len(),
    ensures
        v == le_u32(d@, at as int),
{
    d[at] as u32 + 256 * (d[at + 1] as u32) + 65536 * (d[at + 2] as u32) + 16777216 * (
    d[at + 3] as u32)
}

/// The little-endian `u64` at `at`.
fn u64_at(d: &[u8], at: usize) -> (v: u64)
    requires
        at + 8 <= d@.len(),
    ensures
        v == le_u64(d@, at as int),
{
    let n = d.len();
    assert(at + 8 <= n);
    u32_at(d, at) as u64 + 4294967296 * (u32_at(d, at + 4) as u64)
}

/// Whether sector `sector` is a valid boot record whose first `slots` entries have valid
/// boot flags (see `boot_record_valid`).
fn boot_record_is_valid(d: &[u8], sector: u64, slots: usize) -> (r: bool)
    requires
        slots <= 4,
    ensures
        r == boot_record_valid(d@, sector as int, slots as int),
{
    let n = d.len();
    if sector >= u64::MAX / 512 || (sector + 1) * 512 > n as u64 {
        assert((sector + 1) * BLOCK_SIZE > d@.len());
        return false;
    }
    let base = (sector * 512) as usize;
    if d[base + 510] != 0x55 || d[base + 511] != 0xAA {
        return false;
    }
    let mut k: usize = 0;
    while k < slots
        invariant
            k <= slots <= 4,
            base == sector * BLOCK_SIZE,
            (sector + 1) * BLOCK_SIZE <= d@.len(),
            forall|j: int|
                0 <= j < k ==> (#[trigger] d@[entry_offset(sector as int, j, 0)] == 0x00
                    || d@[entry_offset(sector as int, j, 0)] == 0x80),
        decreases slots - k,
    {
        let flag = d[base + 446 + 16 * k];
        if flag != 0x00 && flag != 0x80 {
            assert(d@[entry_offset(sector as int, k as int, 0)] == flag);
            return false;
        }
        k = k + 1;
    }
    true
}

/// The type byte of primary entry `slot` of a valid MBR.
fn primary_sys(d: &[u8], slot: usize) -> (r: u8)
    requires
        slot < 4,
        BLOCK_SIZE <= d@.len(),
    ensures
        r == entry_sys(d@, 0, slot as int),
{
    d[446 + 16 * slot + 4]
}

/// Whether the extended boot record chain fits (see `ebr_chain_fits`).
fn ebr_chain_is_fitting(d: &[u8], x: u32) -> (r: bool)
    ensures
        r == ebr_chain_fits(d@, x as int, 0),
{
    let mut rel: u64 = 0;
    let len = d.len();
    loop
        invariant
            rel <= u32::MAX,
            len == d@.len(),
            ebr_chain_fits(d@, x as int, 0) == ebr_chain_fits(d@, x as int, rel as int),
            rel == 0 || boot_record_valid(d@, x + rel, 2),
        decreases d@.len() - (x + rel) * BLOCK_SIZE,
    {
        let s = x as u64 + rel;
        if !boot_record_is_valid(d, s, 2) {
            return true;
        }
        if s > u32::MAX as u64 {
            return false;
        }
        let base = (s * 512) as usize;
        let first_start = u32_at(d, base + 446 + 8);
        if first_start as u64 + s > u32::MAX as u64 {
            return false;
        }
        let n = u32_at(d, base + 446 + 16 + 8) as u64;
        if n == 0 || rel >= n || !boot_record_is_valid(d, x as u64 + n, 2) {
            return true;
        }
        rel = n;
    }
}

/// Whether mbrman's chain walk ends without an error and lists only used logical partitions
/// at sector 0 (see `ebr_chain_completes_at_zero`).
fn ebr_chain_is_at_zero(d: &[u8], x: u32) -> (r: bool)
    ensures
        r == ebr_chain_completes_at_zero(d@, x as int, 0),
{
    let mut rel: u64 = 0;
    let len = d.len();
    loop
        invariant
            rel <= u32::MAX,
            len == d@.len(),
            ebr_chain_completes_at_zero(d@, x as int, 0) == ebr_chain_completes_at_zero(
                d@,
                x as int,
                rel as int,
            ),
            rel == 0 || boot_record_valid(d@, x + rel, 2),
        decreases d@.len() - (x + rel) * BLOCK_SIZE,
    {
        let s = x as u64 + rel;
        if !boot_record_is_valid(d, s, 2) {
            return rel == 0;
        }
        let base = (s * 512) as usize;
        let sys = d[base + 446 + 4];
        let start = u32_at(d, base + 446 + 8) as u64;
        assert(sys == entry_sys(d@, s as int, 0));
        let here = sys == 0 || (start == 0 && s == 0);
        let n = u32_at(d, base + 446 + 16 + 8) as u64;
        if n == 0 {
            return here;
        }
        if rel >= n || !boot_record_is_valid(d, x as u64 + n, 2) || !here {
            return false;
        }
        rel = n;
    }
}

/// Checks that mbrman returns on `image` (see `mbr_read_returns`), or gives the reason the
/// library refuses it.
pub fn check_mbr_readable(image: &[u8]) -> (r: Result<(), String>)
    ensures
        match r {
            Ok(()) => mbr_read_returns(image@),
            Err(e) => !mbr_read_returns(image@) && e@ == mbr_refusal(image@),
        },
{
    if !boot_record_is_valid(image, 0, 4) {
        return Ok(());
    }
    let mut any_used = false;
    let mut nonzero_start = false;
    let mut extended: Option<usize> = None;
    let mut k: usize = 0;
    while k < 4
        invariant
            k <= 4,
            BLOCK_SIZE <= image@.len(),
            any_used == exists|j: int| 0 <= j < k && #[trigger] entry_sys(image@, 0, j) != 0,
            nonzero_start == exists|j: int|
                0 <= j < k && #[trigger] entry_sys(image@, 0, j) != 0 && entry_start(image@, 0, j)
                    != 0,
            match extended {
                Some(e) => e < k && extended_slot(image@) == Some(e as int),
                None => forall|j: int|
                    0 <= j < k ==> !is_extended_for_mbrman(#[trigger] entry_sys(image@, 0, j)),
            },
        decreases 4 - k,
    {
        let sys = primary_sys(image, k);
        if sys != 0 {
            any_used = true;
            if u32_at(image, 446 + 16 * k + 8) != 0 {
                nonzero_start = true;
            }
        }
        if extended.is_none() && (sys == 0x05 || sys == 0x0F || sys == 0x85 || sys == 0xC5 || sys
            == 0xD5) {
            assert(extended_slot(image@) == Some(k as int));
            extended = Some(k);
        }
        k = k + 1;
    }
    let chain_start = match extended {
        Some(e) => {
            let x = u32_at(image, 446 + 16 * e + 8);
            assert(x == entry_start(image@, 0, e as int));
            if !ebr_chain_is_fitting(image, x) {
                let mut message = String::new();
                message.append("a logical partition's start sector does not fit in 32 bits");
                return Err(message);
            }
            Some(x)
        },
        None => {
            assert(extended_slot(image@) == None::<int>);
            None
        },
    };
    if any_used && !nonzero_start {
        let chain_at_zero = match chain_start {
            Some(x) => ebr_chain_is_at_zero(image, x),
            None => true,
        };
        if chain_at_zero {
            let mut message = String::new();
            message.append("every used partition starts at sector 0");
            return Err(message);
        }
    }
    Ok(())
}

/// The CRC-32 register after taking in `bytes`.
fn crc32_register_of(bytes: &[u8]) -> (c: u32)
    ensures
        c == crc32_register(bytes@),
{
    let mut c: u32 = 0xFFFF_FFFF;
    let mut i: usize = 0;
    while i < bytes.len()
        invariant
            i <= bytes@.len(),
            c == crc32_register(bytes@.take(i as int)),
        decreases bytes@.len() - i,
    {
        assert(bytes@.take(i + 1).drop_last() =~= bytes@.take(i as int));
        let mut x = c ^ (bytes[i] as u32);
        let ghost x0 = x;
        let mut bit: usize = 0;
        while bit < 8
            invariant
                bit <= 8,
                x == crc32_shift_times(x0, bit as nat),
            decreases 8 - bit,
        {
            x = if x & 1 == 1 { (x >> 1) ^ 0xEDB8_8320 } else { x >> 1 };
            bit = bit + 1;
        }
        c = x;
        i = i + 1;
    }
    assert(bytes@.take(bytes@.len() as int) =~= bytes@);
    c
}

/// `crc32_shift` applied `n` times.
pub open spec fn crc32_shift_times(c: u32, n: nat) -> u32
    decreases n,
{
    if n == 0 {
        c
    } else {
        crc32_shift(crc32_shift_times(c, (n - 1) as nat))
    }
}

/// The CRC-32 (ISO-HDLC) of `bytes`.
pub fn crc32(bytes: &[u8]) -> (c: u32)
    ensures
        c == crc32_of(bytes@),
{
    crc32_register_of(bytes) ^ 0xFFFF_FFFF
}

/// Why the library does not hand an image to gpt.
pub open spec fn gpt_refusal() -> Seq<char> {
    "the header declares partition entries that are not 128 bytes"@
}

/// Whether gpt accepts a header at byte `off` (see `gpt_header_valid`).
fn gpt_header_is_valid(d: &[u8], off: usize) -> (r: bool)
    ensures
        r == gpt_header_valid(d@, off as int),
{
    let n = d.len();
    if off > n || n - off < GPT_HEADER_LEN {
        return false;
    }
    let signature: [u8; 8] = [0x45, 0x46, 0x49, 0x20, 0x50, 0x41, 0x52, 0x54];
    let mut i: usize = 0;
    while i < 8
        invariant
            i <= 8,
            n == d@.len(),
            off + GPT_HEADER_LEN <= d@.len(),
            signature@ == seq![0x45u8, 0x46u8, 0x49u8, 0x20u8, 0x50u8, 0x41u8, 0x52u8, 0x54u8],
            forall|j: int| 0 <= j < i ==> d@[off + j] == signature@[j],
        decreases 8 - i,
    {
        if d[off + i] != signature[i] {
            assert(d@.subrange(off as int, off + 8)[i as int] != signature@[i as int]);
            return false;
        }
        i = i + 1;
    }
    assert(d@.subrange(off as int, off + 8) =~= signature@);
    let mut checksummed: Vec<u8> = Vec::new();
    let mut i: usize = 0;
    while i < GPT_HEADER_LEN
        invariant
            i <= GPT_HEADER_LEN,
            n == d@.len(),
            off + GPT_HEADER_LEN <= d@.len(),
            checksummed@ == gpt_header_checksummed(d@, off as int).take(i as int),
        decreases GPT_HEADER_LEN - i,
    {
        let byte = if 16 <= i && i < 20 { 0u8 } else { d[off + i] };
        proof {
            let full = gpt_header_checksummed(d@, off as int);
            assert(full.len() == 92);
            assert(full[i as int] == byte);
            assert(full.take(i + 1) =~= full.take(i as int).push(byte));
        }
        checksummed.push(byte);
        i = i + 1;
    }
    assert(checksummed@ =~= gpt_header_checksummed(d@, off as int));
    u32_at(d, off + 16) == crc32(checksummed.as_slice())
}

/// Whether the entry array of the header at `off` passes gpt's entry-size assertion (see
/// `gpt_header_entries_fit`).
fn gpt_header_entries_are_fitting(d: &[u8], off: usize) -> (r: bool)
    requires
        off + GPT_HEADER_LEN <= d@.len(),
    ensures
        r == gpt_header_entries_fit(d@, off as int),
{
    let n = d.len();
    assert(off + 92 <= n);
    u64_at(d, off + 72) > u64::MAX / 512 || u32_at(d, off + 84) == 128
}

/// Checks that gpt returns on `image` (see `gpt_open_returns`), or gives the reason the
/// library refuses it.
pub fn check_gpt_openable(image: &[u8]) -> (r: Result<(), String>)
    ensures
        match r {
            Ok(()) => gpt_open_returns(image@),
            Err(e) => !gpt_open_returns(image@) && e@ == gpt_refusal(),
        },
{
    let n = image.len();
    let fits = if gpt_header_is_valid(image, 512) {
        gpt_header_entries_are_fitting(image, 512)
    } else if n >= 3 * 512 && gpt_header_is_valid(image, ((n - 512) / 512) * 512) {
        gpt_header_entries_are_fitting(image, ((n - 512) / 512) * 512)
    } else {
        true
    };
    if fits {
        Ok(())
    } else {
        let mut message = String::new();
        message.append("the header declares partition entries that are not 128 bytes");
        Err(message)
    }
}

} // verus!
