//! MBR and GPT partition tables: what the outside readers list, and the partitions built
//! from it.
use crate::parser::preflight::{
    check_gpt_openable, check_mbr_readable, entry_offset, entry_start, entry_sys,
    gpt_open_returns, gpt_refusal, mbr_read_returns, mbr_refusal,
};
use crate::parser::superblock::le_u32;
use crate::text::{
    decimal, hex_byte, hex_fixed, lemma_hex_fixed_u16, lemma_hex_fixed_u32, push_decimal,
    push_hex_byte,
};
use vstd::prelude::*;
use vstd::string::*;

verus! {

/// The sector size that partition tables are read with.
pub const SECTOR_SIZE: usize = 512;

/// The number of bytes of a GPT partition type GUID.
pub const GPT_PARTITION_TYPE_GUID_SIZE: usize = 16;

/// Which kind of partition table an image holds.
#[derive(Debug, Clone, Copy, PartialEq, Eq)]
pub enum PartitionTableKind {
    Mbr,
    Gpt,
}

/// The type of a partition: an MBR type byte, or a GPT type GUID in on-disk byte order.
#[derive(Debug, Clone, Copy, PartialEq, Eq)]
pub enum PartitionType {
    Mbr(u8),
    Gpt([u8; GPT_PARTITION_TYPE_GUID_SIZE]),
}

/// One partition: where it starts and how long it is, in sectors and in bytes.
#[derive(Debug, Clone, Copy, PartialEq, Eq)]
pub struct Partition {
    pub index: usize,
    pub partition_type: PartitionType,
    pub first_lba: u64,
    pub sector_count: u64,
    pub byte_offset: u64,
    pub byte_len: u64,
}

/// The partitions of an image, in table order.
#[derive(Debug, Clone, PartialEq, Eq)]
pub struct PartitionTable {
    pub kind: PartitionTableKind,
    pub partitions: Vec<Partition>,
}

/// A partition type as plain values.
pub enum PartitionTypeView {
    Mbr(u8),
    Gpt(Seq<u8>),
}

/// A partition as plain values.
pub struct PartitionView {
    pub index: usize,
    pub partition_type: PartitionTypeView,
    pub first_lba: u64,
    pub sector_count: u64,
    pub byte_offset: u64,
    pub byte_len: u64,
}

/// A partition table as plain values.
pub struct PartitionTableView {
    pub kind: PartitionTableKind,
    pub partitions: Seq<PartitionView>,
}

impl View for PartitionType {
    type V = PartitionTypeView;

    open spec fn view(&self) -> PartitionTypeView {
        match self {
            PartitionType::Mbr(t) => PartitionTypeView::Mbr(*t),
            PartitionType::Gpt(g) => PartitionTypeView::Gpt(g@),
        }
    }
}

impl View for Partition {
    type V = PartitionView;

    open spec fn view(&self) -> PartitionView {
        PartitionView {
            index: self.index,
            partition_type: self.partition_type@,
            first_lba: self.first_lba,
            sector_count: self.sector_count,
            byte_offset: self.byte_offset,
            byte_len: self.byte_len,
        }
    }
}

/// The views of a sequence of partitions.
pub open spec fn partitions_view(ps: Seq<Partition>) -> Seq<PartitionView> {
    ps.map_values(|p: Partition| p@)
}

impl View for PartitionTable {
    type V = PartitionTableView;

    open spec fn view(&self) -> PartitionTableView {
        PartitionTableView { kind: self.kind, partitions: partitions_view(self.partitions@) }
    }
}

/// A result that carries a partition table, as plain values.
pub open spec fn table_result_view(r: Result<PartitionTable, String>) -> Result<
    PartitionTableView,
    Seq<char>,
> {
    match r {
        Ok(t) => Ok(t@),
        Err(e) => Err(e@),
    }
}

/// A result that carries a list, as plain values.
pub open spec fn list_result_view<T>(r: Result<Vec<T>, String>) -> Result<Seq<T>, Seq<char>> {
    match r {
        Ok(v) => Ok(v@),
        Err(e) => Err(e@),
    }
}

/// One slot of an MBR partition table as mbrman lists it: the primary slots 1 to 4, then the
/// logical partitions of the extended partition from 5 on, with absolute starting sectors.
#[derive(Debug, Clone, Copy, PartialEq, Eq)]
pub struct MbrEntry {
    pub index: usize,
    pub sys: u8,
    pub starting_lba: u32,
    pub sectors: u32,
}

/// One entry of a GPT partition array as gpt lists it: its number, the four fields of its
/// type GUID, and its first and last sector.
#[derive(Debug, Clone, Copy, PartialEq, Eq)]
pub struct GptEntry {
    pub index: u32,
    pub type_d1: u32,
    pub type_d2: u16,
    pub type_d3: u16,
    pub type_d4: [u8; 8],
    pub first_lba: u64,
    pub last_lba: u64,
}

/// What `mbrman::MBR::read_from` gives for an image read with the given sector size: its
/// slots as `MbrEntry` values, or the text of its error.
pub uninterp spec fn mbr_read(image: Seq<u8>, sector_size: u32) -> Result<Seq<MbrEntry>, Seq<char>>;

/// What `gpt::GptConfig::open_from_device` gives for a read-only image with the given
/// logical block size: its partition entries as `GptEntry` values in ascending number, or the
/// text of its error.
pub uninterp spec fn gpt_read(image: Seq<u8>, block_size: u64) -> Result<Seq<GptEntry>, Seq<char>>;

/// Reads the MBR partition table of `image` with mbrman (`MBR::read_from` with 512-byte
/// sectors) and lists its slots (`MBR::iter`).
///
/// The contract names the result (`mbr_read`) and states what `MBR::iter` shows of it: the
/// four primary slots come first, decoded from the entries of the MBR at bytes 446 to 510
/// (type byte at 4, start sector at 8 and sector count at 12, little endian), and all slots
/// are numbered from 1 in order. It admits only images on which `read_from` returns
/// (`mbr_read_returns`).
#[verifier::external_body]
fn read_mbr_entries(image: &[u8], sector_size: u32) -> (r: Result<Vec<MbrEntry>, String>)
    requires
        sector_size == SECTOR_SIZE,
        mbr_read_returns(image@),
    ensures
        list_result_view(r) == mbr_read(image@, sector_size),
        r matches Ok(es) ==> {
            &&& es@.len() >= 4
            &&& forall|i: int| 0 <= i < es@.len() ==> #[trigger] es@[i].index == i + 1
            &&& forall|k: int| 0 <= k < 4 ==> #[trigger] primary_entry_decoded(image@, k, es@[k])
        },
{
    let mut cursor = std::io::Cursor::new(image);
    let mbr = mbrman::MBR::read_from(&mut cursor, sector_size).map_err(|e| e.to_string())?;
    Ok(mbr.iter().map(|(index, p)| MbrEntry {
        index,
        sys: p.sys,
        starting_lba: p.starting_lba,
        sectors: p.sectors,
    }).collect())
}

/// Opens `image` read-only as a GPT disk with gpt and lists its partition entries.
///
/// The contract names the result (`gpt_read`) and states what gpt's entry map shows of it:
/// entries are numbered from 1 and listed in ascending number. It admits only images on which
/// `open_from_device` returns (`gpt_open_returns`).
#[verifier::external_body]
fn read_gpt_entries(image: &[u8], block_size: u64) -> (r: Result<Vec<GptEntry>, String>)
    requires
        block_size == SECTOR_SIZE,
        gpt_open_returns(image@),
    ensures
        list_result_view(r) == gpt_read(image@, block_size),
        r matches Ok(es) ==> {
            &&& forall|i: int| 0 <= i < es@.len() ==> #[trigger] es@[i].index >= 1
            &&& forall|i: int, j: int|
                0 <= i < j < es@.len() ==> #[trigger] es@[i].index < #[trigger] es@[j].index
        },
{
    let lb = gpt::disk::LogicalBlockSize::try_from(block_size).map_err(|e| e.to_string())?;
    let config = gpt::GptConfig::new().writable(false).logical_block_size(lb);
    let disk = config.open_from_device(std::io::Cursor::new(image.to_vec())).map_err(
        |e| e.to_string(),
    )?;
    Ok(disk.partitions().iter().map(|(index, p)| {
        let (d1, d2, d3, d4) = p.part_type_guid.guid.as_fields();
        GptEntry { index: *index, type_d1: d1, type_d2: d2, type_d3: d3, type_d4: *d4, first_lba: p.first_lba, last_lba: p.last_lba }
    }).collect())
}


/// Whether an MBR type byte marks an extended partition, which only holds further tables.
pub open spec fn is_extended_mbr_type(t: u8) -> bool {
    t == 0x05 || t == 0x0F || t == 0x85
}

/// Whether every byte of `g` is zero.
pub open spec fn is_zero_guid(g: Seq<u8>) -> bool {
    forall|i: int| 0 <= i < g.len() ==> g[i] == 0
}

/// Whether a partition can hold a file system: an MBR partition that is not extended, or a
/// GPT partition whose type GUID is not all zero.
pub open spec fn is_filesystem(p: PartitionView) -> bool {
    match p.partition_type {
        PartitionTypeView::Mbr(t) => !is_extended_mbr_type(t),
        PartitionTypeView::Gpt(g) => !is_zero_guid(g),
    }
}

/// Whether a partition's byte offset and length are its first sector and sector count times
/// the sector size.
pub open spec fn is_sector_aligned(p: PartitionView) -> bool {
    &&& p.byte_offset == p.first_lba * SECTOR_SIZE
    &&& p.byte_len == p.sector_count * SECTOR_SIZE
}

/// The partition with the given index, type and sectors, or the message of the first byte
/// figure that does not fit in 64 bits.
pub open spec fn built_partition(
    index: usize,
    partition_type: PartitionTypeView,
    first_lba: u64,
    sector_count: u64,
) -> Result<PartitionView, Seq<char>> {
    if first_lba * SECTOR_SIZE > u64::MAX {
        Err("partition "@ + decimal(index as nat) + " byte offset overflowed"@)
    } else if sector_count * SECTOR_SIZE > u64::MAX {
        Err("partition "@ + decimal(index as nat) + " byte length overflowed"@)
    } else {
        Ok(
            PartitionView {
                index,
                partition_type,
                first_lba,
                sector_count,
                byte_offset: (first_lba * SECTOR_SIZE) as u64,
                byte_len: (sector_count * SECTOR_SIZE) as u64,
            },
        )
    }
}

/// The partition that a used MBR slot describes.
pub open spec fn mbr_partition(e: MbrEntry) -> PartitionView {
    PartitionView {
        index: (e.index - 1) as usize,
        partition_type: PartitionTypeView::Mbr(e.sys),
        first_lba: e.starting_lba as u64,
        sector_count: e.sectors as u64,
        byte_offset: (e.starting_lba * SECTOR_SIZE) as u64,
        byte_len: (e.sectors * SECTOR_SIZE) as u64,
    }
}

/// The partitions of the used MBR slots (type byte not zero), in slot order.
pub open spec fn mbr_partitions(es: Seq<MbrEntry>) -> Seq<PartitionView>
    decreases es.len(),
{
    if es.len() == 0 {
        Seq::empty()
    } else if es.last().sys == 0 {
        mbr_partitions(es.drop_last())
    } else {
        mbr_partitions(es.drop_last()).push(mbr_partition(es.last()))
    }
}

/// The 16 bytes of a GPT type GUID in on-disk order: the first three fields little endian,
/// then the last eight bytes as they are.
pub open spec fn guid_bytes(e: GptEntry) -> Seq<u8> {
    seq![
        (e.type_d1 % 256) as u8,
        ((e.type_d1 / 256) % 256) as u8,
        ((e.type_d1 / 65536) % 256) as u8,
        (e.type_d1 / 16777216) as u8,
        (e.type_d2 % 256) as u8,
        (e.type_d2 / 256) as u8,
        (e.type_d3 % 256) as u8,
        (e.type_d3 / 256) as u8,
    ] + e.type_d4@
}

/// Whether a GPT entry is in use: its type GUID is not the nil GUID.
pub open spec fn gpt_entry_used(e: GptEntry) -> bool {
    !(e.type_d1 == 0 && e.type_d2 == 0 && e.type_d3 == 0 && is_zero_guid(e.type_d4@))
}

/// The number of sectors from `first` to `last` inclusive, or the message of why there is
/// none.
pub open spec fn gpt_sectors_len(first: u64, last: u64) -> Result<u64, Seq<char>> {
    if last < first {
        Err("Invalid partition.  last_lba < first_lba"@)
    } else if last - first + 1 > u64::MAX {
        Err("partition length overflow - sectors"@)
    } else {
        Ok((last - first + 1) as u64)
    }
}

/// The zero-based index of a GPT entry numbered from 1.
pub open spec fn gpt_index(n: u32) -> usize {
    if n == 0 {
        0
    } else {
        (n - 1) as usize
    }
}

/// The partition that a used GPT entry describes, or the message of why it has none.
pub open spec fn gpt_partition(e: GptEntry) -> Result<PartitionView, Seq<char>> {
    match gpt_sectors_len(e.first_lba, e.last_lba) {
        Err(m) => Err("failed to calculate GPT partition length: "@ + m),
        Ok(n) => built_partition(
            gpt_index(e.index),
            PartitionTypeView::Gpt(guid_bytes(e)),
            e.first_lba,
            n,
        ),
    }
}

/// The partitions of the used GPT entries in order, or the message of the first used entry
/// that has none.
pub open spec fn gpt_partitions(es: Seq<GptEntry>) -> Result<Seq<PartitionView>, Seq<char>>
    decreases es.len(),
{
    if es.len() == 0 {
        Ok(Seq::empty())
    } else {
        match gpt_partitions(es.drop_last()) {
            Err(m) => Err(m),
            Ok(ps) => if !gpt_entry_used(es.last()) {
                Ok(ps)
            } else {
                match gpt_partition(es.last()) {
                    Err(m) => Err(m),
                    Ok(p) => Ok(ps.push(p)),
                }
            },
        }
    }
}

/// The GPT partition table made of the given entries.
pub open spec fn gpt_table(es: Seq<GptEntry>) -> Result<PartitionTableView, Seq<char>> {
    match gpt_partitions(es) {
        Ok(ps) => Ok(PartitionTableView { kind: PartitionTableKind::Gpt, partitions: ps }),
        Err(m) => Err(m),
    }
}

/// The MBR partition table made of the given slots.
pub open spec fn mbr_table(es: Seq<MbrEntry>) -> PartitionTableView {
    PartitionTableView { kind: PartitionTableKind::Mbr, partitions: mbr_partitions(es) }
}

/// What the GPT reading of an image gives: a refusal where gpt would not return, else the
/// table of what gpt lists, or gpt's error.
pub open spec fn image_gpt_table(image: Seq<u8>) -> Result<PartitionTableView, Seq<char>> {
    if !gpt_open_returns(image) {
        Err("failed to parse GPT partition table: "@ + gpt_refusal())
    } else {
        match gpt_read(image, SECTOR_SIZE as u64) {
            Ok(es) => gpt_table(es),
            Err(m) => Err("failed to parse GPT partition table: "@ + m),
        }
    }
}

/// What the MBR reading of an image gives: a refusal where mbrman would not return, else the
/// table of what mbrman lists, or mbrman's error.
pub open spec fn image_mbr_table(image: Seq<u8>) -> Result<PartitionTableView, Seq<char>> {
    if !mbr_read_returns(image) {
        Err("failed to parse MBR partition table: "@ + mbr_refusal(image))
    } else {
        match mbr_read(image, SECTOR_SIZE as u32) {
            Ok(es) => Ok(mbr_table(es)),
            Err(m) => Err("failed to parse MBR partition table: "@ + m),
        }
    }
}

/// Whether `e` holds the type byte, start sector and sector count of primary entry `k` of the
/// MBR in `d`.
pub open spec fn primary_entry_decoded(d: Seq<u8>, k: int, e: MbrEntry) -> bool {
    &&& e.sys == entry_sys(d, 0, k)
    &&& e.starting_lba == entry_start(d, 0, k)
    &&& e.sectors == le_u32(d, entry_offset(0, k, 12))
}

/// Whether the partitions `ps` list the used primary entries of the MBR in `d` under indices 0
/// to 3: every partition with an index below 4 is the primary entry of that number, and every
/// used primary entry is listed.
pub open spec fn primary_slots_listed(d: Seq<u8>, ps: Seq<PartitionView>) -> bool {
    &&& forall|k: int|
        0 <= k < ps.len() && #[trigger] ps[k].index < 4 ==> {
            &&& ps[k].partition_type == PartitionTypeView::Mbr(entry_sys(d, 0, ps[k].index as int))
            &&& ps[k].first_lba == entry_start(d, 0, ps[k].index as int)
            &&& ps[k].sector_count == le_u32(d, entry_offset(0, ps[k].index as int, 12))
        }
    &&& forall|i: int|
        0 <= i < 4 && #[trigger] entry_sys(d, 0, i) != 0 ==> exists|k: int|
            0 <= k < ps.len() && #[trigger] ps[k].index == i
}

/// Whether the partition indices of `ps` strictly increase.
pub open spec fn indices_increase(ps: Seq<PartitionView>) -> bool {
    forall|i: int, j: int| 0 <= i < j < ps.len() ==> #[trigger] ps[i].index < #[trigger] ps[j].index
}

/// The partition table of an image: its GPT table where that reads, else its MBR table.
pub open spec fn image_table(image: Seq<u8>) -> Result<PartitionTableView, Seq<char>> {
    if image_gpt_table(image) is Ok {
        image_gpt_table(image)
    } else {
        image_mbr_table(image)
    }
}

/// The filesystem partitions of `ps`, in order.
pub open spec fn filesystem_only(ps: Seq<PartitionView>) -> Seq<PartitionView>
    decreases ps.len(),
{
    if ps.len() == 0 {
        Seq::empty()
    } else if is_filesystem(ps.last()) {
        filesystem_only(ps.drop_last()).push(ps.last())
    } else {
        filesystem_only(ps.drop_last())
    }
}

/// The partition table of `image`: its GPT table if gpt reads one whose partitions all
/// build, and otherwise its MBR table as mbrman reads it. Its partitions come in strictly
/// increasing index order.
pub fn get_all_partitions(image: &[u8]) -> (r: Result<PartitionTable, String>)
    ensures
        table_result_view(r) == image_table(image@),
        image_gpt_table(image@) matches Ok(g) ==> {
            &&& r matches Ok(t)
            &&& t@ == g
            &&& t.kind == PartitionTableKind::Gpt
        },
        image_gpt_table(image@) is Err ==> table_result_view(r) == image_mbr_table(image@),
        r matches Ok(t) ==> indices_increase(t@.partitions),
        r matches Ok(t) ==> (t.kind == PartitionTableKind::Mbr ==> primary_slots_listed(
            image@,
            t@.partitions,
        )),
{
    let gpt = parse_gpt_partitions(image);
    proof {
        lemma_gpt_reading_decides(image@);
    }
    if gpt.is_ok() {
        return gpt;
    }
    parse_mbr_partitions(image)
}

/// Whether `partition` can hold a file system (see `is_filesystem`).
pub fn is_filesystem_partition(partition: &Partition) -> (r: bool)
    ensures
        r == is_filesystem(partition@),
        match partition.partition_type {
            PartitionType::Mbr(t) => r == (t != 0x05 && t != 0x0F && t != 0x85),
            PartitionType::Gpt(g) => r == exists|i: int| 0 <= i < 16 && #[trigger] g@[i] != 0,
        },
{
    match partition.partition_type {
        PartitionType::Mbr(partition_type) => !is_extended_mbr_partition_type(partition_type),
        PartitionType::Gpt(partition_type_guid) => {
            let mut i: usize = 0;
            while i < GPT_PARTITION_TYPE_GUID_SIZE
                invariant
                    i <= GPT_PARTITION_TYPE_GUID_SIZE,
                    partition_type_guid@.len() == GPT_PARTITION_TYPE_GUID_SIZE,
                    partition@.partition_type == PartitionTypeView::Gpt(partition_type_guid@),
                    forall|j: int| 0 <= j < i ==> partition_type_guid@[j] == 0,
                decreases GPT_PARTITION_TYPE_GUID_SIZE - i,
            {
                if partition_type_guid[i] != 0 {
                    assert(partition_type_guid@[i as int] != 0);
                    return true;
                }
                i = i + 1;
            }
            false
        },
    }
}

/// The partition table read from `image` by mbrman.
fn parse_mbr_partitions(image: &[u8]) -> (r: Result<PartitionTable, String>)
    ensures
        table_result_view(r) == image_mbr_table(image@),
        r matches Ok(t) ==> indices_increase(t@.partitions),
        r matches Ok(t) ==> primary_slots_listed(image@, t@.partitions),
{
    if let Err(reason) = check_mbr_readable(image) {
        let mut message = String::new();
        message.append("failed to parse MBR partition table: ");
        message.append(reason.as_str());
        return Err(message);
    }
    match read_mbr_entries(image, SECTOR_SIZE as u32) {
        Ok(entries) => {
            proof {
                lemma_mbr_partition_indices_increase(entries@);
                lemma_mbr_partitions_are_used_slots(entries@);
                let es = entries@;
                let ps = mbr_partitions(es);
                assert forall|k: int| 0 <= k < ps.len() && #[trigger] ps[k].index < 4 implies {
                    &&& ps[k].partition_type == PartitionTypeView::Mbr(
                        entry_sys(image@, 0, ps[k].index as int),
                    )
                    &&& ps[k].first_lba == entry_start(image@, 0, ps[k].index as int)
                    &&& ps[k].sector_count == le_u32(
                        image@,
                        entry_offset(0, ps[k].index as int, 12),
                    )
                } by {
                    assert(primary_entry_decoded(image@, ps[k].index as int, es[ps[k].index as int]));
                }
                assert forall|i: int| 0 <= i < 4 && #[trigger] entry_sys(image@, 0, i) != 0 implies exists|
                    k: int,
                | 0 <= k < ps.len() && #[trigger] ps[k].index == i by {
                    assert(primary_entry_decoded(image@, i, es[i]));
                }
            }
            Ok(partition_table_from_mbr_entries(entries.as_slice()))
        },
        Err(error) => {
            let mut message = String::new();
            message.append("failed to parse MBR partition table: ");
            message.append(error.as_str());
            Err(message)
        },
    }
}

/// The partition table read from `image` by gpt.
fn parse_gpt_partitions(image: &[u8]) -> (r: Result<PartitionTable, String>)
    ensures
        table_result_view(r) == image_gpt_table(image@),
        r matches Ok(t) ==> indices_increase(t@.partitions),
{
    if let Err(reason) = check_gpt_openable(image) {
        let mut message = String::new();
        message.append("failed to parse GPT partition table: ");
        message.append(reason.as_str());
        return Err(message);
    }
    match read_gpt_entries(image, SECTOR_SIZE as u64) {
        Ok(entries) => {
            proof {
                lemma_gpt_partition_indices_increase(entries@);
            }
            partition_table_from_gpt_entries(entries.as_slice())
        },
        Err(error) => {
            let mut message = String::new();
            message.append("failed to parse GPT partition table: ");
            message.append(error.as_str());
            Err(message)
        },
    }
}

/// The MBR partition table of the used slots among `entries`, numbered from 0.
pub fn partition_table_from_mbr_entries(entries: &[MbrEntry]) -> (t: PartitionTable)
    requires
        forall|i: int| 0 <= i < entries@.len() ==> #[trigger] entries@[i].index >= 1,
    ensures
        t@ == mbr_table(entries@),
{
    let mut partitions: Vec<Partition> = Vec::new();
    let mut i: usize = 0;
    proof {
        assert(entries@.take(0) =~= Seq::<MbrEntry>::empty());
        assert(partitions_view(partitions@) =~= Seq::<PartitionView>::empty());
    }
    while i < entries.len()
        invariant
            i <= entries@.len(),
            forall|k: int| 0 <= k < entries@.len() ==> #[trigger] entries@[k].index >= 1,
            partitions_view(partitions@) == mbr_partitions(entries@.take(i as int)),
        decreases entries@.len() - i,
    {
        let entry = entries[i];
        proof {
            assert(entries@.take(i + 1).drop_last() =~= entries@.take(i as int));
            assert(entries@.take(i + 1).last() == entry);
        }
        if entry.sys != 0 {
            let partition = Partition {
                index: entry.index - 1,
                partition_type: PartitionType::Mbr(entry.sys),
                first_lba: entry.starting_lba as u64,
                sector_count: entry.sectors as u64,
                byte_offset: entry.starting_lba as u64 * SECTOR_SIZE as u64,
                byte_len: entry.sectors as u64 * SECTOR_SIZE as u64,
            };
            let ghost before = partitions@;
            partitions.push(partition);
            proof {
                assert(partitions_view(partitions@) =~= partitions_view(before).push(partition@));
            }
        }
        i = i + 1;
    }
    proof {
        assert(entries@.take(entries@.len() as int) =~= entries@);
    }
    PartitionTable { kind: PartitionTableKind::Mbr, partitions }
}

/// The GPT partition table of the used entries among `entries`, or the message of the first
/// used entry whose sectors or bytes cannot be figured.
pub fn partition_table_from_gpt_entries(entries: &[GptEntry]) -> (r: Result<
    PartitionTable,
    String,
>)
    ensures
        table_result_view(r) == gpt_table(entries@),
{
    let mut partitions: Vec<Partition> = Vec::new();
    let mut i: usize = 0;
    proof {
        assert(entries@.take(0) =~= Seq::<GptEntry>::empty());
        assert(partitions_view(partitions@) =~= Seq::<PartitionView>::empty());
    }
    while i < entries.len()
        invariant
            i <= entries@.len(),
            gpt_partitions(entries@.take(i as int)) == Ok::<Seq<PartitionView>, Seq<char>>(
                partitions_view(partitions@),
            ),
        decreases entries@.len() - i,
    {
        let entry = entries[i];
        proof {
            assert(entries@.take(i + 1).drop_last() =~= entries@.take(i as int));
            assert(entries@.take(i + 1).last() == entry);
        }
        if gpt_entry_is_used(&entry) {
            let sector_count = match gpt_entry_sectors_len(&entry) {
                Ok(n) => n,
                Err(error) => {
                    let mut message = String::new();
                    message.append("failed to calculate GPT partition length: ");
                    message.append(error.as_str());
                    proof {
                        lemma_gpt_partitions_prefix_error(entries@, i as int);
                    }
                    return Err(message);
                },
            };
            let partition_type_guid = gpt_type_guid_to_partition_bytes(&entry);
            let index = (entry.index as usize).saturating_sub(1);
            match build_partition(
                index,
                PartitionType::Gpt(partition_type_guid),
                entry.first_lba,
                sector_count,
            ) {
                Ok(partition) => {
                    let ghost before = partitions@;
                    partitions.push(partition);
                    proof {
                        assert(partitions_view(partitions@) =~= partitions_view(before).push(
                            partition@,
                        ));
                    }
                },
                Err(error) => {
                    proof {
                        lemma_gpt_partitions_prefix_error(entries@, i as int);
                    }
                    return Err(error);
                },
            }
        }
        i = i + 1;
    }
    proof {
        assert(entries@.take(entries@.len() as int) =~= entries@);
    }
    Ok(PartitionTable { kind: PartitionTableKind::Gpt, partitions })
}

/// An error at entry `i` is the error of every longer prefix.
proof fn lemma_gpt_partitions_prefix_error(es: Seq<GptEntry>, i: int)
    requires
        0 <= i < es.len(),
        gpt_partitions(es.take(i + 1)) is Err,
    ensures
        gpt_partitions(es) == gpt_partitions(es.take(i + 1)),
    decreases es.len() - i,
{
    if i + 1 == es.len() {
        assert(es.take(i + 1) =~= es);
    } else {
        assert(es.take(i + 2).drop_last() =~= es.take(i + 1));
        assert(gpt_partitions(es.take(i + 2)) == gpt_partitions(es.take(i + 1)));
        lemma_gpt_partitions_prefix_error(es, i + 1);
    }
}

/// Whether a GPT entry is in use (gpt's `Partition::is_used`: a type GUID other than nil).
fn gpt_entry_is_used(entry: &GptEntry) -> (r: bool)
    ensures
        r == gpt_entry_used(*entry),
{
    if entry.type_d1 != 0 || entry.type_d2 != 0 || entry.type_d3 != 0 {
        return true;
    }
    let mut i: usize = 0;
    while i < 8
        invariant
            i <= 8,
            entry.type_d4@.len() == 8,
            forall|j: int| 0 <= j < i ==> entry.type_d4@[j] == 0,
        decreases 8 - i,
    {
        if entry.type_d4[i] != 0 {
            return true;
        }
        i = i + 1;
    }
    false
}

/// The sector count of a GPT entry (gpt's `Partition::sectors_len`).
fn gpt_entry_sectors_len(entry: &GptEntry) -> (r: Result<u64, String>)
    ensures
        match r {
            Ok(n) => gpt_sectors_len(entry.first_lba, entry.last_lba) == Ok::<u64, Seq<char>>(n),
            Err(e) => gpt_sectors_len(entry.first_lba, entry.last_lba) == Err::<u64, Seq<char>>(
                e@,
            ),
        },
{
    if entry.last_lba < entry.first_lba {
        let mut message = String::new();
        message.append("Invalid partition.  last_lba < first_lba");
        return Err(message);
    }
    let span = entry.last_lba - entry.first_lba;
    if span == u64::MAX {
        let mut message = String::new();
        message.append("partition length overflow - sectors");
        return Err(message);
    }
    Ok(span + 1)
}

/// The partition with the given index, type and sectors; fails when its byte offset or
/// byte length does not fit in 64 bits.
pub fn build_partition(
    index: usize,
    partition_type: PartitionType,
    first_lba: u64,
    sector_count: u64,
) -> (r: Result<Partition, String>)
    ensures
        match r {
            Ok(p) => built_partition(index, partition_type@, first_lba, sector_count) == Ok::<
                PartitionView,
                Seq<char>,
            >(p@),
            Err(e) => built_partition(index, partition_type@, first_lba, sector_count) == Err::<
                PartitionView,
                Seq<char>,
            >(e@),
        },
{
    let byte_offset = match first_lba.checked_mul(SECTOR_SIZE as u64) {
        Some(v) => v,
        None => {
            let mut message = String::new();
            message.append("partition ");
            push_decimal(&mut message, index as u64);
            message.append(" byte offset overflowed");
            return Err(message);
        },
    };
    let byte_len = match sector_count.checked_mul(SECTOR_SIZE as u64) {
        Some(v) => v,
        None => {
            let mut message = String::new();
            message.append("partition ");
            push_decimal(&mut message, index as u64);
            message.append(" byte length overflowed");
            return Err(message);
        },
    };
    Ok(Partition { index, partition_type, first_lba, sector_count, byte_offset, byte_len })
}

/// Whether an MBR type byte marks an extended partition.
pub fn is_extended_mbr_partition_type(partition_type: u8) -> (r: bool)
    ensures
        r == is_extended_mbr_type(partition_type),
        r == (partition_type == 0x05 || partition_type == 0x0F || partition_type == 0x85),
{
    partition_type == 0x05 || partition_type == 0x0F || partition_type == 0x85
}

/// The type GUID of a GPT entry in on-disk byte order.
pub fn gpt_type_guid_to_partition_bytes(entry: &GptEntry) -> (bytes: [u8; 16])
    ensures
        bytes@ == guid_bytes(*entry),
{
    let mut bytes = [0u8; GPT_PARTITION_TYPE_GUID_SIZE];
    bytes[0] = (entry.type_d1 % 256) as u8;
    bytes[1] = ((entry.type_d1 / 256) % 256) as u8;
    bytes[2] = ((entry.type_d1 / 65536) % 256) as u8;
    bytes[3] = (entry.type_d1 / 16777216) as u8;
    bytes[4] = (entry.type_d2 % 256) as u8;
    bytes[5] = (entry.type_d2 / 256) as u8;
    bytes[6] = (entry.type_d3 % 256) as u8;
    bytes[7] = (entry.type_d3 / 256) as u8;
    let mut i: usize = 0;
    while i < 8
        invariant
            i <= 8,
            bytes@.len() == 16,
            entry.type_d4@.len() == 8,
            bytes@.subrange(0, 8) == guid_bytes(*entry).subrange(0, 8),
            forall|j: int| 0 <= j < i ==> bytes@[8 + j] == entry.type_d4@[j],
        decreases 8 - i,
    {
        bytes[8 + i] = entry.type_d4[i];
        i = i + 1;
    }
    assert forall|k: int| 0 <= k < 16 implies bytes@[k] == guid_bytes(*entry)[k] by {
        if k < 8 {
            assert(bytes@.subrange(0, 8)[k] == guid_bytes(*entry).subrange(0, 8)[k]);
        } else {
            assert(bytes@[8 + (k - 8)] == entry.type_d4@[k - 8]);
        }
    }
    assert(bytes@ =~= guid_bytes(*entry));
    bytes
}

/// The text of a partition type: an MBR type byte in hexadecimal, or a GPT type GUID in the
/// usual mixed-endian form, upper case.
pub open spec fn partition_type_text(t: PartitionTypeView) -> Seq<char> {
    match t {
        PartitionTypeView::Mbr(b) => "MBR type 0x"@ + hex_byte(b, true),
        PartitionTypeView::Gpt(g) => "GPT type "@ + guid_text(g),
    }
}

/// The text of 16 type-GUID bytes in on-disk order: the first three groups byte-reversed,
/// upper case, grouped 4-2-2-2-6 and joined by dashes.
pub open spec fn guid_text(g: Seq<u8>) -> Seq<char> {
    (hex_byte(g[3], true) + hex_byte(g[2], true) + hex_byte(g[1], true) + hex_byte(g[0], true))
        + seq!['-'] + (hex_byte(g[5], true) + hex_byte(g[4], true)) + seq!['-'] + (hex_byte(
        g[7],
        true,
    ) + hex_byte(g[6], true)) + seq!['-'] + (hex_byte(g[8], true) + hex_byte(g[9], true))
        + seq!['-'] + (hex_byte(g[10], true) + hex_byte(g[11], true) + hex_byte(g[12], true)
        + hex_byte(g[13], true) + hex_byte(g[14], true) + hex_byte(g[15], true))
}

impl PartitionType {
    /// The text of this partition type (see `partition_type_text`).
    pub fn display_string(&self) -> (s: String)
        ensures
            s@ == partition_type_text(self@),
    {
        proof {
            reveal_strlit("-");
        }
        let mut s = String::new();
        match self {
            PartitionType::Mbr(partition_type) => {
                s.append("MBR type 0x");
                push_hex_byte(&mut s, *partition_type, true);
            },
            PartitionType::Gpt(guid) => {
                s.append("GPT type ");
                push_hex_byte(&mut s, guid[3], true);
                push_hex_byte(&mut s, guid[2], true);
                push_hex_byte(&mut s, guid[1], true);
                push_hex_byte(&mut s, guid[0], true);
                s.append("-");
                push_hex_byte(&mut s, guid[5], true);
                push_hex_byte(&mut s, guid[4], true);
                s.append("-");
                push_hex_byte(&mut s, guid[7], true);
                push_hex_byte(&mut s, guid[6], true);
                s.append("-");
                push_hex_byte(&mut s, guid[8], true);
                push_hex_byte(&mut s, guid[9], true);
                s.append("-");
                push_hex_byte(&mut s, guid[10], true);
                push_hex_byte(&mut s, guid[11], true);
                push_hex_byte(&mut s, guid[12], true);
                push_hex_byte(&mut s, guid[13], true);
                push_hex_byte(&mut s, guid[14], true);
                push_hex_byte(&mut s, guid[15], true);
            },
        }
        s
    }
}

/// The partitions of `table` that can hold a file system, in table order.
pub fn filesystem_partitions(table: &PartitionTable) -> (r: Vec<Partition>)
    ensures
        partitions_view(r@) == filesystem_only(table@.partitions),
{
    let mut result: Vec<Partition> = Vec::new();
    let mut i: usize = 0;
    proof {
        assert(table.partitions@.take(0) =~= Seq::<Partition>::empty());
        assert(partitions_view(result@) =~= Seq::<PartitionView>::empty());
        assert(partitions_view(table.partitions@.take(0)) =~= Seq::<PartitionView>::empty());
    }
    while i < table.partitions.len()
        invariant
            i <= table.partitions@.len(),
            partitions_view(result@) == filesystem_only(
                partitions_view(table.partitions@.take(i as int)),
            ),
        decreases table.partitions@.len() - i,
    {
        let partition = table.partitions[i];
        proof {
            let prefix = partitions_view(table.partitions@.take(i + 1));
            assert(prefix.drop_last() =~= partitions_view(table.partitions@.take(i as int)));
            assert(prefix.last() == partition@);
        }
        if is_filesystem_partition(&partition) {
            let ghost before = result@;
            result.push(partition);
            proof {
                assert(partitions_view(result@) =~= partitions_view(before).push(partition@));
            }
        }
        i = i + 1;
    }
    proof {
        assert(table.partitions@.take(table.partitions@.len() as int) =~= table.partitions@);
    }
    result
}

/// Every partition of an MBR table is sector aligned, has a non-zero MBR type byte, and the
/// table lists no more partitions than there are slots.
pub proof fn lemma_mbr_partitions_are_used_aligned_slots(es: Seq<MbrEntry>)
    ensures
        mbr_partitions(es).len() <= es.len(),
        forall|k: int|
            0 <= k < mbr_partitions(es).len() ==> {
                &&& is_sector_aligned(#[trigger] mbr_partitions(es)[k])
                &&& mbr_partitions(es)[k].partition_type matches PartitionTypeView::Mbr(t) && t != 0
            },
    decreases es.len(),
{
    if es.len() > 0 {
        lemma_mbr_partitions_are_used_aligned_slots(es.drop_last());
    }
}

/// A used GPT entry has a type GUID whose on-disk bytes are not all zero.
proof fn lemma_used_gpt_entry_has_nonzero_guid(e: GptEntry)
    requires
        gpt_entry_used(e),
    ensures
        !is_zero_guid(guid_bytes(e)),
{
    let g = guid_bytes(e);
    let d1 = e.type_d1;
    let d2 = e.type_d2;
    let d3 = e.type_d3;
    if is_zero_guid(g) {
        assert(g[0] == 0 && g[1] == 0 && g[2] == 0 && g[3] == 0);
        assert(g[4] == 0 && g[5] == 0 && g[6] == 0 && g[7] == 0);
        assert(((d1 % 256) as u8 == 0 && ((d1 / 256) % 256) as u8 == 0 && ((d1 / 65536) % 256) as u8
            == 0 && (d1 / 16777216) as u8 == 0) ==> d1 == 0) by (bit_vector);
        assert(((d2 % 256) as u8 == 0 && (d2 / 256) as u8 == 0) ==> d2 == 0) by (bit_vector);
        assert(((d3 % 256) as u8 == 0 && (d3 / 256) as u8 == 0) ==> d3 == 0) by (bit_vector);
        assert forall|i: int| 0 <= i < e.type_d4@.len() implies e.type_d4@[i] == 0 by {
            assert(g[8 + i] == e.type_d4@[i]);
        }
    }
}

/// Every partition of a GPT table is a filesystem partition and is sector aligned: the
/// table only lists entries whose type GUID is not nil.
pub proof fn lemma_gpt_partitions_are_aligned_filesystems(es: Seq<GptEntry>)
    ensures
        gpt_partitions(es) matches Ok(ps) ==> forall|k: int|
            0 <= k < ps.len() ==> is_filesystem(#[trigger] ps[k]) && is_sector_aligned(ps[k]),
    decreases es.len(),
{
    if es.len() > 0 {
        lemma_gpt_partitions_are_aligned_filesystems(es.drop_last());
        if gpt_entry_used(es.last()) {
            lemma_used_gpt_entry_has_nonzero_guid(es.last());
        }
    }
}

/// Every partition of the table read from an image is sector aligned: its byte offset and
/// byte length are its first sector and its sector count times the sector size.
pub proof fn lemma_image_partitions_are_sector_aligned(image: Seq<u8>)
    ensures
        image_table(image) matches Ok(t) ==> forall|k: int|
            0 <= k < t.partitions.len() ==> is_sector_aligned(#[trigger] t.partitions[k]),
{
    if let Ok(es) = gpt_read(image, SECTOR_SIZE as u64) {
        lemma_gpt_partitions_are_aligned_filesystems(es);
    }
    if let Ok(es) = mbr_read(image, SECTOR_SIZE as u32) {
        lemma_mbr_partitions_are_used_aligned_slots(es);
    }
}

/// Keeping the filesystem partitions keeps only filesystem partitions, each taken from the
/// list, loses none of them, and keeping them again changes nothing.
pub proof fn lemma_filesystem_only_keeps_exactly_filesystems(ps: Seq<PartitionView>)
    ensures
        filesystem_only(ps).len() <= ps.len(),
        forall|k: int|
            0 <= k < filesystem_only(ps).len() ==> is_filesystem(#[trigger] filesystem_only(ps)[k])
                && ps.contains(filesystem_only(ps)[k]),
        forall|k: int|
            0 <= k < ps.len() && is_filesystem(#[trigger] ps[k]) ==> filesystem_only(ps).contains(
                ps[k],
            ),
        filesystem_only(filesystem_only(ps)) == filesystem_only(ps),
    decreases ps.len(),
{
    if ps.len() > 0 {
        let init = ps.drop_last();
        lemma_filesystem_only_keeps_exactly_filesystems(init);
        let f = filesystem_only(init);
        assert forall|k: int|
            0 <= k < filesystem_only(ps).len() implies is_filesystem(
            #[trigger] filesystem_only(ps)[k],
        ) && ps.contains(filesystem_only(ps)[k]) by {
            if k < f.len() {
                let j = choose|j: int| 0 <= j < init.len() && init[j] == f[k];
                assert(ps[j] == init[j]);
            } else {
                assert(ps[ps.len() - 1] == ps.last());
            }
        }
        assert forall|k: int|
            0 <= k < ps.len() && is_filesystem(#[trigger] ps[k]) implies filesystem_only(
            ps,
        ).contains(ps[k]) by {
            if k < ps.len() - 1 {
                assert(init[k] == ps[k]);
                let j = choose|j: int| 0 <= j < f.len() && f[j] == init[k];
                assert(filesystem_only(ps)[j] == f[j]);
            } else {
                assert(filesystem_only(ps)[filesystem_only(ps).len() - 1] == ps.last());
            }
        }
        if is_filesystem(ps.last()) {
            let g = f.push(ps.last());
            assert(g.drop_last() =~= f);
        }
    }
}

/// Built from slots numbered in strictly increasing order from 1, an MBR table lists its
/// partitions in strictly increasing index order, each index below the last slot's number.
pub proof fn lemma_mbr_partition_indices_increase(es: Seq<MbrEntry>)
    requires
        forall|i: int, j: int| 0 <= i < j < es.len() ==> #[trigger] es[i].index < #[trigger] es[j].index,
        forall|i: int| 0 <= i < es.len() ==> #[trigger] es[i].index >= 1,
    ensures
        indices_increase(mbr_partitions(es)),
        es.len() > 0 ==> forall|k: int|
            0 <= k < mbr_partitions(es).len() ==> #[trigger] mbr_partitions(es)[k].index + 1
                <= es.last().index,
    decreases es.len(),
{
    if es.len() > 0 {
        let init = es.drop_last();
        lemma_mbr_partition_indices_increase(init);
        if init.len() > 0 {
            assert(init.last() == es[es.len() - 2]);
            assert(es[es.len() - 2].index < es.last().index);
        }
        assert(es.last() == es[es.len() - 1]);
    }
}

/// Built from entries numbered from 1 in strictly increasing order, a GPT table lists its
/// partitions in strictly increasing index order, each index below the last entry's number.
pub proof fn lemma_gpt_partition_indices_increase(es: Seq<GptEntry>)
    requires
        forall|i: int| 0 <= i < es.len() ==> #[trigger] es[i].index >= 1,
        forall|i: int, j: int| 0 <= i < j < es.len() ==> #[trigger] es[i].index < #[trigger] es[j].index,
    ensures
        gpt_partitions(es) matches Ok(ps) ==> indices_increase(ps) && (es.len() > 0 ==> forall|
            k: int,
        | 0 <= k < ps.len() ==> #[trigger] ps[k].index + 1 <= es.last().index),
    decreases es.len(),
{
    if es.len() > 0 {
        let init = es.drop_last();
        lemma_gpt_partition_indices_increase(init);
        if init.len() > 0 {
            assert(init.last() == es[es.len() - 2]);
            assert(es[es.len() - 2].index < es.last().index);
        }
        assert(es.last() == es[es.len() - 1]);
    }
}

/// The usual hyphenated text of a GPT entry's type GUID, upper case, made from its fields:
/// the first three fields as 8, 4 and 4 hexadecimal digits, then the last eight bytes as 4
/// and 12 digits.
pub open spec fn guid_fields_text(e: GptEntry) -> Seq<char> {
    let d4 = e.type_d4@;
    hex_fixed(e.type_d1 as nat, 8, true) + seq!['-'] + hex_fixed(e.type_d2 as nat, 4, true)
        + seq!['-'] + hex_fixed(e.type_d3 as nat, 4, true) + seq!['-'] + (hex_byte(d4[0], true)
        + hex_byte(d4[1], true)) + seq!['-'] + (hex_byte(d4[2], true) + hex_byte(d4[3], true)
        + hex_byte(d4[4], true) + hex_byte(d4[5], true) + hex_byte(d4[6], true) + hex_byte(
        d4[7],
        true,
    ))
}

/// The text of a GPT partition type undoes the on-disk byte order: it is the usual
/// hyphenated text of the type GUID's fields.
pub proof fn lemma_gpt_type_text_is_guid_text(e: GptEntry)
    ensures
        partition_type_text(PartitionTypeView::Gpt(guid_bytes(e))) == "GPT type "@
            + guid_fields_text(e),
{
    lemma_hex_fixed_u32(e.type_d1, true);
    lemma_hex_fixed_u16(e.type_d2, true);
    lemma_hex_fixed_u16(e.type_d3, true);
    let g = guid_bytes(e);
    assert(g[0] == (e.type_d1 % 256) as u8 && g[1] == ((e.type_d1 / 256) % 256) as u8);
    assert(g[2] == ((e.type_d1 / 65536) % 256) as u8 && g[3] == (e.type_d1 / 16777216) as u8);
    assert(g[4] == (e.type_d2 % 256) as u8 && g[5] == (e.type_d2 / 256) as u8);
    assert(g[6] == (e.type_d3 % 256) as u8 && g[7] == (e.type_d3 / 256) as u8);
    let d4 = e.type_d4@;
    assert(g[8] == d4[0] && g[9] == d4[1] && g[10] == d4[2] && g[11] == d4[3]);
    assert(g[12] == d4[4] && g[13] == d4[5] && g[14] == d4[6] && g[15] == d4[7]);
    assert(guid_text(g) == guid_fields_text(e));
}

/// Built from slots numbered from 1 in order, an MBR table lists exactly the used slots: each
/// partition is the partition of the used slot whose position is its index, and each used
/// slot is listed under its position.
pub proof fn lemma_mbr_partitions_are_used_slots(es: Seq<MbrEntry>)
    requires
        forall|i: int| 0 <= i < es.len() ==> #[trigger] es[i].index == i + 1,
    ensures
        forall|k: int|
            0 <= k < mbr_partitions(es).len() ==> {
                let j = #[trigger] mbr_partitions(es)[k].index as int;
                &&& 0 <= j < es.len()
                &&& es[j].sys != 0
                &&& mbr_partitions(es)[k] == mbr_partition(es[j])
            },
        forall|j: int|
            0 <= j < es.len() && #[trigger] es[j].sys != 0 ==> exists|k: int|
                0 <= k < mbr_partitions(es).len() && #[trigger] mbr_partitions(es)[k].index == j,
    decreases es.len(),
{
    if es.len() > 0 {
        let init = es.drop_last();
        assert forall|i: int| 0 <= i < init.len() implies #[trigger] init[i].index == i + 1 by {
            assert(init[i] == es[i]);
        }
        lemma_mbr_partitions_are_used_slots(init);
        let last = es.len() - 1;
        assert(es.last() == es[last]);
        let ps = mbr_partitions(es);
        let qs = mbr_partitions(init);
        assert forall|k: int| 0 <= k < ps.len() implies {
            let j = #[trigger] ps[k].index as int;
            &&& 0 <= j < es.len()
            &&& es[j].sys != 0
            &&& ps[k] == mbr_partition(es[j])
        } by {
            if k < qs.len() {
                assert(ps[k] == qs[k]);
                let j = qs[k].index as int;
                assert(init[j] == es[j]);
            }
        }
        assert forall|j: int| 0 <= j < es.len() && #[trigger] es[j].sys != 0 implies exists|k: int|
            0 <= k < ps.len() && #[trigger] ps[k].index == j by {
            if j < last {
                assert(init[j] == es[j]);
                let k = choose|k: int| 0 <= k < qs.len() && #[trigger] qs[k].index == j;
                assert(ps[k] == qs[k]);
            } else {
                assert(ps[ps.len() - 1] == mbr_partition(es[last]));
                assert(ps[ps.len() - 1].index == j);
            }
        }
    }
}

/// Whenever the GPT reading of an image succeeds, its table is the image's table, of kind
/// Gpt, however many partitions it lists (none included); only when it fails is the MBR
/// reading the answer.
pub proof fn lemma_gpt_reading_decides(image: Seq<u8>)
    ensures
        image_gpt_table(image) matches Ok(t) ==> image_table(image) == Ok::<
            PartitionTableView,
            Seq<char>,
        >(t) && t.kind == PartitionTableKind::Gpt,
        image_gpt_table(image) is Err ==> image_table(image) == image_mbr_table(image),
        image_mbr_table(image) matches Ok(t) ==> t.kind == PartitionTableKind::Mbr,
{
}

/// An MBR partition can hold a file system exactly when its type byte is none of the
/// extended types 0x05, 0x0F and 0x85; a GPT partition exactly when some byte of its type
/// GUID is not zero.
pub proof fn lemma_filesystem_partition_types(p: PartitionView)
    ensures
        p.partition_type matches PartitionTypeView::Mbr(t) ==> (is_filesystem(p) <==> (t != 0x05
            && t != 0x0F && t != 0x85)),
        p.partition_type matches PartitionTypeView::Gpt(g) ==> (is_filesystem(p) <==> exists|
            i: int,
        | 0 <= i < g.len() && #[trigger] g[i] != 0),
{
}

/// A partition is built exactly when its byte offset and byte length, its first sector and
/// its sector count times 512, fit in 64 bits; it then keeps its index, type and sectors.
pub proof fn lemma_built_partition_bytes(
    index: usize,
    partition_type: PartitionTypeView,
    first_lba: u64,
    sector_count: u64,
)
    ensures
        built_partition(index, partition_type, first_lba, sector_count) is Ok <==> (first_lba
            * 512 <= u64::MAX && sector_count * 512 <= u64::MAX),
        built_partition(index, partition_type, first_lba, sector_count) matches Ok(p) ==> {
            &&& p.index == index
            &&& p.partition_type == partition_type
            &&& p.first_lba == first_lba
            &&& p.sector_count == sector_count
            &&& p.byte_offset == first_lba * 512
            &&& p.byte_len == sector_count * 512
        },
{
}

/// A GPT entry spans its first through its last sector: it has a sector count exactly when
/// the last sector is not before the first and the count fits in 64 bits, and the count is
/// then last - first + 1.
pub proof fn lemma_gpt_sectors_len_counts_inclusive(first: u64, last: u64)
    ensures
        gpt_sectors_len(first, last) is Ok <==> (first <= last && last - first + 1 <= u64::MAX),
        gpt_sectors_len(first, last) matches Ok(n) ==> n == last - first + 1,
{
}

/// An MBR table lists one partition per used slot (type byte not 0) and no other: the
/// partition of slot position j has index j, the slot's type byte, start and sector count,
/// and its bytes at 512 per sector.
pub proof fn lemma_mbr_partition_of_slot(e: MbrEntry)
    requires
        e.index >= 1,
    ensures
        mbr_partition(e).index == e.index - 1,
        mbr_partition(e).partition_type == PartitionTypeView::Mbr(e.sys),
        mbr_partition(e).first_lba == e.starting_lba,
        mbr_partition(e).sector_count == e.sectors,
        mbr_partition(e).byte_offset == e.starting_lba * 512,
        mbr_partition(e).byte_len == e.sectors * 512,
{
}

} // verus!
