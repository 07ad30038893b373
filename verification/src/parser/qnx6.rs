//! Locating and reading the QNX6 superblock of each filesystem partition of an image.
use crate::parser::partitions::{
    is_filesystem, is_filesystem_partition, partitions_view, Partition, PartitionTable,
    PartitionView, SECTOR_SIZE,
};
use crate::parser::superblock::{
    superblock_of, SuperBlock, SuperBlockView, SUPERBLOCK_SIZE,
};
use crate::text::{decimal, push_decimal};
use vstd::prelude::*;
use vstd::slice::slice_subrange;
use vstd::string::*;

verus! {

/// How many sectors into a partition its superblock starts.
pub const SUPERBLOCK_SECTOR_OFFSET: u64 = 16;

/// Where the superblock of a partition lies in the image: its byte offset, and the range of
/// image indices it covers.
#[derive(Debug, Clone, Copy, PartialEq, Eq)]
pub struct SuperblockLocation {
    pub offset: u64,
    pub start: usize,
    pub end: usize,
}

/// What reading a filesystem partition found: where its superblock is, the superblock, and
/// how many bytes the partition spans in the image.
#[derive(Debug, Clone, PartialEq, Eq)]
pub struct PartitionReport {
    pub superblock_offset: u64,
    pub superblock: SuperBlock,
    pub bytes_available: usize,
}

/// A partition report as plain values.
pub struct PartitionReportView {
    pub superblock_offset: u64,
    pub superblock: SuperBlockView,
    pub bytes_available: usize,
}

impl View for PartitionReport {
    type V = PartitionReportView;

    open spec fn view(&self) -> PartitionReportView {
        PartitionReportView {
            superblock_offset: self.superblock_offset,
            superblock: self.superblock@,
            bytes_available: self.bytes_available,
        }
    }
}

/// A message about the partition with the given index.
pub open spec fn partition_message(index: usize, text: Seq<char>) -> Seq<char> {
    "partition "@ + decimal(index as nat) + text
}

/// The location of a partition's superblock, or the message of the first figure on the way
/// to it that does not fit.
pub open spec fn superblock_location_of(p: PartitionView) -> Result<SuperblockLocation, Seq<char>> {
    let sector = p.first_lba + SUPERBLOCK_SECTOR_OFFSET;
    let offset = sector * SECTOR_SIZE;
    if sector > u64::MAX {
        Err(partition_message(p.index, " superblock sector overflowed"@))
    } else if offset > u64::MAX {
        Err(partition_message(p.index, " superblock offset overflowed"@))
    } else if offset > usize::MAX {
        Err(
            partition_message(p.index, " superblock offset is too large: "@) + decimal(
                offset as nat,
            ),
        )
    } else if offset + SUPERBLOCK_SIZE > usize::MAX {
        Err(partition_message(p.index, " superblock range overflowed"@))
    } else {
        Ok(
            SuperblockLocation {
                offset: offset as u64,
                start: offset as usize,
                end: (offset + SUPERBLOCK_SIZE) as usize,
            },
        )
    }
}

/// What reading partition `p` of `image` gives: nothing for a partition that holds no file
/// system; else its report, or the message of the first check that fails.
pub open spec fn partition_scan(image: Seq<u8>, p: PartitionView) -> Result<
    Option<PartitionReportView>,
    Seq<char>,
> {
    if !is_filesystem(p) {
        Ok(None)
    } else {
        match superblock_location_of(p) {
            Err(m) => Err(m),
            Ok(loc) => if p.byte_offset > usize::MAX {
                Err(
                    partition_message(p.index, " byte offset is too large: "@) + decimal(
                        p.byte_offset as nat,
                    ),
                )
            } else if p.byte_len > usize::MAX {
                Err(
                    partition_message(p.index, " byte length is too large: "@) + decimal(
                        p.byte_len as nat,
                    ),
                )
            } else if p.byte_offset + p.byte_len > usize::MAX {
                Err(partition_message(p.index, " byte range overflowed"@))
            } else if p.byte_offset + p.byte_len > image.len() {
                Err(partition_message(p.index, " extends past end of image"@))
            } else if loc.end > image.len() {
                Err(partition_message(p.index, " superblock extends past end of image"@))
            } else {
                Ok(
                    Some(
                        PartitionReportView {
                            superblock_offset: loc.offset,
                            superblock: superblock_of(
                                image.subrange(loc.start as int, loc.end as int),
                            ),
                            bytes_available: p.byte_len as usize,
                        },
                    ),
                )
            },
        }
    }
}

/// The message about partition `index` made of `text`.
fn message_for(index: usize, text: &str) -> (s: String)
    ensures
        s@ == partition_message(index, text@),
{
    let mut s = String::new();
    s.append("partition ");
    push_decimal(&mut s, index as u64);
    s.append(text);
    s
}

/// Where the superblock of `partition` lies: `SUPERBLOCK_SECTOR_OFFSET` sectors past its
/// first sector, `SUPERBLOCK_SIZE` bytes long.
pub fn superblock_location(partition: &Partition) -> (r: Result<SuperblockLocation, String>)
    ensures
        match r {
            Ok(loc) => superblock_location_of(partition@) == Ok::<
                SuperblockLocation,
                Seq<char>,
            >(loc),
            Err(e) => superblock_location_of(partition@) == Err::<SuperblockLocation, Seq<char>>(
                e@,
            ),
        },
{
    let target_sector = match partition.first_lba.checked_add(SUPERBLOCK_SECTOR_OFFSET) {
        Some(v) => v,
        None => return Err(message_for(partition.index, " superblock sector overflowed")),
    };
    let superblock_offset = match target_sector.checked_mul(SECTOR_SIZE as u64) {
        Some(v) => v,
        None => return Err(message_for(partition.index, " superblock offset overflowed")),
    };
    if superblock_offset > usize::MAX as u64 {
        let mut message = message_for(partition.index, " superblock offset is too large: ");
        push_decimal(&mut message, superblock_offset);
        return Err(message);
    }
    let superblock_start = superblock_offset as usize;
    let superblock_end = match superblock_start.checked_add(SUPERBLOCK_SIZE) {
        Some(v) => v,
        None => return Err(message_for(partition.index, " superblock range overflowed")),
    };
    Ok(SuperblockLocation { offset: superblock_offset, start: superblock_start, end: superblock_end })
}

/// Reads partition `partition` of `image`: nothing for a partition that holds no file system,
/// else the superblock found `SUPERBLOCK_SECTOR_OFFSET` sectors into it, once the partition
/// and the superblock are checked to lie within the image.
pub fn parse_partition(image: &[u8], partition: &Partition) -> (r: Result<
    Option<PartitionReport>,
    String,
>)
    ensures
        match r {
            Ok(Some(report)) => partition_scan(image@, partition@) == Ok::<
                Option<PartitionReportView>,
                Seq<char>,
            >(Some(report@)),
            Ok(None) => partition_scan(image@, partition@) == Ok::<
                Option<PartitionReportView>,
                Seq<char>,
            >(None),
            Err(e) => partition_scan(image@, partition@) == Err::<
                Option<PartitionReportView>,
                Seq<char>,
            >(e@),
        },
        !is_filesystem(partition@) ==> r matches Ok(None),
        ({
            let offset = (partition.first_lba + 16) * 512;
            is_filesystem(partition@) && offset + 1000 <= image@.len()
                && partition.byte_offset + partition.byte_len <= image@.len() ==> {
                &&& r matches Ok(Some(report))
                &&& report.superblock_offset == offset
                &&& report.bytes_available == partition.byte_len
                &&& report.superblock@ == superblock_of(image@.subrange(offset, offset + 1000))
            }
        }),
{
    proof {
        let n = image.len();
        lemma_partition_scan_reads_fitting_partitions(image@, partition@);
    }
    if !is_filesystem_partition(partition) {
        return Ok(None);
    }
    let location = match superblock_location(partition) {
        Ok(loc) => loc,
        Err(e) => return Err(e),
    };
    if partition.byte_offset > usize::MAX as u64 {
        let mut message = message_for(partition.index, " byte offset is too large: ");
        push_decimal(&mut message, partition.byte_offset);
        return Err(message);
    }
    let start = partition.byte_offset as usize;
    if partition.byte_len > usize::MAX as u64 {
        let mut message = message_for(partition.index, " byte length is too large: ");
        push_decimal(&mut message, partition.byte_len);
        return Err(message);
    }
    let len = partition.byte_len as usize;
    let end = match start.checked_add(len) {
        Some(v) => v,
        None => return Err(message_for(partition.index, " byte range overflowed")),
    };
    if end > image.len() {
        return Err(message_for(partition.index, " extends past end of image"));
    }
    if location.end > image.len() {
        return Err(message_for(partition.index, " superblock extends past end of image"));
    }
    let superblock_bytes = slice_subrange(image, location.start, location.end);
    let superblock = match SuperBlock::parse(superblock_bytes) {
        Ok(sb) => sb,
        Err(e) => return Err(e),
    };
    Ok(Some(PartitionReport { superblock_offset: location.offset, superblock, bytes_available: end - start }))
}

/// A partition's superblock starts `SUPERBLOCK_SECTOR_OFFSET` sectors past the partition's
/// first sector and spans `SUPERBLOCK_SIZE` bytes of the image.
pub proof fn lemma_superblock_location_geometry(p: PartitionView)
    ensures
        superblock_location_of(p) matches Ok(loc) ==> {
            &&& loc.offset == (p.first_lba + 16) * 512
            &&& loc.start == loc.offset
            &&& loc.end == loc.start + 1000
        },
        (p.first_lba + 16) * 512 + 1000 <= usize::MAX ==> superblock_location_of(p) is Ok,
{
}

/// A partition that is read successfully lies within the image, and so does its superblock:
/// reading never looks past the end of the image.
pub proof fn lemma_partition_scan_stays_inside_image(image: Seq<u8>, p: PartitionView)
    ensures
        partition_scan(image, p) matches Ok(Some(report)) ==> {
            &&& is_filesystem(p)
            &&& p.byte_offset + p.byte_len <= image.len()
            &&& report.bytes_available == p.byte_len
            &&& report.superblock_offset == (p.first_lba + SUPERBLOCK_SECTOR_OFFSET) * SECTOR_SIZE
            &&& report.superblock_offset + SUPERBLOCK_SIZE <= image.len()
        },
{
}

/// The views of a sequence of partition readings.
pub open spec fn readings_view(rs: Seq<Option<PartitionReport>>) -> Seq<Option<PartitionReportView>> {
    rs.map_values(
        |o: Option<PartitionReport>|
            match o {
                Some(report) => Some(report@),
                None => None,
            },
    )
}

/// Reading every partition of `ps` in order: the reading of each, or the message of the first
/// one that fails.
pub open spec fn scan_of(image: Seq<u8>, ps: Seq<PartitionView>) -> Result<
    Seq<Option<PartitionReportView>>,
    Seq<char>,
>
    decreases ps.len(),
{
    if ps.len() == 0 {
        Ok(Seq::empty())
    } else {
        match scan_of(image, ps.drop_last()) {
            Err(m) => Err(m),
            Ok(rs) => match partition_scan(image, ps.last()) {
                Err(m) => Err(m),
                Ok(o) => Ok(rs.push(o)),
            },
        }
    }
}

/// A failure at partition `i` is the failure of the whole scan.
proof fn lemma_scan_prefix_error(image: Seq<u8>, ps: Seq<PartitionView>, i: int)
    requires
        0 <= i < ps.len(),
        scan_of(image, ps.take(i + 1)) is Err,
    ensures
        scan_of(image, ps) == scan_of(image, ps.take(i + 1)),
    decreases ps.len() - i,
{
    if i + 1 == ps.len() {
        assert(ps.take(i + 1) =~= ps);
    } else {
        assert(ps.take(i + 2).drop_last() =~= ps.take(i + 1));
        assert(scan_of(image, ps.take(i + 2)) == scan_of(image, ps.take(i + 1)));
        lemma_scan_prefix_error(image, ps, i + 1);
    }
}

/// Reads every partition of `table` in table order (see `parse_partition`), stopping at the
/// first one that fails.
pub fn scan_partitions(image: &[u8], table: &PartitionTable) -> (r: Result<
    Vec<Option<PartitionReport>>,
    String,
>)
    ensures
        match r {
            Ok(readings) => scan_of(image@, table@.partitions) == Ok::<
                Seq<Option<PartitionReportView>>,
                Seq<char>,
            >(readings_view(readings@)),
            Err(e) => scan_of(image@, table@.partitions) == Err::<
                Seq<Option<PartitionReportView>>,
                Seq<char>,
            >(e@),
        },
        r matches Ok(readings) ==> {
            &&& readings@.len() == table.partitions@.len()
            &&& forall|i: int|
                0 <= i < readings@.len() ==> partition_scan(image@, table.partitions@[i]@) == Ok::<
                    Option<PartitionReportView>,
                    Seq<char>,
                >(#[trigger] readings_view(readings@)[i])
        },
        r matches Err(e) ==> exists|i: int|
            0 <= i < table.partitions@.len() && partition_scan(image@, #[trigger] table.partitions@[i]@)
                == Err::<Option<PartitionReportView>, Seq<char>>(e@) && forall|j: int|
                0 <= j < i ==> partition_scan(image@, #[trigger] table.partitions@[j]@) is Ok,
        (forall|i: int|
            0 <= i < table.partitions@.len() ==> partition_scan(image@, #[trigger] table.partitions@[i]@) is Ok)
            ==> r is Ok,
{
    let mut readings: Vec<Option<PartitionReport>> = Vec::new();
    let mut i: usize = 0;
    let ghost ps = table@.partitions;
    proof {
        assert(partitions_view(table.partitions@.take(0)) =~= Seq::<PartitionView>::empty());
        assert(readings_view(readings@) =~= Seq::<Option<PartitionReportView>>::empty());
    }
    while i < table.partitions.len()
        invariant
            i <= table.partitions@.len(),
            ps == partitions_view(table.partitions@),
            scan_of(image@, ps.take(i as int)) == Ok::<
                Seq<Option<PartitionReportView>>,
                Seq<char>,
            >(readings_view(readings@)),
        decreases table.partitions@.len() - i,
    {
        let partition = table.partitions[i];
        proof {
            assert(ps.take(i + 1).drop_last() =~= ps.take(i as int));
            assert(ps.take(i + 1).last() == partition@);
        }
        match parse_partition(image, &partition) {
            Ok(reading) => {
                let ghost before = readings@;
                readings.push(reading);
                proof {
                    assert(readings_view(readings@) =~= readings_view(before).push(
                        match reading {
                            Some(report) => Some(report@),
                            None => None,
                        },
                    ));
                }
            },
            Err(e) => {
                proof {
                    lemma_scan_prefix_error(image@, ps, i as int);
                    lemma_scan_reads_every_partition(image@, ps);
                    let k = choose|k: int|
                        0 <= k < ps.len() && partition_scan(image@, #[trigger] ps[k]) == Err::<
                            Option<PartitionReportView>,
                            Seq<char>,
                        >(e@) && forall|j: int|
                            0 <= j < k ==> partition_scan(image@, #[trigger] ps[j]) is Ok;
                    assert(ps[k] == table.partitions@[k]@);
                    assert forall|j: int| 0 <= j < k implies partition_scan(
                        image@,
                        #[trigger] table.partitions@[j]@,
                    ) is Ok by {
                        assert(ps[j] == table.partitions@[j]@);
                    }
                }
                return Err(e);
            },
        }
        i = i + 1;
    }
    proof {
        assert(ps.take(ps.len() as int) =~= ps);
        lemma_scan_reads_every_partition(image@, ps);
        assert(readings_view(readings@).len() == readings@.len());
    }
    Ok(readings)
}

/// A filesystem partition that lies within the image, and whose superblock, 16 sectors into
/// it, also lies within the image, is read successfully: its report gives that superblock's
/// offset, the superblock parsed there, and the partition's byte length.
pub proof fn lemma_partition_scan_reads_fitting_partitions(image: Seq<u8>, p: PartitionView)
    requires
        image.len() <= usize::MAX,
    ensures
        !is_filesystem(p) ==> partition_scan(image, p) == Ok::<
            Option<PartitionReportView>,
            Seq<char>,
        >(None),
        ({
            let offset = (p.first_lba + 16) * 512;
            is_filesystem(p) && offset + 1000 <= image.len() && p.byte_offset + p.byte_len
                <= image.len() ==> {
                &&& partition_scan(image, p) matches Ok(Some(report))
                &&& report.superblock_offset == offset
                &&& report.bytes_available == p.byte_len
                &&& report.superblock == superblock_of(image.subrange(offset, offset + 1000))
            }
        }),
{
}

/// A scan that succeeds gives exactly one reading per partition, in table order, each the
/// reading of that partition; a scan fails exactly when some partition's reading fails, with
/// the message of the first such partition.
pub proof fn lemma_scan_reads_every_partition(image: Seq<u8>, ps: Seq<PartitionView>)
    ensures
        scan_of(image, ps) matches Ok(rs) ==> {
            &&& rs.len() == ps.len()
            &&& forall|i: int|
                0 <= i < rs.len() ==> partition_scan(image, ps[i]) == Ok::<
                    Option<PartitionReportView>,
                    Seq<char>,
                >(#[trigger] rs[i])
        },
        scan_of(image, ps) matches Err(m) ==> exists|i: int|
            0 <= i < ps.len() && partition_scan(image, #[trigger] ps[i]) == Err::<
                Option<PartitionReportView>,
                Seq<char>,
            >(m) && forall|j: int| 0 <= j < i ==> partition_scan(image, #[trigger] ps[j]) is Ok,
        (forall|i: int| 0 <= i < ps.len() ==> partition_scan(image, #[trigger] ps[i]) is Ok)
            ==> scan_of(image, ps) is Ok,
    decreases ps.len(),
{
    if ps.len() > 0 {
        let init = ps.drop_last();
        lemma_scan_reads_every_partition(image, init);
        let last = ps.len() - 1;
        assert(ps.last() == ps[last]);
        assert forall|i: int| 0 <= i < init.len() implies #[trigger] init[i] == ps[i] by {}
        if let Ok(rs) = scan_of(image, ps) {
            let qs = scan_of(image, init)->Ok_0;
            assert forall|i: int| 0 <= i < rs.len() implies partition_scan(image, ps[i]) == Ok::<
                Option<PartitionReportView>,
                Seq<char>,
            >(#[trigger] rs[i]) by {
                if i < last {
                    assert(rs[i] == qs[i]);
                    assert(init[i] == ps[i]);
                }
            }
        }
        if let Err(m) = scan_of(image, ps) {
            if scan_of(image, init) is Err {
                let i = choose|i: int|
                    0 <= i < init.len() && partition_scan(image, #[trigger] init[i]) == Err::<
                        Option<PartitionReportView>,
                        Seq<char>,
                    >(m) && forall|j: int|
                        0 <= j < i ==> partition_scan(image, #[trigger] init[j]) is Ok;
                assert(init[i] == ps[i]);
                assert forall|j: int| 0 <= j < i implies partition_scan(image, #[trigger] ps[j]) is Ok by {
                    assert(init[j] == ps[j]);
                }
            } else {
                let qs = scan_of(image, init)->Ok_0;
                assert forall|j: int| 0 <= j < last implies partition_scan(image, #[trigger] ps[j]) is Ok by {
                    assert(init[j] == ps[j]);
                    assert(partition_scan(image, init[j]) == Ok::<
                        Option<PartitionReportView>,
                        Seq<char>,
                    >(qs[j]));
                }
            }
        }
        if forall|i: int| 0 <= i < ps.len() ==> partition_scan(image, #[trigger] ps[i]) is Ok {
            assert forall|i: int| 0 <= i < init.len() implies partition_scan(image, #[trigger] init[i]) is Ok by {
                assert(init[i] == ps[i]);
                assert(partition_scan(image, ps[i]) is Ok);
            }
            assert(partition_scan(image, ps[last]) is Ok);
        }
    }
}

} // verus!
