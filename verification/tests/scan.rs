use qnx6::parser::partitions::{Partition, PartitionTable, PartitionTableKind, PartitionType};
use qnx6::parser::qnx6::{parse_partition, scan_partitions, superblock_location, SuperblockLocation};
use qnx6::parser::superblock::SuperBlock;
use qnx6::text::decimal_string;

fn mbr_partition(index: usize, sys: u8, first_lba: u64, sectors: u64) -> Partition {
    Partition {
        index,
        partition_type: PartitionType::Mbr(sys),
        first_lba,
        sector_count: sectors,
        byte_offset: first_lba.wrapping_mul(512),
        byte_len: sectors.wrapping_mul(512),
    }
}

fn superblock_bytes() -> Vec<u8> {
    let mut data = vec![0; 1000];
    data[0..4].copy_from_slice(&0x6819_1122_u32.to_le_bytes());
    data[48..52].copy_from_slice(&4096_u32.to_le_bytes());
    data
}

#[test]
fn superblock_lies_sixteen_sectors_into_the_partition() {
    let location = superblock_location(&mbr_partition(0, 0x4F, 2048, 4096)).unwrap();

    assert_eq!(
        location,
        SuperblockLocation { offset: 2064 * 512, start: 2064 * 512, end: 2064 * 512 + 1000 }
    );
}

#[test]
fn superblock_sector_overflow_is_reported() {
    assert_eq!(
        superblock_location(&mbr_partition(3, 0x4F, u64::MAX - 15, 1)),
        Err("partition 3 superblock sector overflowed".to_string())
    );
}

#[test]
fn superblock_offset_overflow_is_reported() {
    assert_eq!(
        superblock_location(&mbr_partition(7, 0x4F, u64::MAX - 16, 1)),
        Err("partition 7 superblock offset overflowed".to_string())
    );
}

#[test]
fn non_filesystem_partition_is_skipped() {
    let image = vec![0; 512];

    assert_eq!(parse_partition(&image, &mbr_partition(0, 0x0F, 10, 80)), Ok(None));
}

#[test]
fn filesystem_partition_superblock_is_read() {
    let mut image = vec![0; 512 * 40];
    let start = (2 + 16) * 512;
    image[start..start + 1000].copy_from_slice(&superblock_bytes());

    let report = parse_partition(&image, &mbr_partition(1, 0x4F, 2, 20))
        .unwrap()
        .expect("a filesystem partition gives a report");

    assert_eq!(report.superblock_offset, 18 * 512);
    assert_eq!(report.bytes_available, 20 * 512);
    assert_eq!(report.superblock, SuperBlock::parse(&superblock_bytes()).unwrap());
    assert_eq!(report.superblock.magic, 0x6819_1122);
    assert_eq!(report.superblock.block_size, 4096);
}

#[test]
fn partition_past_the_image_is_refused() {
    let image = vec![0; 512 * 40];

    assert_eq!(
        parse_partition(&image, &mbr_partition(2, 0x4F, 2, 39)),
        Err("partition 2 extends past end of image".to_string())
    );
}

#[test]
fn superblock_past_the_image_is_refused() {
    let image = vec![0; 512 * 18 + 999];

    assert_eq!(
        parse_partition(&image, &mbr_partition(4, 0x4F, 2, 2)),
        Err("partition 4 superblock extends past end of image".to_string())
    );
}

#[test]
fn partition_byte_range_overflow_is_refused() {
    let mut partition = mbr_partition(5, 0x4F, 2, 2);
    partition.byte_offset = u64::MAX / 2 + 1;
    partition.byte_len = u64::MAX / 2 + 1;
    let image = vec![0; 512 * 40];

    let result = parse_partition(&image, &partition);

    if usize::BITS == 64 {
        assert_eq!(result, Err("partition 5 byte range overflowed".to_string()));
    } else {
        assert_eq!(
            result,
            Err(format!("partition 5 byte offset is too large: {}", u64::MAX / 2 + 1))
        );
    }
}

#[test]
fn decimal_text_of_extremes() {
    assert_eq!(decimal_string(0), "0");
    assert_eq!(decimal_string(10), "10");
    assert_eq!(decimal_string(u64::MAX), "18446744073709551615");
}

#[test]
fn scan_reads_every_partition_in_order() {

    let mut image = vec![0; 512 * 40];
    let start = (2 + 16) * 512;
    image[start..start + 1000].copy_from_slice(&superblock_bytes());
    let table = PartitionTable {
        kind: PartitionTableKind::Mbr,
        partitions: vec![mbr_partition(0, 0x0F, 1, 30), mbr_partition(4, 0x4F, 2, 20)],
    };

    let readings = scan_partitions(&image, &table).unwrap();

    assert_eq!(readings.len(), 2);
    assert_eq!(readings[0], None);
    let report = readings[1].as_ref().expect("a filesystem partition gives a report");
    assert_eq!(report.superblock_offset, 18 * 512);
    assert_eq!(report.superblock.magic, 0x6819_1122);
}

#[test]
fn scan_stops_at_the_first_failing_partition() {

    let image = vec![0; 512 * 40];
    let table = PartitionTable {
        kind: PartitionTableKind::Mbr,
        partitions: vec![
            mbr_partition(0, 0x0F, 1, 30),
            mbr_partition(1, 0x4F, 2, 39),
            mbr_partition(2, 0x4F, 30, 100),
        ],
    };

    assert_eq!(
        scan_partitions(&image, &table),
        Err("partition 1 extends past end of image".to_string())
    );
}
