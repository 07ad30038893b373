use std::io::Cursor;

use qnx6::parser::partitions::{
    build_partition, filesystem_partitions, get_all_partitions, gpt_type_guid_to_partition_bytes,
    is_extended_mbr_partition_type, is_filesystem_partition, partition_table_from_gpt_entries,
    partition_table_from_mbr_entries, GptEntry, MbrEntry, Partition, PartitionTable,
    PartitionTableKind, PartitionType, SECTOR_SIZE,
};

const MBR_SIGNATURE_OFFSET: usize = 510;
const MBR_SIGNATURE: [u8; 2] = [0x55, 0xAA];
const MBR_PARTITION_TABLE_OFFSET: usize = 446;
const MBR_PARTITION_ENTRY_SIZE: usize = 16;

fn write_mbr_entry(
    image: &mut [u8],
    offset: usize,
    partition_type: u8,
    first_lba: u32,
    sector_count: u32,
) {
    image[offset + 4] = partition_type;
    image[offset + 8..offset + 12].copy_from_slice(&first_lba.to_le_bytes());
    image[offset + 12..offset + 16].copy_from_slice(&sector_count.to_le_bytes());
}

fn partition(index: usize, partition_type: PartitionType, first_lba: u64, sectors: u64) -> Partition {
    Partition {
        index,
        partition_type,
        first_lba,
        sector_count: sectors,
        byte_offset: first_lba * SECTOR_SIZE as u64,
        byte_len: sectors * SECTOR_SIZE as u64,
    }
}

fn basic_data_entry(index: u32, first_lba: u64, last_lba: u64) -> GptEntry {
    GptEntry {
        index,
        type_d1: 0xEBD0_A0A2,
        type_d2: 0xB9E5,
        type_d3: 0x4433,
        type_d4: [0x87, 0xC0, 0x68, 0xB6, 0xB7, 0x26, 0x99, 0xC7],
        first_lba,
        last_lba,
    }
}

fn unused_entry(index: u32) -> GptEntry {
    GptEntry {
        index,
        type_d1: 0,
        type_d2: 0,
        type_d3: 0,
        type_d4: [0; 8],
        first_lba: 0,
        last_lba: 0,
    }
}

#[test]
fn detects_mbr_from_signature() {
    let mut image = vec![0; SECTOR_SIZE * 2];
    image[MBR_SIGNATURE_OFFSET..MBR_SIGNATURE_OFFSET + MBR_SIGNATURE.len()]
        .copy_from_slice(&MBR_SIGNATURE);
    write_mbr_entry(&mut image, MBR_PARTITION_TABLE_OFFSET, 0x4F, 2048, 4096);

    let partition_table = get_all_partitions(&image).expect("MBR should parse");

    assert_eq!(partition_table.kind, PartitionTableKind::Mbr);
    assert_eq!(
        partition_table.partitions,
        vec![Partition {
            index: 0,
            partition_type: PartitionType::Mbr(0x4F),
            first_lba: 2048,
            sector_count: 4096,
            byte_offset: 2048 * SECTOR_SIZE as u64,
            byte_len: 4096 * SECTOR_SIZE as u64,
        }]
    );
}

#[test]
fn detects_gpt_from_header() {
    let total_bytes = 1024 * 1024;
    let mut image = Cursor::new(vec![0; total_bytes]);
    let protective_mbr =
        gpt::mbr::ProtectiveMBR::with_lb_size(((total_bytes / SECTOR_SIZE) - 1) as u32);
    protective_mbr
        .overwrite_lba0(&mut image)
        .expect("protective MBR should be writable");

    let mut disk = gpt::GptConfig::new()
        .writable(true)
        .logical_block_size(gpt::disk::LogicalBlockSize::Lb512)
        .create_from_device(image, None)
        .expect("GPT should be creatable");
    disk.add_partition(
        "qnx6",
        66 * SECTOR_SIZE as u64,
        gpt::partition_types::BASIC,
        0,
        None,
    )
    .expect("GPT partition should be addable");
    let image = disk.write().expect("GPT should be writable").into_inner();

    let partition_table = get_all_partitions(&image).expect("GPT should parse");

    assert_eq!(partition_table.kind, PartitionTableKind::Gpt);
    assert_eq!(partition_table.partitions.len(), 1);
    assert_eq!(partition_table.partitions[0].index, 0);
    assert_eq!(partition_table.partitions[0].sector_count, 66);
    assert_eq!(
        partition_table.partitions[0].byte_len,
        66 * SECTOR_SIZE as u64
    );
    assert!(matches!(
        partition_table.partitions[0].partition_type,
        PartitionType::Gpt(_)
    ));
}

#[test]
fn detects_ebr_logical_partitions() {
    let mut image = vec![0; SECTOR_SIZE * 100];
    image[MBR_SIGNATURE_OFFSET..MBR_SIGNATURE_OFFSET + MBR_SIGNATURE.len()]
        .copy_from_slice(&MBR_SIGNATURE);

    write_mbr_entry(&mut image, MBR_PARTITION_TABLE_OFFSET, 0x0F, 10, 80);

    let first_ebr_offset = SECTOR_SIZE * 10;
    image[first_ebr_offset + MBR_SIGNATURE_OFFSET
        ..first_ebr_offset + MBR_SIGNATURE_OFFSET + MBR_SIGNATURE.len()]
        .copy_from_slice(&MBR_SIGNATURE);
    write_mbr_entry(
        &mut image,
        first_ebr_offset + MBR_PARTITION_TABLE_OFFSET,
        0x4F,
        1,
        20,
    );
    write_mbr_entry(
        &mut image,
        first_ebr_offset + MBR_PARTITION_TABLE_OFFSET + MBR_PARTITION_ENTRY_SIZE,
        0x05,
        50,
        30,
    );

    let second_ebr_offset = SECTOR_SIZE * 60;
    image[second_ebr_offset + MBR_SIGNATURE_OFFSET
        ..second_ebr_offset + MBR_SIGNATURE_OFFSET + MBR_SIGNATURE.len()]
        .copy_from_slice(&MBR_SIGNATURE);
    write_mbr_entry(
        &mut image,
        second_ebr_offset + MBR_PARTITION_TABLE_OFFSET,
        0x4F,
        2,
        30,
    );

    let partition_table = get_all_partitions(&image).expect("EBR chain should parse");

    assert_eq!(partition_table.kind, PartitionTableKind::Mbr);
    assert_eq!(
        partition_table.partitions,
        vec![
            Partition {
                index: 0,
                partition_type: PartitionType::Mbr(0x0F),
                first_lba: 10,
                sector_count: 80,
                byte_offset: 10 * SECTOR_SIZE as u64,
                byte_len: 80 * SECTOR_SIZE as u64,
            },
            Partition {
                index: 4,
                partition_type: PartitionType::Mbr(0x4F),
                first_lba: 11,
                sector_count: 20,
                byte_offset: 11 * SECTOR_SIZE as u64,
                byte_len: 20 * SECTOR_SIZE as u64,
            },
            Partition {
                index: 5,
                partition_type: PartitionType::Mbr(0x4F),
                first_lba: 62,
                sector_count: 30,
                byte_offset: 62 * SECTOR_SIZE as u64,
                byte_len: 30 * SECTOR_SIZE as u64,
            },
        ]
    );
}

#[test]
fn rejects_unknown_partition_table() {
    let image = vec![0; SECTOR_SIZE * 2];

    assert!(get_all_partitions(&image).is_err());
}

#[test]
fn unknown_partition_table_reports_the_mbr_failure() {
    let image = vec![0; SECTOR_SIZE * 2];

    assert_eq!(
        get_all_partitions(&image),
        Err("failed to parse MBR partition table: invalid MBR signature".to_string())
    );
}

#[test]
fn mbr_table_lists_used_slots_numbered_from_zero() {
    let entries = [
        MbrEntry { index: 1, sys: 0x83, starting_lba: 2048, sectors: 100 },
        MbrEntry { index: 2, sys: 0, starting_lba: 7, sectors: 9 },
        MbrEntry { index: 3, sys: 0x0F, starting_lba: 4096, sectors: 200 },
        MbrEntry { index: 4, sys: 0, starting_lba: 0, sectors: 0 },
        MbrEntry { index: 5, sys: 0x4F, starting_lba: u32::MAX, sectors: u32::MAX },
    ];

    let table = partition_table_from_mbr_entries(&entries);

    assert_eq!(table.kind, PartitionTableKind::Mbr);
    assert_eq!(
        table.partitions,
        vec![
            partition(0, PartitionType::Mbr(0x83), 2048, 100),
            partition(2, PartitionType::Mbr(0x0F), 4096, 200),
            partition(4, PartitionType::Mbr(0x4F), u32::MAX as u64, u32::MAX as u64),
        ]
    );
    assert_eq!(table.partitions[2].byte_offset, 2_199_023_255_040);
}

#[test]
fn mbr_table_of_empty_slots_is_empty() {
    let entries = [MbrEntry { index: 1, sys: 0, starting_lba: 1, sectors: 1 }];

    let table = partition_table_from_mbr_entries(&entries);

    assert_eq!(table, PartitionTable { kind: PartitionTableKind::Mbr, partitions: vec![] });
}

#[test]
fn gpt_table_skips_nil_type_entries_and_converts_the_guid() {
    let entries = [unused_entry(1), basic_data_entry(2, 34, 99), unused_entry(3)];

    let table = partition_table_from_gpt_entries(&entries).expect("GPT entries should build");

    let guid = [
        0xA2, 0xA0, 0xD0, 0xEB, 0xE5, 0xB9, 0x33, 0x44, 0x87, 0xC0, 0x68, 0xB6, 0xB7, 0x26, 0x99,
        0xC7,
    ];
    assert_eq!(table.kind, PartitionTableKind::Gpt);
    assert_eq!(table.partitions, vec![partition(1, PartitionType::Gpt(guid), 34, 66)]);
}

#[test]
fn gpt_entry_number_zero_keeps_index_zero() {
    let table = partition_table_from_gpt_entries(&[basic_data_entry(0, 5, 5)]).unwrap();

    assert_eq!(table.partitions[0].index, 0);
    assert_eq!(table.partitions[0].sector_count, 1);
    assert_eq!(table.partitions[0].byte_len, 512);
}

#[test]
fn gpt_entry_ending_before_it_starts_is_refused() {
    let result = partition_table_from_gpt_entries(&[basic_data_entry(1, 10, 9)]);

    assert_eq!(
        result,
        Err("failed to calculate GPT partition length: Invalid partition.  last_lba < first_lba"
            .to_string())
    );
}

#[test]
fn gpt_entry_spanning_every_sector_is_refused() {
    let result = partition_table_from_gpt_entries(&[basic_data_entry(1, 0, u64::MAX)]);

    assert_eq!(
        result,
        Err("failed to calculate GPT partition length: partition length overflow - sectors"
            .to_string())
    );
}

#[test]
fn gpt_entry_with_unaddressable_bytes_is_refused() {
    let first = 1u64 << 60;
    let result = partition_table_from_gpt_entries(&[
        basic_data_entry(1, 34, 99),
        basic_data_entry(7, first, first),
        basic_data_entry(8, 0, 1u64 << 56),
    ]);

    assert_eq!(result, Err("partition 6 byte offset overflowed".to_string()));
}

#[test]
fn gpt_type_guid_bytes_are_in_disk_order() {
    let bytes = gpt_type_guid_to_partition_bytes(&basic_data_entry(1, 0, 0));

    assert_eq!(
        bytes,
        [
            0xA2, 0xA0, 0xD0, 0xEB, 0xE5, 0xB9, 0x33, 0x44, 0x87, 0xC0, 0x68, 0xB6, 0xB7, 0x26,
            0x99, 0xC7
        ]
    );
}

#[test]
fn build_partition_multiplies_by_the_sector_size() {
    let built = build_partition(3, PartitionType::Mbr(0x4F), 2048, 4096);

    assert_eq!(built, Ok(partition(3, PartitionType::Mbr(0x4F), 2048, 4096)));
    assert_eq!(built.unwrap().byte_offset, 1_048_576);
}

#[test]
fn build_partition_reports_offset_overflow() {
    assert_eq!(
        build_partition(3, PartitionType::Mbr(0x4F), u64::MAX / 256, 1),
        Err("partition 3 byte offset overflowed".to_string())
    );
}

#[test]
fn build_partition_reports_length_overflow() {
    assert_eq!(
        build_partition(12, PartitionType::Mbr(0x4F), 1, u64::MAX / 256),
        Err("partition 12 byte length overflowed".to_string())
    );
}

#[test]
fn build_partition_accepts_the_largest_figures() {
    let largest = u64::MAX / 512;
    let built = build_partition(0, PartitionType::Mbr(1), largest, largest).unwrap();

    assert_eq!(built.byte_offset, largest * 512);
    assert_eq!(built.byte_len, largest * 512);
}

#[test]
fn extended_mbr_types_are_recognised() {
    assert!(is_extended_mbr_partition_type(0x05));
    assert!(is_extended_mbr_partition_type(0x0F));
    assert!(is_extended_mbr_partition_type(0x85));
    assert!(!is_extended_mbr_partition_type(0x4F));
    assert!(!is_extended_mbr_partition_type(0xC5));
    assert!(!is_extended_mbr_partition_type(0x00));
}

#[test]
fn filesystem_partitions_exclude_extended_and_nil_types() {
    assert!(!is_filesystem_partition(&partition(0, PartitionType::Mbr(0x05), 1, 1)));
    assert!(!is_filesystem_partition(&partition(0, PartitionType::Mbr(0x0F), 1, 1)));
    assert!(!is_filesystem_partition(&partition(0, PartitionType::Mbr(0x85), 1, 1)));
    assert!(is_filesystem_partition(&partition(0, PartitionType::Mbr(0x4F), 1, 1)));
    assert!(!is_filesystem_partition(&partition(0, PartitionType::Gpt([0; 16]), 1, 1)));
    let mut guid = [0; 16];
    guid[15] = 1;
    assert!(is_filesystem_partition(&partition(0, PartitionType::Gpt(guid), 1, 1)));
}

#[test]
fn filesystem_partitions_keep_table_order_and_are_stable() {
    let table = PartitionTable {
        kind: PartitionTableKind::Mbr,
        partitions: vec![
            partition(0, PartitionType::Mbr(0x0F), 10, 80),
            partition(4, PartitionType::Mbr(0x4F), 11, 20),
            partition(5, PartitionType::Mbr(0x05), 60, 30),
            partition(6, PartitionType::Mbr(0x4F), 62, 30),
        ],
    };

    let kept = filesystem_partitions(&table);

    assert_eq!(
        kept,
        vec![
            partition(4, PartitionType::Mbr(0x4F), 11, 20),
            partition(6, PartitionType::Mbr(0x4F), 62, 30),
        ]
    );
    let again = filesystem_partitions(&PartitionTable { kind: table.kind, partitions: kept.clone() });
    assert_eq!(again, kept);
}

#[test]
fn every_gpt_partition_is_a_filesystem_partition() {
    let entries = [basic_data_entry(1, 34, 99), unused_entry(2), basic_data_entry(3, 100, 199)];
    let table = partition_table_from_gpt_entries(&entries).unwrap();

    assert_eq!(table.partitions.len(), 2);
    assert!(table.partitions.iter().all(is_filesystem_partition));
    assert_eq!(filesystem_partitions(&table), table.partitions);
}

#[test]
fn parsed_partitions_are_sector_aligned() {
    let mut image = vec![0; SECTOR_SIZE * 2];
    image[MBR_SIGNATURE_OFFSET..MBR_SIGNATURE_OFFSET + MBR_SIGNATURE.len()]
        .copy_from_slice(&MBR_SIGNATURE);
    write_mbr_entry(&mut image, MBR_PARTITION_TABLE_OFFSET, 0x83, 63, 1000);
    write_mbr_entry(&mut image, MBR_PARTITION_TABLE_OFFSET + 16, 0x4F, 1063, 77);

    let table = get_all_partitions(&image).unwrap();

    assert_eq!(table.partitions.len(), 2);
    for p in &table.partitions {
        assert_eq!(p.byte_offset, p.first_lba * 512);
        assert_eq!(p.byte_len, p.sector_count * 512);
    }
    assert_eq!(table.partitions[1].index, 1);
}

#[test]
fn mbr_partition_type_text_is_upper_case_hex() {
    assert_eq!(PartitionType::Mbr(0x4F).display_string(), "MBR type 0x4F");
    assert_eq!(PartitionType::Mbr(0x05).display_string(), "MBR type 0x05");
}

#[test]
fn gpt_partition_type_text_is_the_usual_guid_form() {
    let bytes = gpt_type_guid_to_partition_bytes(&basic_data_entry(1, 0, 0));

    assert_eq!(
        PartitionType::Gpt(bytes).display_string(),
        "GPT type EBD0A0A2-B9E5-4433-87C0-68B6B72699C7"
    );
}
