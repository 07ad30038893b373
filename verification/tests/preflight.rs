use std::io::Cursor;

use qnx6::parser::partitions::{
    get_all_partitions, gpt_type_guid_to_partition_bytes, GptEntry, PartitionTableKind,
    PartitionType,
};
use qnx6::parser::preflight::{check_gpt_openable, check_mbr_readable, crc32};

const SECTOR: usize = 512;

fn write_entry(image: &mut [u8], sector: usize, slot: usize, sys: u8, start: u32, sectors: u32) {
    let offset = sector * SECTOR + 446 + 16 * slot;
    image[offset + 4] = sys;
    image[offset + 8..offset + 12].copy_from_slice(&start.to_le_bytes());
    image[offset + 12..offset + 16].copy_from_slice(&sectors.to_le_bytes());
}

fn sign(image: &mut [u8], sector: usize) {
    image[sector * SECTOR + 510] = 0x55;
    image[sector * SECTOR + 511] = 0xAA;
}

fn gpt_image() -> Vec<u8> {
    let total_bytes = 1024 * 1024;
    let mut image = Cursor::new(vec![0; total_bytes]);
    gpt::mbr::ProtectiveMBR::with_lb_size(((total_bytes / SECTOR) - 1) as u32)
        .overwrite_lba0(&mut image)
        .expect("protective MBR should be writable");
    let mut disk = gpt::GptConfig::new()
        .writable(true)
        .logical_block_size(gpt::disk::LogicalBlockSize::Lb512)
        .create_from_device(image, None)
        .expect("GPT should be creatable");
    disk.add_partition("qnx6", 66 * SECTOR as u64, gpt::partition_types::BASIC, 0, None)
        .expect("GPT partition should be addable");
    disk.write().expect("GPT should be writable").into_inner()
}

fn header_checksum(image: &[u8], offset: usize) -> u32 {
    let mut header = image[offset..offset + 92].to_vec();
    header[16..20].copy_from_slice(&[0; 4]);
    crc32(&header)
}

#[test]
fn crc32_of_the_check_string() {
    assert_eq!(crc32(b"123456789"), 0xCBF4_3926);
    assert_eq!(crc32(b""), 0);
}

#[test]
fn crc32_matches_the_gpt_headers_gpt_writes() {
    let image = gpt_image();
    let stored = u32::from_le_bytes(image[512 + 16..512 + 20].try_into().unwrap());

    assert_eq!(header_checksum(&image, 512), stored);
    assert_eq!(check_gpt_openable(&image), Ok(()));
}

#[test]
fn gpt_header_with_other_entry_size_is_not_handed_to_gpt() {
    let mut image = gpt_image();
    image[512 + 84..512 + 88].copy_from_slice(&64u32.to_le_bytes());
    let checksum = header_checksum(&image, 512);
    image[512 + 16..512 + 20].copy_from_slice(&checksum.to_le_bytes());

    assert_eq!(
        check_gpt_openable(&image),
        Err("the header declares partition entries that are not 128 bytes".to_string())
    );
    let table = get_all_partitions(&image).expect("the protective MBR still parses");
    assert_eq!(table.kind, PartitionTableKind::Mbr);
    assert_eq!(table.partitions[0].partition_type, PartitionType::Mbr(0xEE));
    assert_eq!(table.partitions[0].first_lba, 1);
}

#[test]
fn gpt_header_with_bad_checksum_is_ignored_by_the_check() {
    let mut image = gpt_image();
    image[512 + 84..512 + 88].copy_from_slice(&64u32.to_le_bytes());

    assert_eq!(check_gpt_openable(&image), Ok(()));
}

#[test]
fn mbr_whose_used_partitions_all_start_at_zero_is_refused() {
    let mut image = vec![0; SECTOR * 2];
    sign(&mut image, 0);
    write_entry(&mut image, 0, 0, 0x4F, 0, 10);

    assert_eq!(
        check_mbr_readable(&image),
        Err("every used partition starts at sector 0".to_string())
    );
    assert_eq!(
        get_all_partitions(&image),
        Err("failed to parse MBR partition table: every used partition starts at sector 0"
            .to_string())
    );
}

#[test]
fn mbr_with_one_partition_at_sector_one_parses() {
    let mut image = vec![0; SECTOR * 2];
    sign(&mut image, 0);
    write_entry(&mut image, 0, 0, 0x4F, 1, 1);

    assert_eq!(check_mbr_readable(&image), Ok(()));
    assert_eq!(get_all_partitions(&image).unwrap().partitions.len(), 1);
}

#[test]
fn logical_start_past_32_bits_is_refused() {
    let mut image = vec![0; SECTOR * 20];
    sign(&mut image, 0);
    write_entry(&mut image, 0, 0, 0x0F, 10, 10);
    sign(&mut image, 10);
    write_entry(&mut image, 10, 0, 0x4F, u32::MAX - 5, 1);

    assert_eq!(
        check_mbr_readable(&image),
        Err("a logical partition's start sector does not fit in 32 bits".to_string())
    );
    assert_eq!(
        get_all_partitions(&image),
        Err(
            "failed to parse MBR partition table: a logical partition's start sector does not fit in 32 bits"
                .to_string()
        )
    );
}

#[test]
fn overflow_further_down_the_chain_is_refused() {
    let mut image = vec![0; SECTOR * 40];
    sign(&mut image, 0);
    write_entry(&mut image, 0, 0, 0x05, 10, 30);
    sign(&mut image, 10);
    write_entry(&mut image, 10, 0, 0x4F, 1, 5);
    write_entry(&mut image, 10, 1, 0x05, 20, 10);
    sign(&mut image, 30);
    write_entry(&mut image, 30, 0, 0x4F, u32::MAX - 29, 1);

    assert!(check_mbr_readable(&image).is_err());
}

#[test]
fn chain_that_ends_before_a_large_start_is_read() {
    let mut image = vec![0; SECTOR * 40];
    sign(&mut image, 0);
    write_entry(&mut image, 0, 0, 0x05, 10, 30);
    sign(&mut image, 10);
    write_entry(&mut image, 10, 0, 0x4F, 1, 5);
    // Sector 30 is not a valid boot record, so mbrman never reads its entries.
    write_entry(&mut image, 30, 0, 0x4F, u32::MAX, 1);

    assert_eq!(check_mbr_readable(&image), Ok(()));
    let table = get_all_partitions(&image).unwrap();
    assert_eq!(table.partitions.len(), 2);
    assert_eq!(table.partitions[1].index, 4);
    assert_eq!(table.partitions[1].first_lba, 11);
}

#[test]
fn short_or_unsigned_images_go_to_mbrman() {
    assert_eq!(check_mbr_readable(&[0; 100]), Ok(()));
    assert_eq!(check_mbr_readable(&[0; 1024]), Ok(()));
    assert_eq!(check_gpt_openable(&[0; 100]), Ok(()));
}

#[test]
fn gpt_type_text_is_the_guid_hyphenated_text() {
    let guid = gpt::partition_types::BASIC.guid;
    let (d1, d2, d3, d4) = guid.as_fields();
    let entry = GptEntry {
        index: 1,
        type_d1: d1,
        type_d2: d2,
        type_d3: d3,
        type_d4: *d4,
        first_lba: 0,
        last_lba: 0,
    };
    let bytes = gpt_type_guid_to_partition_bytes(&entry);

    assert_eq!(
        PartitionType::Gpt(bytes).display_string(),
        format!("GPT type {}", guid.hyphenated().to_string().to_uppercase())
    );
}

#[test]
fn chain_error_after_zero_starts_is_mbrmans_error() {
    let mut image = vec![0; SECTOR * 2];
    sign(&mut image, 0);
    write_entry(&mut image, 0, 0, 0x05, 0, 0);
    write_entry(&mut image, 0, 1, 0x00, 5, 0);

    assert_eq!(check_mbr_readable(&image), Ok(()));
    assert_eq!(
        get_all_partitions(&image),
        Err("failed to parse MBR partition table: deserialization failed".to_string())
    );
}

#[test]
fn zero_primary_starts_with_a_later_logical_start_parse() {
    let mut image = vec![0; SECTOR * 8];
    sign(&mut image, 0);
    write_entry(&mut image, 0, 0, 0x05, 0, 0);
    write_entry(&mut image, 0, 1, 0x00, 3, 0);
    sign(&mut image, 3);
    write_entry(&mut image, 3, 0, 0x4F, 3, 2);

    assert_eq!(check_mbr_readable(&image), Ok(()));
    let table = get_all_partitions(&image).expect("mbrman reads this chain");
    assert_eq!(table.kind, PartitionTableKind::Mbr);
    assert_eq!(table.partitions.len(), 3);
    assert_eq!(table.partitions[0].index, 0);
    assert_eq!(table.partitions[2].index, 5);
    assert_eq!(table.partitions[2].first_lba, 6);
}

#[test]
fn chain_of_only_zero_starts_is_refused() {
    let mut image = vec![0; SECTOR * 2];
    sign(&mut image, 0);
    write_entry(&mut image, 0, 0, 0x05, 0, 0);

    assert_eq!(
        check_mbr_readable(&image),
        Err("every used partition starts at sector 0".to_string())
    );
}

#[test]
fn primary_slots_keep_their_numbers() {
    let mut image = vec![0; SECTOR * 2];
    sign(&mut image, 0);
    write_entry(&mut image, 0, 1, 0x83, 100, 50);
    write_entry(&mut image, 0, 3, 0x4F, 200, 60);

    let table = get_all_partitions(&image).unwrap();

    assert_eq!(table.partitions.len(), 2);
    assert_eq!(table.partitions[0].index, 1);
    assert_eq!(table.partitions[0].first_lba, 100);
    assert_eq!(table.partitions[1].index, 3);
    assert_eq!(table.partitions[1].sector_count, 60);
}
