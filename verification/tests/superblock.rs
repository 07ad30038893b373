use qnx6::parser::superblock::{
    format_uuid, read_array, read_u16_le, read_u32_le, read_u64_le, RootNode, SuperBlock,
    SUPERBLOCK_MIN_LEN, SUPERBLOCK_SIZE,
};

fn sample_superblock_bytes() -> Vec<u8> {
    let mut data = vec![0; SUPERBLOCK_SIZE];
    data[0..4].copy_from_slice(&0x6819_1122_u32.to_le_bytes());
    data[4..8].copy_from_slice(&0xAABB_CCDD_u32.to_le_bytes());
    data[8..16].copy_from_slice(&7_u64.to_le_bytes());
    data[16..20].copy_from_slice(&1_u32.to_le_bytes());
    data[20..24].copy_from_slice(&2_u32.to_le_bytes());
    data[24..28].copy_from_slice(&3_u32.to_le_bytes());
    data[28..30].copy_from_slice(&4_u16.to_le_bytes());
    data[30..32].copy_from_slice(&5_u16.to_le_bytes());
    data[32..48].copy_from_slice(&[
        0x00, 0x01, 0x02, 0x03, 0x04, 0x05, 0x06, 0x07, 0x08, 0x09, 0x0A, 0x0B, 0x0C, 0x0D, 0x0E,
        0x0F,
    ]);
    data[48..52].copy_from_slice(&4096_u32.to_le_bytes());
    data[52..56].copy_from_slice(&10_u32.to_le_bytes());
    data[56..60].copy_from_slice(&8_u32.to_le_bytes());
    data[60..64].copy_from_slice(&20_u32.to_le_bytes());
    data[64..68].copy_from_slice(&18_u32.to_le_bytes());
    data[68..72].copy_from_slice(&2_u32.to_le_bytes());
    data
}

#[test]
fn parses_superblock_header() {
    let data = sample_superblock_bytes();

    let superblock = SuperBlock::parse(&data).expect("superblock should parse");

    assert_eq!(superblock.magic, 0x6819_1122);
    assert_eq!(superblock.volumeid, "00010203-0405-0607-0809-0a0b0c0d0e0f");
    assert_eq!(superblock.block_size, 4096);
    assert_eq!(superblock.num_of_inodes, 10);
    assert_eq!(superblock.num_of_blocks, 20);
}

#[test]
fn parses_every_superblock_field() {
    let mut data = sample_superblock_bytes();
    for (i, byte) in data[72..312].iter_mut().enumerate() {
        *byte = i as u8;
    }

    let superblock = SuperBlock::parse(&data).unwrap();

    assert_eq!(superblock.checksum, 0xAABB_CCDD);
    assert_eq!(superblock.serial, 7);
    assert_eq!(superblock.c_time, 1);
    assert_eq!(superblock.a_time, 2);
    assert_eq!(superblock.flags, 3);
    assert_eq!(superblock.version1, 4);
    assert_eq!(superblock.version2, 5);
    assert_eq!(superblock.free_inodes, 8);
    assert_eq!(superblock.free_blocks, 18);
    assert_eq!(superblock.alloc_groups, 2);
    assert_eq!(superblock.root_node_inode.raw[..], data[72..152]);
    assert_eq!(superblock.root_node_bitmap.raw[..], data[152..232]);
    assert_eq!(superblock.root_node_longfilename.raw[..], data[232..312]);
}

#[test]
fn superblock_of_exactly_minimum_length_parses() {
    let data = sample_superblock_bytes();

    let full = SuperBlock::parse(&data).unwrap();
    let short = SuperBlock::parse(&data[..SUPERBLOCK_MIN_LEN]).unwrap();

    assert_eq!(full, short);
}

#[test]
fn superblock_ignores_bytes_past_its_root_nodes() {
    let data = sample_superblock_bytes();
    let mut other = data.clone();
    for byte in other[SUPERBLOCK_MIN_LEN..].iter_mut() {
        *byte = 0xFF;
    }

    assert_eq!(SuperBlock::parse(&data), SuperBlock::parse(&other));
}

#[test]
fn short_superblock_is_refused() {
    let data = sample_superblock_bytes();

    assert_eq!(
        SuperBlock::parse(&data[..311]),
        Err("superblock data is too small: expected at least 312 bytes, got 311".to_string())
    );
    assert_eq!(
        SuperBlock::parse(&[]),
        Err("superblock data is too small: expected at least 312 bytes, got 0".to_string())
    );
}

#[test]
fn superblock_summary_text() {
    let superblock = SuperBlock::parse(&sample_superblock_bytes()).unwrap();

    assert_eq!(
        superblock.display_string(),
        "<SuperBlock magic=0x68191122, volumeid=00010203-0405-0607-0809-0a0b0c0d0e0f, serial=7, block_size=4096, inodes=10, blocks=20>"
    );
}

#[test]
fn little_endian_reads() {
    let data = [0x01, 0x02, 0x03, 0x04, 0x05, 0x06, 0x07, 0x08, 0x09];

    assert_eq!(read_u16_le(&data, 1), Ok(0x0302));
    assert_eq!(read_u32_le(&data, 0), Ok(0x0403_0201));
    assert_eq!(read_u64_le(&data, 1), Ok(0x0908_0706_0504_0302));
    assert_eq!(read_array::<3>(&data, 6), Ok([0x07, 0x08, 0x09]));
}

#[test]
fn reads_past_the_end_are_refused() {
    let data = [0u8; 32];

    assert_eq!(
        read_u32_le(&data[..3], 0),
        Err("expected 4 bytes at superblock offset 0x0".to_string())
    );
    assert_eq!(
        read_u16_le(&data, 0x1f),
        Err("expected 2 bytes at superblock offset 0x1f".to_string())
    );
    assert_eq!(
        read_u64_le(&data, 0x2a),
        Err("expected 8 bytes at superblock offset 0x2a".to_string())
    );
    assert_eq!(
        read_array::<16>(&data, 17),
        Err("expected 16 bytes at superblock offset 0x11".to_string())
    );
}

#[test]
fn root_node_needs_exactly_its_size() {
    let bytes: Vec<u8> = (0..80).collect();

    assert_eq!(RootNode::parse(&bytes).unwrap().raw[..], bytes[..]);
    assert_eq!(RootNode::parse(&bytes[..79]), Err("root node must be 80 bytes".to_string()));
    assert_eq!(RootNode::parse(&[0; 81]), Err("root node must be 80 bytes".to_string()));
}

#[test]
fn volume_id_text_is_lower_case_and_dashed() {
    let text = format_uuid([
        0xDE, 0xAD, 0xBE, 0xEF, 0x00, 0x01, 0xA0, 0x0B, 0xC2, 0x3D, 0xFF, 0xEE, 0x10, 0x20, 0x30,
        0x40,
    ]);

    assert_eq!(text, "deadbeef-0001-a00b-c23d-ffee10203040");
    assert_eq!(text.len(), 36);
}

#[test]
fn volume_id_text_reads_back_to_its_bytes() {
    let bytes = [
        0xDE, 0xAD, 0xBE, 0xEF, 0x00, 0x01, 0xA0, 0x0B, 0xC2, 0x3D, 0xFF, 0xEE, 0x10, 0x20, 0x30,
        0x40,
    ];
    let digits = format_uuid(bytes).replace('-', "");

    for (i, byte) in bytes.iter().enumerate() {
        assert_eq!(u8::from_str_radix(&digits[2 * i..2 * i + 2], 16), Ok(*byte));
    }
}
