use bios_stage_2::error::LoadError;
use bios_stage_2::partition::{
    fat_partition, find_boot_partition, locate_fat_partition, parse_entries, parse_entry,
    PartitionTableEntry, PartitionType, BOOTLOADER_SECOND_STAGE_PARTITION_TYPE,
};

fn table_with(records: [(u8, u32, u32); 4]) -> [u8; 64] {
    let mut raw = [0u8; 64];
    for (i, (tag, lba, len)) in records.iter().enumerate() {
        raw[16 * i + 4] = *tag;
        raw[16 * i + 8..16 * i + 12].copy_from_slice(&lba.to_le_bytes());
        raw[16 * i + 12..16 * i + 16].copy_from_slice(&len.to_le_bytes());
    }
    raw
}

#[test]
fn parse_keeps_order_and_fields() {
    let raw = table_with([(0x00, 0, 0), (0x20, 1, 2047), (0x06, 2048, 0x0102_0304), (0x83, 7, 9)]);
    let entries = parse_entries(&raw);
    assert_eq!(entries[0], PartitionTableEntry::empty());
    assert_eq!(entries[1], PartitionTableEntry::new(PartitionType::Unknown(0x20), 1, 2047));
    assert_eq!(entries[2], PartitionTableEntry::new(PartitionType::Fat16(0x06), 2048, 0x0102_0304));
    assert_eq!(entries[3], PartitionTableEntry::new(PartitionType::LinuxExt(0x83), 7, 9));
    for i in 0..4 {
        assert_eq!(entries[i], parse_entry(&raw, i));
    }
}

#[test]
fn little_endian_fields_are_read_byte_by_byte() {
    let mut raw = [0u8; 64];
    raw[16 + 4] = 0x0c;
    raw[16 + 8..16 + 12].copy_from_slice(&[0x78, 0x56, 0x34, 0x12]);
    raw[16 + 12..16 + 16].copy_from_slice(&[0xef, 0xcd, 0xab, 0x89]);
    // bytes of the record that are no field of the entry
    raw[16] = 0x80;
    raw[16 + 1..16 + 4].copy_from_slice(&[1, 2, 3]);
    raw[16 + 5..16 + 8].copy_from_slice(&[4, 5, 6]);
    let entry = parse_entries(&raw)[1];
    assert_eq!(entry.partition_type, PartitionType::Fat32(0x0c));
    assert_eq!(entry.logical_block_address, 0x1234_5678);
    assert_eq!(entry.sector_count, 0x89ab_cdef);
    assert_eq!(entry.base_offset(), 0x1234_5678u64 * 512);
}

#[test]
fn every_type_byte_comes_back() {
    for tag in 0..=255u8 {
        let kind = PartitionType::from_mbr_tag_byte(tag);
        assert_eq!(kind.to_mbr_tag_byte(), tag);
        let raw = table_with([(tag, 0, 0), (0, 0, 0), (0, 0, 0), (0, 0, 0)]);
        assert_eq!(parse_entries(&raw)[0].partition_type, kind);
        let fat = matches!(tag, 0x01 | 0x04 | 0x06 | 0x0e | 0x0b | 0x0c | 0x1b | 0x1c);
        assert_eq!(kind.is_fat(), fat);
    }
}

#[test]
fn type_bytes_are_classified() {
    assert_eq!(PartitionType::from_mbr_tag_byte(0x00), PartitionType::Unused);
    assert_eq!(PartitionType::from_mbr_tag_byte(0x01), PartitionType::Fat12(0x01));
    assert_eq!(PartitionType::from_mbr_tag_byte(0x04), PartitionType::Fat16(0x04));
    assert_eq!(PartitionType::from_mbr_tag_byte(0x06), PartitionType::Fat16(0x06));
    assert_eq!(PartitionType::from_mbr_tag_byte(0x0e), PartitionType::Fat16(0x0e));
    assert_eq!(PartitionType::from_mbr_tag_byte(0x0b), PartitionType::Fat32(0x0b));
    assert_eq!(PartitionType::from_mbr_tag_byte(0x0c), PartitionType::Fat32(0x0c));
    assert_eq!(PartitionType::from_mbr_tag_byte(0x1b), PartitionType::Fat32(0x1b));
    assert_eq!(PartitionType::from_mbr_tag_byte(0x1c), PartitionType::Fat32(0x1c));
    assert_eq!(PartitionType::from_mbr_tag_byte(0x83), PartitionType::LinuxExt(0x83));
    assert_eq!(PartitionType::from_mbr_tag_byte(0x07), PartitionType::NtfsExfat(0x07));
    assert_eq!(PartitionType::from_mbr_tag_byte(0xaf), PartitionType::HfsPlus(0xaf));
    assert_eq!(PartitionType::from_mbr_tag_byte(0x20), PartitionType::Unknown(0x20));
    assert_eq!(PartitionType::from_mbr_tag_byte(0xff), PartitionType::Unknown(0xff));
    assert_eq!(PartitionType::ISO9660(0x96).to_mbr_tag_byte(), 0x96);
    assert_eq!(BOOTLOADER_SECOND_STAGE_PARTITION_TYPE, 0x20);
}

#[test]
fn first_reserved_entry_is_the_boot_partition() {
    let entries = parse_entries(&table_with([(0x06, 9, 9), (0x20, 1, 1), (0x20, 2, 2), (0x0c, 3, 3)]));
    assert_eq!(find_boot_partition(&entries), Ok(1));
    assert!(entries[1].is_boot_partition());
    assert!(!entries[0].is_boot_partition());
    let entries = parse_entries(&table_with([(0x20, 9, 9), (0x06, 1, 1), (0, 0, 0), (0, 0, 0)]));
    assert_eq!(find_boot_partition(&entries), Ok(0));
    let entries = parse_entries(&table_with([(0, 0, 0), (0, 0, 0), (0, 0, 0), (0x20, 1, 1)]));
    assert_eq!(find_boot_partition(&entries), Ok(3));
}

#[test]
fn table_without_reserved_entry_has_no_boot_partition() {
    let entries = parse_entries(&table_with([(0x06, 9, 9), (0x83, 1, 1), (0x02, 2, 2), (0x0c, 3, 3)]));
    assert_eq!(find_boot_partition(&entries), Err(LoadError::PartitionNotFound));
    assert_eq!(find_boot_partition(&parse_entries(&[0u8; 64])), Err(LoadError::PartitionNotFound));
}

#[test]
fn fat_partition_follows_the_boot_partition() {
    let entries = parse_entries(&table_with([(0x06, 9, 9), (0x20, 1, 2047), (0x06, 2048, 4096), (0, 0, 0)]));
    assert_eq!(
        fat_partition(&entries, 1),
        Ok(PartitionTableEntry::new(PartitionType::Fat16(0x06), 2048, 4096))
    );
    let entries = parse_entries(&table_with([(0x20, 1, 1), (0x01, 5, 6), (0, 0, 0), (0, 0, 0)]));
    assert_eq!(fat_partition(&entries, 0), Ok(PartitionTableEntry::new(PartitionType::Fat12(0x01), 5, 6)));
    let entries = parse_entries(&table_with([(0, 0, 0), (0, 0, 0), (0x20, 1, 1), (0x1b, 7, 8)]));
    assert_eq!(fat_partition(&entries, 2), Ok(PartitionTableEntry::new(PartitionType::Fat32(0x1b), 7, 8)));
}

#[test]
fn entry_after_the_boot_partition_must_be_fat() {
    for tag in [0x00u8, 0x07, 0x20, 0x83, 0xaf, 0x05] {
        let entries = parse_entries(&table_with([(0x20, 1, 1), (tag, 5, 6), (0x06, 7, 8), (0, 0, 0)]));
        assert_eq!(fat_partition(&entries, 0), Err(LoadError::UnexpectedPartitionType));
    }
}

#[test]
fn nothing_follows_the_last_entry() {
    let entries = parse_entries(&table_with([(0x06, 1, 1), (0x06, 5, 6), (0x06, 7, 8), (0x20, 1, 1)]));
    assert_eq!(fat_partition(&entries, 3), Err(LoadError::PartitionNotFound));
    assert_eq!(fat_partition(&entries, 17), Err(LoadError::PartitionNotFound));
}

#[test]
fn locating_does_all_three() {
    let raw = table_with([(0x00, 0, 0), (0x20, 1, 2047), (0x06, 2048, 8192), (0x00, 0, 0)]);
    assert_eq!(
        locate_fat_partition(&raw),
        Ok(PartitionTableEntry::new(PartitionType::Fat16(0x06), 2048, 8192))
    );
    let raw = table_with([(0x00, 0, 0), (0x06, 1, 2047), (0x06, 2048, 8192), (0x00, 0, 0)]);
    assert_eq!(locate_fat_partition(&raw), Err(LoadError::PartitionNotFound));
    let raw = table_with([(0x00, 0, 0), (0x06, 1, 2047), (0x06, 2048, 8192), (0x20, 0, 0)]);
    assert_eq!(locate_fat_partition(&raw), Err(LoadError::PartitionNotFound));
    let raw = table_with([(0x20, 0, 0), (0x83, 1, 2047), (0x06, 2048, 8192), (0x20, 0, 0)]);
    assert_eq!(locate_fat_partition(&raw), Err(LoadError::UnexpectedPartitionType));
}

#[test]
fn errors_have_their_codes() {
    assert_eq!(LoadError::PartitionNotFound.code(), b'P');
    assert_eq!(LoadError::UnexpectedPartitionType.code(), b'T');
    assert_eq!(LoadError::InvalidBootSector.code(), b'B');
    assert_eq!(LoadError::FileNotFound.code(), b'F');
    assert_eq!(LoadError::DiskReadError.code(), b'D');
    assert_eq!(LoadError::ClusterChainCorrupt.code(), b'C');
    assert_eq!(LoadError::HighMemoryVerificationMismatch.code(), b'M');
}
