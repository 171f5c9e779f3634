use bios_stage_2::error::LoadError;
use bios_stage_2::fat::chain::{ClusterExtent, ExtentWalk, WalkState, WalkStep};
use bios_stage_2::fat::directory::{is_in_use, scan_directory, upper, DirectoryEntry, ShortName};
use bios_stage_2::fat::table::FileFatEntry;
use bios_stage_2::fat::volume::{FatType, FileSystem};

fn boot_sector_16(total: u16) -> Vec<u8> {
    let mut sector = vec![0u8; 512];
    sector[11..13].copy_from_slice(&512u16.to_le_bytes());
    sector[13] = 4;
    sector[14..16].copy_from_slice(&1u16.to_le_bytes());
    sector[16] = 2;
    sector[17..19].copy_from_slice(&512u16.to_le_bytes());
    sector[19..21].copy_from_slice(&total.to_le_bytes());
    sector[22..24].copy_from_slice(&32u16.to_le_bytes());
    sector
}

#[test]
fn boot_sector_fields_are_read() {
    let mut sector = boot_sector_16(40_000);
    // what a FAT32 layout would hold in these places is not looked at
    sector[32..36].copy_from_slice(&77u32.to_le_bytes());
    sector[36..40].copy_from_slice(&88u32.to_le_bytes());
    sector[44..48].copy_from_slice(&99u32.to_le_bytes());
    let fs = FileSystem::parse(&sector).unwrap();
    assert_eq!(
        fs,
        FileSystem {
            bytes_per_sector: 512,
            sectors_per_cluster: 4,
            reserved_sectors: 1,
            fat_count: 2,
            sectors_per_fat: 32,
            root_entry_count: 512,
            root_cluster: 0,
            total_sectors: 40_000,
        }
    );
    assert!(fs.is_well_formed());
}

#[test]
fn geometry_follows_from_the_fields() {
    let fs = FileSystem::parse(&boot_sector_16(40_000)).unwrap();
    // 1 reserved + 2 * 32 table + 32 root directory sectors lie before the data
    assert_eq!(fs.fat_offset(), 512);
    assert_eq!(fs.root_directory_offset(), 65 * 512);
    assert_eq!(fs.root_directory_size(), 512 * 32);
    assert_eq!(fs.data_offset(), 97 * 512);
    assert_eq!(fs.bytes_per_cluster(), 2048);
    // (40000 - 97) / 4 = 9975 clusters
    assert_eq!(fs.count_of_clusters(), 9975);
    assert_eq!(fs.maximum_valid_cluster(), 9976);
    assert_eq!(fs.fat_type(), FatType::Fat16);
    assert_eq!(fs.cluster_offset(2), 97 * 512);
    assert_eq!(fs.cluster_offset(3), 97 * 512 + 2048);
    assert_eq!(fs.cluster_offset(9976), 97 * 512 + 9974 * 2048);
    assert_eq!(fs.fat_entry_offset(2), 512 + 4);
    assert_eq!(fs.fat_entry_offset(1000), 512 + 2000);
}

#[test]
fn cluster_count_decides_the_table_format() {
    // 97 sectors before the data, 4 per cluster
    let below = FileSystem::parse(&boot_sector_16(97 + 4 * 4084)).unwrap();
    assert_eq!(below.count_of_clusters(), 4084);
    assert_eq!(below.fat_type(), FatType::Fat12);
    assert_eq!(below.fat_entry_offset(3), 512 + 4);
    let at = FileSystem::parse(&boot_sector_16(97 + 4 * 4085)).unwrap();
    assert_eq!(at.fat_type(), FatType::Fat16);
    let mut sector = boot_sector_16(0);
    sector[13] = 1;
    sector[17..19].copy_from_slice(&0u16.to_le_bytes());
    sector[22..24].copy_from_slice(&0u16.to_le_bytes());
    sector[36..40].copy_from_slice(&600u32.to_le_bytes());
    sector[44..48].copy_from_slice(&2u32.to_le_bytes());
    sector[32..36].copy_from_slice(&(1 + 1200 + 65_524u32).to_le_bytes());
    let fat16 = FileSystem::parse(&sector).unwrap();
    assert_eq!(fat16.count_of_clusters(), 65_524);
    assert_eq!(fat16.fat_type(), FatType::Fat16);
    sector[32..36].copy_from_slice(&(1 + 1200 + 65_525u32).to_le_bytes());
    let fat32 = FileSystem::parse(&sector).unwrap();
    assert_eq!(fat32.count_of_clusters(), 65_525);
    assert_eq!(fat32.fat_type(), FatType::Fat32);
    assert_eq!(fat32.sectors_per_fat, 600);
    assert_eq!(fat32.root_cluster, 2);
    assert_eq!(fat32.root_directory_size(), 0);
    assert_eq!(fat32.data_offset(), 1201 * 512);
    assert_eq!(fat32.fat_entry_offset(5), 512 + 20);
}

#[test]
fn root_directory_is_rounded_up_to_sectors() {
    let mut sector = boot_sector_16(40_000);
    sector[17..19].copy_from_slice(&17u16.to_le_bytes());
    let fs = FileSystem::parse(&sector).unwrap();
    assert_eq!(fs.root_directory_size(), 17 * 32);
    // 544 bytes take two sectors
    assert_eq!(fs.data_offset(), (65 + 2) * 512);
}

#[test]
fn boot_sectors_that_do_not_add_up_are_refused() {
    let good = boot_sector_16(40_000);
    assert!(FileSystem::parse(&good).is_ok());
    assert_eq!(FileSystem::parse(&good[..511]), Err(LoadError::InvalidBootSector));
    assert_eq!(FileSystem::parse(&[]), Err(LoadError::InvalidBootSector));
    let spoil = |at: usize, bytes: &[u8]| {
        let mut sector = good.clone();
        sector[at..at + bytes.len()].copy_from_slice(bytes);
        FileSystem::parse(&sector)
    };
    // bytes per sector: zero, below 512, no multiple of 512
    assert_eq!(spoil(11, &[0, 0]), Err(LoadError::InvalidBootSector));
    assert_eq!(spoil(11, &256u16.to_le_bytes()), Err(LoadError::InvalidBootSector));
    assert_eq!(spoil(11, &513u16.to_le_bytes()), Err(LoadError::InvalidBootSector));
    assert!(spoil(11, &4096u16.to_le_bytes()).is_ok());
    // no sector in a cluster, no table, no sector in a table
    assert_eq!(spoil(13, &[0]), Err(LoadError::InvalidBootSector));
    assert_eq!(spoil(16, &[0]), Err(LoadError::InvalidBootSector));
    assert_eq!(spoil(22, &[0, 0]), Err(LoadError::InvalidBootSector));
    // fewer sectors than lie before the data
    assert_eq!(spoil(19, &96u16.to_le_bytes()), Err(LoadError::InvalidBootSector));
    assert!(spoil(19, &97u16.to_le_bytes()).is_ok());
    assert_eq!(spoil(19, &[0, 0]), Err(LoadError::InvalidBootSector));
    assert_eq!(FileSystem::parse(&[0u8; 512]), Err(LoadError::InvalidBootSector));
}

#[test]
fn thirty_two_bit_total_counts_when_the_sixteen_bit_one_is_zero() {
    let mut sector = boot_sector_16(0);
    sector[32..36].copy_from_slice(&100_000u32.to_le_bytes());
    let fs = FileSystem::parse(&sector).unwrap();
    assert_eq!(fs.total_sectors, 100_000);
    assert_eq!(fs.sectors_per_fat, 32);
    sector[19..21].copy_from_slice(&50_000u16.to_le_bytes());
    assert_eq!(FileSystem::parse(&sector).unwrap().total_sectors, 50_000);
}

/// Twelve-bit entries 0xff0, 0xfff, 0x003, 0x004, 0x005, 0xfff, 0x007, 0xabc, 0x123, 0xfff
/// packed two to three bytes.
const FAT12_TABLE: [u8; 15] =
    [0xf0, 0xff, 0xff, 0x03, 0x40, 0x00, 0x05, 0xf0, 0xff, 0x07, 0xc0, 0xab, 0x23, 0xf1, 0xff];

#[test]
fn fat12_entries_are_unpacked() {
    let expected = [0xff0u32, 0xfff, 0x003, 0x004, 0x005, 0xfff, 0x007, 0xabc, 0x123, 0xfff];
    for (k, value) in expected.iter().enumerate() {
        let at = FatType::Fat12.entry_offset(k as u32) as usize;
        assert_eq!(at, k + k / 2);
        assert_eq!(FatType::Fat12.decode_entry(k as u32, &FAT12_TABLE[at..]), *value);
        assert_eq!(FatType::Fat12.decode_entry(k as u32, &FAT12_TABLE[at..at + 2]), *value);
    }
    assert_eq!(FatType::Fat12.entry_width(), 2);
}

#[test]
fn fat12_even_entry_is_low_and_odd_entry_is_high() {
    // the three bytes spell 0xabc123: low twelve bits 0x123, high twelve bits 0xabc
    let pair = [0x23u8, 0xc1, 0xab];
    assert_eq!(FatType::Fat12.decode_entry(0, &pair[0..]), 0x123);
    assert_eq!(FatType::Fat12.decode_entry(1, &pair[1..]), 0xabc);
    assert_eq!(FatType::Fat12.decode_entry(6, &pair[0..]), 0x123);
    assert_eq!(FatType::Fat12.decode_entry(7, &pair[1..]), 0xabc);
}

#[test]
fn fat16_and_fat32_entries_are_plain_numbers() {
    let bytes = [0x34u8, 0x12, 0xcd, 0xfb];
    assert_eq!(FatType::Fat16.decode_entry(5, &bytes), 0x1234);
    assert_eq!(FatType::Fat16.decode_entry(6, &bytes[2..]), 0xfbcd);
    assert_eq!(FatType::Fat16.entry_offset(6), 12);
    assert_eq!(FatType::Fat16.entry_width(), 2);
    // only the low 28 bits count
    assert_eq!(FatType::Fat32.decode_entry(5, &bytes), 0x0bcd_1234);
    assert_eq!(FatType::Fat32.decode_entry(5, &[0xff, 0xff, 0xff, 0xff]), 0x0fff_ffff);
    assert_eq!(FatType::Fat32.entry_offset(6), 24);
    assert_eq!(FatType::Fat32.entry_width(), 4);
}

#[test]
fn table_values_are_classified() {
    let corrupt = Err(LoadError::ClusterChainCorrupt);
    let fat = FatType::Fat16;
    assert_eq!(fat.classify_fat_entry(0, 100), corrupt);
    assert_eq!(fat.classify_fat_entry(1, 100), corrupt);
    assert_eq!(fat.classify_fat_entry(2, 100), Ok(FileFatEntry::AllocatedCluster(2)));
    assert_eq!(fat.classify_fat_entry(100, 100), Ok(FileFatEntry::AllocatedCluster(100)));
    assert_eq!(fat.classify_fat_entry(101, 100), corrupt);
    assert_eq!(fat.classify_fat_entry(0xfff6, 100), corrupt);
    assert_eq!(fat.classify_fat_entry(0xfff7, 100), corrupt);
    assert_eq!(fat.classify_fat_entry(0xfff8, 100), Ok(FileFatEntry::EndOfFile));
    assert_eq!(fat.classify_fat_entry(0xffff, 100), Ok(FileFatEntry::EndOfFile));
    assert_eq!(FatType::Fat12.classify_fat_entry(0xff7, 100), corrupt);
    assert_eq!(FatType::Fat12.classify_fat_entry(0xff8, 100), Ok(FileFatEntry::EndOfFile));
    assert_eq!(FatType::Fat32.classify_fat_entry(0x0fff_fff7, 100), corrupt);
    assert_eq!(FatType::Fat32.classify_fat_entry(0x0fff_fff8, 100), Ok(FileFatEntry::EndOfFile));
    assert_eq!(FatType::Fat12.fat_entry_defective(), 0xff7);
    assert_eq!(FatType::Fat16.fat_entry_defective(), 0xfff7);
    assert_eq!(FatType::Fat32.fat_entry_defective(), 0x0fff_fff7);
}

#[test]
fn names_are_stored_in_upper_case_and_padded() {
    assert_eq!(ShortName::new("kernel.elf").unwrap().bytes, *b"KERNEL  ELF");
    assert_eq!(ShortName::new("STAGE3.BIN").unwrap().bytes, *b"STAGE3  BIN");
    assert_eq!(ShortName::new("a").unwrap().bytes, *b"A          ");
    assert_eq!(ShortName::new("boot-s~1").unwrap().bytes, *b"BOOT-S~1   ");
    assert_eq!(ShortName::new("12345678.123").unwrap().bytes, *b"12345678123");
    assert_eq!(ShortName::new("readme.").unwrap().bytes, *b"README     ");
    assert_eq!(ShortName::new("x.y").unwrap().bytes, *b"X       Y  ");
    assert_eq!(ShortName::encode(b"Mixed.cAsE"), None);
    assert_eq!(ShortName::encode(b"Mixed.cAs").unwrap().bytes, *b"MIXED   CAS");
    assert_eq!(ShortName::encode(&[0xe9, b'.', 0x80]).unwrap().bytes, [0xe9, 32, 32, 32, 32, 32, 32, 32, 0x80, 32, 32]);
}

#[test]
fn names_that_do_not_fit_are_refused() {
    for name in ["", ".", ".txt", "123456789", "123456789.txt", "a.text", "a.b.c", "a..", "boot-stage-3", "kernel-x86_64"] {
        assert!(ShortName::new(name).is_none(), "{}", name);
    }
}

#[test]
fn upper_folds_ascii_letters_only() {
    assert_eq!(upper(b'a'), b'A');
    assert_eq!(upper(b'z'), b'Z');
    assert_eq!(upper(b'A'), b'A');
    assert_eq!(upper(b'`'), b'`');
    assert_eq!(upper(b'{'), b'{');
    assert_eq!(upper(b'5'), b'5');
    assert_eq!(upper(0xe4), 0xe4);
}

fn record(name: &[u8; 11], attributes: u8, first_cluster: u32, size: u32) -> [u8; 32] {
    let mut raw = [0u8; 32];
    raw[..11].copy_from_slice(name);
    raw[11] = attributes;
    raw[20..22].copy_from_slice(&((first_cluster >> 16) as u16).to_le_bytes());
    raw[26..28].copy_from_slice(&(first_cluster as u16).to_le_bytes());
    raw[28..32].copy_from_slice(&size.to_le_bytes());
    raw
}

#[test]
fn record_fields_are_read() {
    let raw = record(b"KERNEL  ELF", 0x20, 0x0012_3456, 0x89ab_cdef);
    let entry = DirectoryEntry::parse(&raw);
    assert_eq!(entry.name, *b"KERNEL  ELF");
    assert_eq!(entry.first_cluster, 0x0012_3456);
    assert_eq!(entry.size_bytes, 0x89ab_cdef);
}

#[test]
fn records_that_stand_for_no_file_are_passed_over() {
    let name = ShortName::new("KERNEL.ELF").unwrap();
    let mut directory = Vec::new();
    let mut deleted = record(b"KERNEL  ELF", 0x20, 10, 100);
    deleted[0] = 0xe5;
    directory.extend_from_slice(&deleted);
    let mut free = record(b"KERNEL  ELF", 0x20, 11, 110);
    free[0] = 0x00;
    directory.extend_from_slice(&free);
    directory.extend_from_slice(&record(b"KERNEL  ELF", 0x08, 12, 120));
    directory.extend_from_slice(&record(b"KERNEL  ELF", 0x0f, 13, 130));
    directory.extend_from_slice(&record(b"KERNEL  ELF", 0x28, 14, 140));
    directory.extend_from_slice(&record(b"KERNEL  BIN", 0x20, 15, 150));
    assert!(scan_directory(&directory, &name).is_none());
    directory.extend_from_slice(&record(b"KERNEL  ELF", 0x21, 16, 160));
    directory.extend_from_slice(&record(b"KERNEL  ELF", 0x20, 17, 170));
    let found = scan_directory(&directory, &name).unwrap();
    assert_eq!((found.first_cluster, found.size_bytes), (16, 160));
    for (i, in_use) in [false, false, false, false, false, true, true, true].iter().enumerate() {
        assert_eq!(is_in_use(&directory[32 * i..32 * i + 32]), *in_use, "record {}", i);
    }
}

#[test]
fn search_goes_on_behind_a_free_record() {
    let name = ShortName::new("b.txt").unwrap();
    let mut directory = Vec::new();
    directory.extend_from_slice(&record(b"A       TXT", 0x20, 2, 1));
    directory.extend_from_slice(&[0u8; 32]);
    directory.extend_from_slice(&record(b"B       TXT", 0x20, 3, 2));
    assert_eq!(scan_directory(&directory, &name).unwrap().first_cluster, 3);
}

#[test]
fn names_match_whatever_the_case() {
    let directory = record(b"KeRnEl  eLf", 0x20, 9, 9);
    assert!(scan_directory(&directory, &ShortName::new("kernel.ELF").unwrap()).is_some());
    assert!(ShortName::new("Kernel.elf").unwrap().matches(&directory));
    assert!(!ShortName::new("Kernel.el").unwrap().matches(&directory));
    assert!(!ShortName::new("Kerne.elf").unwrap().matches(&directory));
}

#[test]
fn half_a_record_is_not_looked_at() {
    let name = ShortName::new("A.TXT").unwrap();
    let raw = record(b"A       TXT", 0x20, 2, 1);
    assert!(scan_directory(&raw[..31], &name).is_none());
    assert!(scan_directory(&raw, &name).is_some());
    assert!(scan_directory(&[], &name).is_none());
    let mut two = vec![0u8; 32];
    two.extend_from_slice(&raw[..20]);
    assert!(scan_directory(&two, &name).is_none());
}

fn small_volume() -> FileSystem {
    FileSystem::parse(&boot_sector_16(97 + 4 * 10)).unwrap()
}

#[test]
fn walk_hands_out_one_extent_per_cluster() {
    let fs = small_volume();
    assert_eq!(fs.fat_type(), FatType::Fat12);
    let entry = DirectoryEntry { name: *b"A       TXT", first_cluster: 5, size_bytes: 5000 };
    let mut walk = fs.file_clusters(&entry);
    assert_eq!(walk, ExtentWalk { state: WalkState::At(5), remaining: 5000, visited: 0 });
    let data = 97 * 512;
    assert_eq!(walk.next(&fs), WalkStep::Extent(ClusterExtent { start_offset: data + 3 * 2048, len_bytes: 2048 }));
    // the entry of cluster 5 lies at byte 7 of the table
    assert_eq!(walk.next(&fs), WalkStep::ReadTable { offset: 512 + 7, len: 2 });
    assert_eq!(walk.next(&fs), WalkStep::ReadTable { offset: 512 + 7, len: 2 });
    walk.supply(&fs, &[0x90, 0x00]);
    assert_eq!(walk.state, WalkState::At(9));
    assert_eq!(walk.next(&fs), WalkStep::Extent(ClusterExtent { start_offset: data + 7 * 2048, len_bytes: 2048 }));
    assert_eq!(walk.next(&fs), WalkStep::ReadTable { offset: 512 + 13, len: 2 });
    walk.supply(&fs, &[0x2f, 0x00]);
    assert_eq!(walk.state, WalkState::At(2));
    assert_eq!(walk.next(&fs), WalkStep::Extent(ClusterExtent { start_offset: data, len_bytes: 904 }));
    assert_eq!(walk.next(&fs), WalkStep::Finished);
    assert_eq!(walk.next(&fs), WalkStep::Finished);
    assert_eq!(walk, ExtentWalk { state: WalkState::Finished, remaining: 0, visited: 3 });
}

#[test]
fn walk_ends_at_an_end_mark() {
    let fs = small_volume();
    let entry = DirectoryEntry { name: *b"A       TXT", first_cluster: 11, size_bytes: 5000 };
    let mut walk = fs.file_clusters(&entry);
    assert!(matches!(walk.next(&fs), WalkStep::Extent(_)));
    assert!(matches!(walk.next(&fs), WalkStep::ReadTable { .. }));
    // cluster 11 is odd: its entry is the high twelve bits
    walk.supply(&fs, &[0x8f, 0xff]);
    assert_eq!(walk.state, WalkState::At(0xff8));
    assert_eq!(walk.next(&fs), WalkStep::Finished);
}

#[test]
fn walk_fails_on_numbers_that_are_no_cluster() {
    let fs = small_volume();
    assert_eq!(fs.maximum_valid_cluster(), 11);
    for first in [0u32, 1, 12, 0xff0 - 1, 0xff7] {
        let entry = DirectoryEntry { name: *b"A       TXT", first_cluster: first, size_bytes: 1 };
        let mut walk = fs.file_clusters(&entry);
        assert_eq!(walk.next(&fs), WalkStep::Failed(LoadError::ClusterChainCorrupt), "{}", first);
        assert_eq!(walk.next(&fs), WalkStep::Failed(LoadError::ClusterChainCorrupt));
    }
}

#[test]
fn walk_fails_when_it_is_handed_too_few_bytes() {
    let fs = small_volume();
    let entry = DirectoryEntry { name: *b"A       TXT", first_cluster: 5, size_bytes: 5000 };
    let mut walk = fs.file_clusters(&entry);
    walk.supply(&fs, &[1]);
    assert_eq!(walk.state, WalkState::At(5));
    assert!(matches!(walk.next(&fs), WalkStep::Extent(_)));
    walk.supply(&fs, &[1]);
    assert_eq!(walk.next(&fs), WalkStep::Failed(LoadError::DiskReadError));
}

#[test]
fn fixed_root_directory_is_one_extent() {
    let fs = small_volume();
    let mut walk = fs.root_directory();
    assert_eq!(
        walk.next(&fs),
        WalkStep::Extent(ClusterExtent { start_offset: 65 * 512, len_bytes: 512 * 32 })
    );
    assert_eq!(walk.next(&fs), WalkStep::Finished);
}

/// A FAT12 volume of ten clusters of 2048 bytes in memory, with the table entries given.
fn image(table: &[(u32, u32)], records: &[[u8; 32]]) -> (FileSystem, Vec<u8>) {
    let sector = boot_sector_16(97 + 4 * 10);
    let fs = FileSystem::parse(&sector).unwrap();
    let mut volume = vec![0u8; (97 + 4 * 10) * 512];
    volume[..512].copy_from_slice(&sector);
    for (cluster, value) in table {
        let at = 512 + (*cluster + *cluster / 2) as usize;
        if cluster % 2 == 0 {
            volume[at] = *value as u8;
            volume[at + 1] = (volume[at + 1] & 0xf0) | (*value >> 8) as u8;
        } else {
            volume[at] = (volume[at] & 0x0f) | ((*value & 0xf) << 4) as u8;
            volume[at + 1] = (*value >> 4) as u8;
        }
    }
    for (i, raw) in records.iter().enumerate() {
        volume[65 * 512 + 32 * i..65 * 512 + 32 * i + 32].copy_from_slice(raw);
    }
    (fs, volume)
}

#[test]
fn file_is_found_in_a_volume_in_memory() {
    let (fs, volume) = image(&[], &[record(b"A       TXT", 0x20, 2, 1), record(b"B       TXT", 0x20, 3, 2)]);
    let found = fs.find_file_in_root_dir(&volume, &ShortName::new("b.txt").unwrap()).unwrap();
    assert_eq!((found.name, found.first_cluster, found.size_bytes), (*b"B       TXT", 3, 2));
    assert_eq!(
        fs.find_file_in_root_dir(&volume, &ShortName::new("c.txt").unwrap()).err(),
        Some(LoadError::FileNotFound)
    );
    assert_eq!(
        fs.find_file_in_root_dir(&volume[..65 * 512 + 64], &ShortName::new("a.txt").unwrap()).err(),
        Some(LoadError::DiskReadError)
    );
}

#[test]
fn extents_are_collected_from_a_volume_in_memory() {
    let (fs, volume) = image(&[(5, 9), (9, 2), (2, 0xfff)], &[]);
    let entry = DirectoryEntry { name: *b"A       TXT", first_cluster: 5, size_bytes: 5000 };
    let data = 97 * 512;
    assert_eq!(
        fs.file_extents(&volume, &entry),
        Ok(vec![
            ClusterExtent { start_offset: data + 3 * 2048, len_bytes: 2048 },
            ClusterExtent { start_offset: data + 7 * 2048, len_bytes: 2048 },
            ClusterExtent { start_offset: data, len_bytes: 904 },
        ])
    );
    let whole = DirectoryEntry { name: *b"A       TXT", first_cluster: 5, size_bytes: 3 * 2048 };
    assert_eq!(fs.file_extents(&volume, &whole).unwrap().len(), 3);
    let more = DirectoryEntry { name: *b"A       TXT", first_cluster: 5, size_bytes: 3 * 2048 + 1 };
    assert_eq!(fs.file_extents(&volume, &more).unwrap().len(), 3);
    let none = DirectoryEntry { name: *b"A       TXT", first_cluster: 0, size_bytes: 0 };
    assert_eq!(fs.file_extents(&volume, &none), Ok(vec![]));
}

#[test]
fn circular_chain_in_memory_is_corrupt() {
    let (fs, volume) = image(&[(5, 9), (9, 5)], &[]);
    let entry = DirectoryEntry { name: *b"A       TXT", first_cluster: 5, size_bytes: 10 * 2048 + 1 };
    assert_eq!(fs.file_extents(&volume, &entry), Err(LoadError::ClusterChainCorrupt));
    // with no more bytes wanted than the volume holds, the walk ends when it has them
    let entry = DirectoryEntry { name: *b"A       TXT", first_cluster: 5, size_bytes: 10 * 2048 };
    assert_eq!(fs.file_extents(&volume, &entry).unwrap().len(), 10);
    let (fs, volume) = image(&[(5, 9), (9, 0)], &[]);
    assert_eq!(fs.file_extents(&volume, &entry), Err(LoadError::ClusterChainCorrupt));
    assert_eq!(fs.file_extents(&volume[..512 + 7], &entry), Err(LoadError::DiskReadError));
}
