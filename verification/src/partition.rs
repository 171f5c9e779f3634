use crate::endian::{get_u32, u32_at};
use crate::error::LoadError;
use vstd::prelude::*;

verus! {

/// The number of records in a partition table.
pub const MAX_ENTRIES: usize = 4;

/// The size of one record, in bytes.
pub const ENTRY_SIZE: usize = 16;

/// The type byte that marks the partition holding this loader's own payload.
pub const BOOTLOADER_SECOND_STAGE_PARTITION_TYPE: u8 = 0x20;

/// What a partition holds, as its type byte says. Every variant but `Unused`
/// keeps the byte it was made from.
#[derive(Clone, Copy, Debug, PartialEq, Eq, Structural)]
pub enum PartitionType {
    Unused,
    Unknown(u8),
    Fat12(u8),
    Fat16(u8),
    Fat32(u8),
    LinuxExt(u8),
    HfsPlus(u8),
    ISO9660(u8),
    NtfsExfat(u8),
}

impl PartitionType {
    /// The variant that a type byte stands for.
    pub open spec fn of_tag(tag: u8) -> PartitionType {
        if tag == 0x00 {
            PartitionType::Unused
        } else if tag == 0x01 {
            PartitionType::Fat12(tag)
        } else if tag == 0x04 || tag == 0x06 || tag == 0x0e {
            PartitionType::Fat16(tag)
        } else if tag == 0x0b || tag == 0x0c || tag == 0x1b || tag == 0x1c {
            PartitionType::Fat32(tag)
        } else if tag == 0x83 {
            PartitionType::LinuxExt(tag)
        } else if tag == 0x07 {
            PartitionType::NtfsExfat(tag)
        } else if tag == 0xaf {
            PartitionType::HfsPlus(tag)
        } else {
            PartitionType::Unknown(tag)
        }
    }

    /// The type byte that this variant keeps; `Unused` stands for zero.
    pub open spec fn tag(self) -> u8 {
        match self {
            PartitionType::Unused => 0,
            PartitionType::Unknown(t) => t,
            PartitionType::Fat12(t) => t,
            PartitionType::Fat16(t) => t,
            PartitionType::Fat32(t) => t,
            PartitionType::LinuxExt(t) => t,
            PartitionType::HfsPlus(t) => t,
            PartitionType::ISO9660(t) => t,
            PartitionType::NtfsExfat(t) => t,
        }
    }

    /// Whether this is one of the three FAT variants.
    pub open spec fn spec_is_fat(&self) -> bool {
        self is Fat12 || self is Fat16 || self is Fat32
    }

    /// Classifies a type byte.
    pub fn from_mbr_tag_byte(tag: u8) -> (r: PartitionType)
        ensures
            r == PartitionType::of_tag(tag),
            r.tag() == tag,
    {
        classify_tag(tag)
    }

    /// The type byte of this variant.
    pub fn to_mbr_tag_byte(&self) -> (t: u8)
        ensures
            t == self.tag(),
    {
        match *self {
            PartitionType::Unused => 0,
            PartitionType::Unknown(t) => t,
            PartitionType::Fat12(t) => t,
            PartitionType::Fat16(t) => t,
            PartitionType::Fat32(t) => t,
            PartitionType::LinuxExt(t) => t,
            PartitionType::HfsPlus(t) => t,
            PartitionType::ISO9660(t) => t,
            PartitionType::NtfsExfat(t) => t,
        }
    }

    /// Whether this is one of the three FAT variants.
    #[verifier::when_used_as_spec(spec_is_fat)]
    pub fn is_fat(&self) -> (b: bool)
        ensures
            b == self.spec_is_fat(),
    {
        match *self {
            PartitionType::Fat12(_) | PartitionType::Fat16(_) | PartitionType::Fat32(_) => true,
            _ => false,
        }
    }
}

/// Calls `mbr_nostd::PartitionType::from_mbr_tag_byte` and writes its result
/// in this crate's enum, variant for variant. Trusted: the variant is claimed
/// to be the one that the table of `of_tag` gives, which is the table in that
/// function's source.
#[verifier::external_body]
fn classify_tag(tag: u8) -> (r: PartitionType)
    ensures
        r == PartitionType::of_tag(tag),
{
    match mbr_nostd::PartitionType::from_mbr_tag_byte(tag) {
        mbr_nostd::PartitionType::Unused => PartitionType::Unused,
        mbr_nostd::PartitionType::Unknown(t) => PartitionType::Unknown(t),
        mbr_nostd::PartitionType::Fat12(t) => PartitionType::Fat12(t),
        mbr_nostd::PartitionType::Fat16(t) => PartitionType::Fat16(t),
        mbr_nostd::PartitionType::Fat32(t) => PartitionType::Fat32(t),
        mbr_nostd::PartitionType::LinuxExt(t) => PartitionType::LinuxExt(t),
        mbr_nostd::PartitionType::HfsPlus(t) => PartitionType::HfsPlus(t),
        mbr_nostd::PartitionType::ISO9660(t) => PartitionType::ISO9660(t),
        mbr_nostd::PartitionType::NtfsExfat(t) => PartitionType::NtfsExfat(t),
    }
}

/// One record of the partition table.
#[derive(Clone, Copy, Debug, PartialEq, Eq, Structural)]
pub struct PartitionTableEntry {
    /// What the partition holds.
    pub partition_type: PartitionType,
    /// The first sector of the partition.
    pub logical_block_address: u32,
    /// The number of sectors in the partition.
    pub sector_count: u32,
}

impl PartitionTableEntry {
    /// The entry that record `idx` of the raw table `raw` spells: the type byte
    /// at offset 4 of the record, the first sector at offset 8 and the sector
    /// count at offset 12, both little-endian.
    pub open spec fn decode(raw: Seq<u8>, idx: int) -> PartitionTableEntry {
        PartitionTableEntry {
            partition_type: PartitionType::of_tag(raw[16 * idx + 4]),
            logical_block_address: u32_at(raw, 16 * idx + 8) as u32,
            sector_count: u32_at(raw, 16 * idx + 12) as u32,
        }
    }

    /// Whether this entry carries the reserved type byte of the loader's own
    /// partition.
    pub open spec fn spec_is_boot_partition(&self) -> bool {
        self.partition_type == PartitionType::Unknown(BOOTLOADER_SECOND_STAGE_PARTITION_TYPE)
    }

    /// The entry of these three values.
    pub fn new(partition_type: PartitionType, logical_block_address: u32, sector_count: u32) -> (e:
        PartitionTableEntry)
        ensures
            e == (PartitionTableEntry { partition_type, logical_block_address, sector_count }),
    {
        PartitionTableEntry { partition_type, logical_block_address, sector_count }
    }

    /// An unused entry of no sectors.
    pub fn empty() -> (e: PartitionTableEntry)
        ensures
            e == (PartitionTableEntry {
                partition_type: PartitionType::Unused,
                logical_block_address: 0,
                sector_count: 0,
            }),
    {
        PartitionTableEntry::new(PartitionType::Unused, 0, 0)
    }

    /// Whether this entry carries the reserved type byte of the loader's own
    /// partition.
    #[verifier::when_used_as_spec(spec_is_boot_partition)]
    pub fn is_boot_partition(&self) -> (b: bool)
        ensures
            b == self.spec_is_boot_partition(),
    {
        match self.partition_type {
            PartitionType::Unknown(t) => t == BOOTLOADER_SECOND_STAGE_PARTITION_TYPE,
            _ => false,
        }
    }

    /// The byte offset on the disk at which the partition starts.
    pub fn base_offset(&self) -> (offset: u64)
        ensures
            offset == self.logical_block_address * 512,
    {
        self.logical_block_address as u64 * 512
    }
}

/// Decodes record `idx` of a raw partition table.
pub fn parse_entry(raw: &[u8; 64], idx: usize) -> (e: PartitionTableEntry)
    requires
        idx < MAX_ENTRIES,
    ensures
        e == PartitionTableEntry::decode(raw@, idx as int),
        e.partition_type.tag() == raw@[16 * idx + 4],
        e.logical_block_address == u32_at(raw@, 16 * idx + 8),
        e.sector_count == u32_at(raw@, 16 * idx + 12),
{
    let offset = idx * ENTRY_SIZE;
    let bytes = raw.as_slice();
    let partition_type = PartitionType::from_mbr_tag_byte(raw[offset + 4]);
    let lba = get_u32(bytes, offset + 8);
    let len = get_u32(bytes, offset + 12);
    PartitionTableEntry::new(partition_type, lba, len)
}

/// Decodes the four records of a raw partition table, in their order. Nothing
/// is validated: every table of 64 bytes decodes.
pub fn parse_entries(raw: &[u8; 64]) -> (entries: [PartitionTableEntry; 4])
    ensures
        forall|i: int|
            0 <= i < 4 ==> {
                &&& #[trigger] entries@[i] == PartitionTableEntry::decode(raw@, i)
                &&& entries@[i].partition_type.tag() == raw@[16 * i + 4]
                &&& entries@[i].logical_block_address == u32_at(raw@, 16 * i + 8)
                &&& entries@[i].sector_count == u32_at(raw@, 16 * i + 12)
            },
{
    [parse_entry(raw, 0), parse_entry(raw, 1), parse_entry(raw, 2), parse_entry(raw, 3)]
}

/// The index of the first of the four entries that carries the reserved type
/// byte, or `PartitionNotFound` where none does.
pub open spec fn spec_find_boot_partition(entries: Seq<PartitionTableEntry>) -> Result<
    usize,
    LoadError,
> {
    if entries[0].spec_is_boot_partition() {
        Ok(0)
    } else if entries[1].spec_is_boot_partition() {
        Ok(1)
    } else if entries[2].spec_is_boot_partition() {
        Ok(2)
    } else if entries[3].spec_is_boot_partition() {
        Ok(3)
    } else {
        Err(LoadError::PartitionNotFound)
    }
}

/// Finds the loader's own partition: the first entry that carries the reserved
/// type byte. Fails with `PartitionNotFound` exactly when no entry does.
pub fn find_boot_partition(entries: &[PartitionTableEntry; 4]) -> (r: Result<usize, LoadError>)
    ensures
        r == spec_find_boot_partition(entries@),
        match r {
            Ok(idx) => {
                &&& idx < 4
                &&& entries@[idx as int].spec_is_boot_partition()
                &&& forall|j: int| 0 <= j < idx ==> !(#[trigger] entries@[j]).spec_is_boot_partition()
            },
            Err(e) => {
                &&& e == LoadError::PartitionNotFound
                &&& forall|j: int| 0 <= j < 4 ==> !(#[trigger] entries@[j]).spec_is_boot_partition()
            },
        },
{
    let mut idx: usize = 0;
    while idx < MAX_ENTRIES
        invariant
            idx <= 4,
            forall|j: int| 0 <= j < idx ==> !(#[trigger] entries@[j]).spec_is_boot_partition(),
        decreases 4 - idx,
    {
        if entries[idx].is_boot_partition() {
            return Ok(idx);
        }
        idx += 1;
    }
    Err(LoadError::PartitionNotFound)
}

/// The partition that the images are loaded from: the entry right after the
/// loader's own, which has to be a FAT partition.
///
/// Fails with `PartitionNotFound` when the loader's partition is the last
/// entry, and with `UnexpectedPartitionType` when the entry after it is not
/// FAT12, FAT16 or FAT32.
pub fn fat_partition(entries: &[PartitionTableEntry; 4], boot_idx: usize) -> (r: Result<
    PartitionTableEntry,
    LoadError,
>)
    ensures
        r == spec_fat_partition(entries@, boot_idx as int),
{
    if boot_idx >= MAX_ENTRIES - 1 {
        return Err(LoadError::PartitionNotFound);
    }
    let entry = entries[boot_idx + 1];
    if entry.partition_type.is_fat() {
        Ok(entry)
    } else {
        Err(LoadError::UnexpectedPartitionType)
    }
}

/// What `fat_partition` returns for the table `entries` and the index
/// `boot_idx` of the loader's own partition.
pub open spec fn spec_fat_partition(entries: Seq<PartitionTableEntry>, boot_idx: int) -> Result<
    PartitionTableEntry,
    LoadError,
> {
    if boot_idx + 1 >= entries.len() {
        Err(LoadError::PartitionNotFound)
    } else if entries[boot_idx + 1].partition_type.spec_is_fat() {
        Ok(entries[boot_idx + 1])
    } else {
        Err(LoadError::UnexpectedPartitionType)
    }
}

/// The four entries that a raw partition table spells.
pub open spec fn spec_parse_entries(raw: Seq<u8>) -> Seq<PartitionTableEntry> {
    Seq::new(4, |i: int| PartitionTableEntry::decode(raw, i))
}

/// What `locate_fat_partition` returns for a raw partition table.
pub open spec fn spec_locate_fat_partition(raw: Seq<u8>) -> Result<PartitionTableEntry, LoadError> {
    match spec_find_boot_partition(spec_parse_entries(raw)) {
        Ok(idx) => spec_fat_partition(spec_parse_entries(raw), idx as int),
        Err(e) => Err(e),
    }
}

/// Decodes a raw partition table and finds the FAT partition in it: the
/// entry right after the first one that carries the reserved type byte.
///
/// Fails with `PartitionNotFound` when no entry carries the reserved type
/// byte or the one that does is the last, and with `UnexpectedPartitionType`
/// when the entry after it is not FAT12, FAT16 or FAT32.
pub fn locate_fat_partition(raw: &[u8; 64]) -> (r: Result<PartitionTableEntry, LoadError>)
    ensures
        r == spec_locate_fat_partition(raw@),
        r matches Ok(entry) ==> entry.partition_type.spec_is_fat(),
{
    let entries = parse_entries(raw);
    assert(entries@ =~= spec_parse_entries(raw@));
    match find_boot_partition(&entries) {
        Ok(idx) => fat_partition(&entries, idx),
        Err(e) => Err(e),
    }
}

} // verus!
