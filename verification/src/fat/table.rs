use crate::endian::{get_u16, get_u32, u16_at, u32_at};
use crate::error::LoadError;
use crate::fat::volume::{FatType, FileSystem};
use vstd::prelude::*;

verus! {

/// What a table value says about the chain it belongs to.
#[derive(Clone, Copy, Debug, PartialEq, Eq, Structural)]
pub enum FileFatEntry {
    /// The chain goes on with this cluster.
    AllocatedCluster(u32),
    /// The chain ends here.
    EndOfFile,
}

impl FatType {
    /// The number of bytes that have to be read to decode one table entry.
    pub open spec fn spec_entry_width(self) -> int {
        match self {
            FatType::Fat12 => 2,
            FatType::Fat16 => 2,
            FatType::Fat32 => 4,
        }
    }

    /// Where the bytes of the entry of cluster `n` start, counted from the
    /// start of the table. FAT12 packs two entries into three bytes.
    pub open spec fn spec_entry_offset(self, n: int) -> int {
        match self {
            FatType::Fat12 => n + n / 2,
            FatType::Fat16 => 2 * n,
            FatType::Fat32 => 4 * n,
        }
    }

    /// The entry of cluster `n`, given the table bytes from that entry's
    /// offset on.
    ///
    /// FAT12: the two bytes spell a sixteen-bit number; the entry of an even
    /// cluster is its low twelve bits, that of an odd cluster its high
    /// twelve. FAT16: the sixteen-bit number itself. FAT32: the low
    /// twenty-eight bits of the thirty-two-bit number.
    pub open spec fn spec_decode_entry(self, n: int, bytes: Seq<u8>) -> int {
        match self {
            FatType::Fat12 => if n % 2 == 0 {
                u16_at(bytes, 0) % 0x1000
            } else {
                u16_at(bytes, 0) / 0x10
            },
            FatType::Fat16 => u16_at(bytes, 0),
            FatType::Fat32 => u32_at(bytes, 0) % 0x1000_0000,
        }
    }

    /// What the table value `entry` means on a volume whose highest cluster
    /// is `maximum_valid_cluster`: a cluster from 2 to the highest continues
    /// the chain, a value above the mark for defective clusters ends it, and
    /// everything else (free, reserved, defective) has no place in a chain.
    pub open spec fn spec_classify(self, entry: u32, maximum_valid_cluster: u32) -> Result<
        FileFatEntry,
        LoadError,
    > {
        if entry < 2 {
            Err(LoadError::ClusterChainCorrupt)
        } else if entry <= maximum_valid_cluster {
            Ok(FileFatEntry::AllocatedCluster(entry))
        } else if entry <= self.spec_defective() {
            Err(LoadError::ClusterChainCorrupt)
        } else {
            Ok(FileFatEntry::EndOfFile)
        }
    }

    /// The number of bytes that have to be read to decode one table entry.
    pub fn entry_width(self) -> (width: usize)
        ensures
            width == self.spec_entry_width(),
    {
        match self {
            FatType::Fat12 => 2,
            FatType::Fat16 => 2,
            FatType::Fat32 => 4,
        }
    }

    /// Where the bytes of the entry of cluster `n` start, counted from the
    /// start of the table.
    pub fn entry_offset(self, n: u32) -> (offset: u64)
        ensures
            offset == self.spec_entry_offset(n as int),
    {
        match self {
            FatType::Fat12 => n as u64 + n as u64 / 2,
            FatType::Fat16 => n as u64 * 2,
            FatType::Fat32 => n as u64 * 4,
        }
    }

    /// Decodes the entry of cluster `n` from the table bytes that start at
    /// that entry's offset.
    pub fn decode_entry(self, n: u32, bytes: &[u8]) -> (entry: u32)
        requires
            bytes@.len() >= self.spec_entry_width(),
        ensures
            entry == self.spec_decode_entry(n as int, bytes@),
    {
        match self {
            FatType::Fat12 => {
                let entry16 = get_u16(bytes, 0);
                if n & 1 == 0 {
                    assert(n & 1 == 0 ==> n % 2 == 0) by (bit_vector);
                    assert(entry16 & 0xfff == entry16 % 0x1000) by (bit_vector);
                    (entry16 & 0xfff) as u32
                } else {
                    assert(n & 1 != 0 ==> n % 2 == 1) by (bit_vector);
                    assert(entry16 >> 4 == entry16 / 0x10) by (bit_vector);
                    (entry16 >> 4) as u32
                }
            },
            FatType::Fat16 => get_u16(bytes, 0) as u32,
            FatType::Fat32 => {
                let entry32 = get_u32(bytes, 0);
                assert(entry32 & 0x0fff_ffff == entry32 % 0x1000_0000) by (bit_vector);
                entry32 & 0x0fff_ffff
            },
        }
    }

    /// Says what a table value means for a chain.
    pub fn classify_fat_entry(self, entry: u32, maximum_valid_cluster: u32) -> (r: Result<
        FileFatEntry,
        LoadError,
    >)
        ensures
            r == self.spec_classify(entry, maximum_valid_cluster),
    {
        if entry < 2 {
            Err(LoadError::ClusterChainCorrupt)
        } else if entry <= maximum_valid_cluster {
            Ok(FileFatEntry::AllocatedCluster(entry))
        } else if entry <= self.fat_entry_defective() {
            Err(LoadError::ClusterChainCorrupt)
        } else {
            Ok(FileFatEntry::EndOfFile)
        }
    }
}

/// A FAT12 entry is the low or the high twelve bits of the twenty-four that
/// its three-byte pair holds: with `pair` the three bytes that clusters `k`
/// and `k + 1` share, `k` even, the even one is the low twelve bits of their
/// little-endian number and the odd one the high twelve.
pub proof fn lemma_fat12_pairs(table: Seq<u8>, k: int)
    requires
        0 <= k,
        k % 2 == 0,
        FatType::Fat12.spec_entry_offset(k) + 3 <= table.len(),
    ensures
        ({
            let at = FatType::Fat12.spec_entry_offset(k);
            let pair = table[at] + 0x100 * table[at + 1] + 0x1_0000 * table[at + 2];
            &&& at == 3 * (k / 2)
            &&& FatType::Fat12.spec_entry_offset(k + 1) == at + 1
            &&& FatType::Fat12.spec_decode_entry(k, table.subrange(at, table.len() as int)) == pair
                % 0x1000
            &&& FatType::Fat12.spec_decode_entry(k + 1, table.subrange(at + 1, table.len() as int))
                == pair / 0x1000
        }),
{
    let at = FatType::Fat12.spec_entry_offset(k);
    let b0 = table[at] as int;
    let b1 = table[at + 1] as int;
    let b2 = table[at + 2] as int;
    assert((b0 + 0x100 * b1 + 0x1_0000 * b2) % 0x1000 == (b0 + 0x100 * b1) % 0x1000) by {
        assert(b0 + 0x100 * b1 + 0x1_0000 * b2 == 0x1000 * (16 * b2) + (b0 + 0x100 * b1));
        vstd::arithmetic::div_mod::lemma_mod_multiples_vanish(16 * b2, b0 + 0x100 * b1, 0x1000);
    }
    assert((b0 + 0x100 * b1 + 0x1_0000 * b2) / 0x1000 == (b1 + 0x100 * b2) / 0x10) by {
        let x = b0 + 0x100 * b1 + 0x1_0000 * b2;
        let y = b1 + 0x100 * b2;
        assert(x == 0x100 * y + b0);
        assert(x / 0x1000 == y / 0x10) by (nonlinear_arith)
            requires
                x == 0x100 * y + b0,
                0 <= b0 < 0x100,
                0 <= y,
        ;
    }
}

impl FileSystem {
    /// Where the table entry of cluster `n` starts, in bytes from the start
    /// of the volume.
    pub open spec fn spec_fat_entry_offset(&self, n: int) -> int {
        self.spec_fat_offset() + self.spec_fat_type().spec_entry_offset(n)
    }

    /// The table value of cluster `n`, as the bytes `volume` of the volume
    /// give it.
    pub open spec fn spec_fat_entry(&self, volume: Seq<u8>, n: int) -> int {
        self.spec_fat_type().spec_decode_entry(
            n,
            volume.subrange(
                self.spec_fat_entry_offset(n),
                self.spec_fat_entry_offset(n) + self.spec_fat_type().spec_entry_width(),
            ),
        )
    }

    /// The table entry of every cluster of the volume lies inside the
    /// volume.
    pub proof fn lemma_table_inside(&self, n: int)
        requires
            self.wf(),
            0 <= n <= self.spec_maximum_valid_cluster(),
        ensures
            0 <= self.spec_fat_entry_offset(n),
            self.spec_fat_entry_offset(n) + self.spec_fat_type().spec_entry_width()
                <= self.spec_volume_size(),
    {
        self.lemma_bounds();
        let count = self.spec_count_of_clusters();
        let size = self.spec_bytes_per_cluster();
        let bps = self.bytes_per_sector as int;
        // an entry takes at most four bytes, and a cluster at least 512
        assert(4 * count <= count * size) by (nonlinear_arith)
            requires
                count >= 0,
                size >= 512,
        ;
        // the first table alone takes at least one sector
        let tables = self.fat_count * self.sectors_per_fat;
        assert((self.reserved_sectors + tables) * bps >= self.reserved_sectors * bps + 512)
            by (nonlinear_arith)
            requires
                tables >= 1,
                bps >= 512,
                self.reserved_sectors >= 0,
        ;
    }

    /// Where the table entry of cluster `n` starts, in bytes from the start
    /// of the volume.
    pub fn fat_entry_offset(&self, n: u32) -> (offset: u64)
        requires
            self.wf(),
        ensures
            offset == self.spec_fat_entry_offset(n as int),
    {
        proof {
            self.lemma_bounds();
        }
        let fat_type = self.fat_type();
        self.fat_offset() + fat_type.entry_offset(n)
    }
}

} // verus!
