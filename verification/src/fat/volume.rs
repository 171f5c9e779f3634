use crate::endian::{get_u16, get_u32, u16_at, u32_at};
use crate::error::LoadError;
use vstd::arithmetic::div_mod::{lemma_fundamental_div_mod, lemma_div_pos_is_pos};
use vstd::arithmetic::mul::{lemma_mul_inequality, lemma_mul_upper_bound};
use vstd::prelude::*;

verus! {

/// The size of a boot sector, in bytes.
pub const BOOT_SECTOR_SIZE: usize = 512;

/// Which of the three table formats a volume uses. The number of its clusters
/// decides.
#[derive(Clone, Copy, Debug, PartialEq, Eq, Structural)]
pub enum FatType {
    Fat12,
    Fat16,
    Fat32,
}

impl FatType {
    /// The table value that marks a defective cluster. Every value above it
    /// ends a chain.
    pub open spec fn spec_defective(self) -> u32 {
        match self {
            FatType::Fat12 => 0xff7,
            FatType::Fat16 => 0xfff7,
            FatType::Fat32 => 0x0fff_fff7,
        }
    }

    /// The table value that marks a defective cluster. Every value above it
    /// ends a chain.
    #[verifier::when_used_as_spec(spec_defective)]
    pub fn fat_entry_defective(self) -> (v: u32)
        ensures
            v == self.spec_defective(),
    {
        match self {
            FatType::Fat12 => 0xff7,
            FatType::Fat16 => 0xfff7,
            FatType::Fat32 => 0x0fff_fff7,
        }
    }

    /// The format of a volume of `count` clusters.
    pub open spec fn of_cluster_count(count: int) -> FatType {
        if count < 4085 {
            FatType::Fat12
        } else if count < 65525 {
            FatType::Fat16
        } else {
            FatType::Fat32
        }
    }
}

/// The geometry of a FAT volume, as its boot sector gives it. Nothing else is
/// kept: every question is answered from these numbers and from bytes read
/// afresh.
#[derive(Clone, Copy, Debug, PartialEq, Eq, Structural)]
pub struct FileSystem {
    pub bytes_per_sector: u16,
    pub sectors_per_cluster: u8,
    /// Sectors before the first table.
    pub reserved_sectors: u16,
    /// Number of copies of the table.
    pub fat_count: u8,
    /// Sectors that one copy of the table takes.
    pub sectors_per_fat: u32,
    /// Entries in the fixed root directory; zero on FAT32.
    pub root_entry_count: u16,
    /// First cluster of the root directory on FAT32; zero otherwise.
    pub root_cluster: u32,
    /// Sectors in the whole volume.
    pub total_sectors: u32,
}

impl FileSystem {
    /// The geometry that the fields of a boot sector spell. The sixteen-bit
    /// fields for the table size and the sector total win over their
    /// thirty-two-bit fellows when they are not zero; the root cluster is
    /// read only where the sixteen-bit table size is zero.
    pub open spec fn decode(sector: Seq<u8>) -> FileSystem {
        FileSystem {
            bytes_per_sector: u16_at(sector, 11) as u16,
            sectors_per_cluster: sector[13],
            reserved_sectors: u16_at(sector, 14) as u16,
            fat_count: sector[16],
            sectors_per_fat: if u16_at(sector, 22) != 0 {
                u16_at(sector, 22) as u32
            } else {
                u32_at(sector, 36) as u32
            },
            root_entry_count: u16_at(sector, 17) as u16,
            root_cluster: if u16_at(sector, 22) != 0 {
                0
            } else {
                u32_at(sector, 44) as u32
            },
            total_sectors: if u16_at(sector, 19) != 0 {
                u16_at(sector, 19) as u32
            } else {
                u32_at(sector, 32) as u32
            },
        }
    }

    /// Sectors that the fixed root directory takes, rounded up.
    pub open spec fn spec_root_directory_sectors(&self) -> int {
        (self.root_entry_count * 32 + self.bytes_per_sector - 1) / (self.bytes_per_sector as int)
    }

    /// The first sector of the data region: what lies behind the reserved
    /// sectors, the tables and the fixed root directory.
    pub open spec fn spec_first_data_sector(&self) -> int {
        self.reserved_sectors + self.fat_count * self.sectors_per_fat
            + self.spec_root_directory_sectors()
    }

    /// The number of whole clusters in the data region.
    pub open spec fn spec_count_of_clusters(&self) -> int {
        (self.total_sectors - self.spec_first_data_sector()) / (self.sectors_per_cluster as int)
    }

    /// The geometry adds up: sectors are a multiple of 512 bytes, a cluster
    /// has at least one sector, there is at least one table of at least one
    /// sector, the data region starts inside the volume, and the highest
    /// cluster number lies below the values that mark defective clusters and
    /// chain ends.
    pub open spec fn wf(&self) -> bool {
        &&& self.bytes_per_sector >= 512
        &&& self.bytes_per_sector % 512 == 0
        &&& self.sectors_per_cluster >= 1
        &&& self.fat_count >= 1
        &&& self.sectors_per_fat >= 1
        &&& self.spec_first_data_sector() <= self.total_sectors
        &&& self.spec_count_of_clusters() + 1 < 0x0fff_fff7
    }

    /// The table format of the volume.
    pub open spec fn spec_fat_type(&self) -> FatType {
        FatType::of_cluster_count(self.spec_count_of_clusters())
    }

    /// The highest cluster number of the volume: clusters are numbered from 2.
    pub open spec fn spec_maximum_valid_cluster(&self) -> int {
        self.spec_count_of_clusters() + 1
    }

    /// The size of a cluster, in bytes.
    pub open spec fn spec_bytes_per_cluster(&self) -> int {
        self.bytes_per_sector * self.sectors_per_cluster
    }

    /// Where the first table starts, in bytes from the start of the volume.
    pub open spec fn spec_fat_offset(&self) -> int {
        self.reserved_sectors * self.bytes_per_sector
    }

    /// Where the fixed root directory starts, in bytes from the start of the
    /// volume.
    pub open spec fn spec_root_directory_offset(&self) -> int {
        (self.reserved_sectors + self.fat_count * self.sectors_per_fat) * self.bytes_per_sector
    }

    /// The size of the fixed root directory, in bytes.
    pub open spec fn spec_root_directory_size(&self) -> int {
        self.root_entry_count * 32
    }

    /// Where the data region starts, in bytes from the start of the volume.
    pub open spec fn spec_data_offset(&self) -> int {
        self.spec_first_data_sector() * self.bytes_per_sector
    }

    /// Where cluster `cluster` starts, in bytes from the start of the volume.
    pub open spec fn spec_cluster_offset(&self, cluster: int) -> int {
        self.spec_data_offset() + (cluster - 2) * self.spec_bytes_per_cluster()
    }

    /// The size of the volume, in bytes.
    pub open spec fn spec_volume_size(&self) -> int {
        self.total_sectors * self.bytes_per_sector
    }

    /// What the numbers of a well-formed geometry are bounded by. In
    /// particular every cluster from 2 to the highest lies inside the volume.
    pub proof fn lemma_bounds(&self)
        requires
            self.wf(),
        ensures
            0 <= self.spec_root_directory_sectors() <= 4096,
            1 <= self.fat_count * self.sectors_per_fat <= 255 * 0xffff_ffff,
            0 < self.spec_first_data_sector() <= self.total_sectors,
            0 <= self.spec_count_of_clusters() <= self.total_sectors,
            self.spec_count_of_clusters() * self.sectors_per_cluster <= self.total_sectors
                - self.spec_first_data_sector(),
            512 <= self.spec_bytes_per_cluster() <= 0xffff * 0xff,
            0 <= self.spec_fat_offset() <= self.spec_root_directory_offset(),
            self.spec_root_directory_offset() + self.spec_root_directory_size()
                <= self.spec_data_offset(),
            self.spec_data_offset() + self.spec_count_of_clusters() * self.spec_bytes_per_cluster()
                <= self.spec_volume_size(),
            self.spec_volume_size() <= 0xffff_ffff * 0xffff,
    {
        let bps = self.bytes_per_sector as int;
        let spc = self.sectors_per_cluster as int;
        let rec = self.root_entry_count as int;
        let rds = self.spec_root_directory_sectors();
        let fds = self.spec_first_data_sector();
        let count = self.spec_count_of_clusters();
        let total = self.total_sectors as int;
        lemma_fundamental_div_mod(rec * 32 + bps - 1, bps);
        lemma_div_pos_is_pos(rec * 32 + bps - 1, bps);
        assert(rds <= 4096) by (nonlinear_arith)
            requires
                rds == (rec * 32 + bps - 1) / bps,
                0 <= rec <= 0xffff,
                bps >= 512,
        ;
        assert(rds * bps >= rec * 32) by (nonlinear_arith)
            requires
                rec * 32 + bps - 1 == bps * rds + (rec * 32 + bps - 1) % bps,
                0 <= (rec * 32 + bps - 1) % bps < bps,
        ;
        lemma_mul_upper_bound(self.fat_count as int, 255, self.sectors_per_fat as int, 0xffff_ffff);
        assert(self.fat_count * self.sectors_per_fat >= 1) by (nonlinear_arith)
            requires
                self.fat_count >= 1,
                self.sectors_per_fat >= 1,
        ;
        lemma_fundamental_div_mod(total - fds, spc);
        lemma_div_pos_is_pos(total - fds, spc);
        assert(count * spc <= total - fds) by (nonlinear_arith)
            requires
                total - fds == spc * count + (total - fds) % spc,
                0 <= (total - fds) % spc,
        ;
        assert(count <= total) by (nonlinear_arith)
            requires
                count * spc <= total - fds,
                spc >= 1,
                fds >= 0,
                count >= 0,
        ;
        lemma_mul_upper_bound(bps, 0xffff, spc, 0xff);
        assert(bps * spc >= 512) by (nonlinear_arith)
            requires
                bps >= 512,
                spc >= 1,
        ;
        let tables = self.fat_count * self.sectors_per_fat;
        assert(self.reserved_sectors * bps <= (self.reserved_sectors + tables) * bps)
            by (nonlinear_arith)
            requires
                tables >= 0,
                bps >= 0,
        ;
        assert((self.reserved_sectors + tables) * bps + rec * 32 <= fds * bps) by (nonlinear_arith)
            requires
                fds == self.reserved_sectors + tables + rds,
                rds * bps >= rec * 32,
        ;
        assert(fds * bps + count * (bps * spc) <= total * bps) by (nonlinear_arith)
            requires
                count * spc <= total - fds,
                bps >= 0,
        ;
        lemma_mul_upper_bound(total, 0xffff_ffff, bps, 0xffff);
    }

    /// A whole number of sectors of the volume is a whole number of disk
    /// sectors.
    pub proof fn lemma_sectors_are_aligned(&self, sectors: int)
        requires
            self.wf(),
        ensures
            (sectors * self.bytes_per_sector) % 512 == 0,
    {
        let bps = self.bytes_per_sector as int;
        lemma_fundamental_div_mod(bps, 512);
        assert(sectors * bps == (sectors * (bps / 512)) * 512) by (nonlinear_arith)
            requires
                bps == 512 * (bps / 512) + bps % 512,
                bps % 512 == 0,
        ;
        vstd::arithmetic::div_mod::lemma_mod_multiples_basic(sectors * (bps / 512), 512);
    }

    /// The root directory, the data region and every cluster start on a
    /// boundary of disk sectors.
    pub proof fn lemma_offsets_are_aligned(&self, cluster: int)
        requires
            self.wf(),
        ensures
            self.spec_root_directory_offset() % 512 == 0,
            self.spec_data_offset() % 512 == 0,
            self.spec_cluster_offset(cluster) % 512 == 0,
            self.spec_bytes_per_cluster() % 512 == 0,
            self.spec_volume_size() % 512 == 0,
    {
        let bps = self.bytes_per_sector as int;
        let spc = self.sectors_per_cluster as int;
        self.lemma_sectors_are_aligned(self.reserved_sectors + self.fat_count * self.sectors_per_fat);
        self.lemma_sectors_are_aligned(self.spec_first_data_sector());
        self.lemma_sectors_are_aligned(spc);
        self.lemma_sectors_are_aligned(self.total_sectors as int);
        self.lemma_sectors_are_aligned(self.spec_first_data_sector() + (cluster - 2) * spc);
        assert(self.spec_cluster_offset(cluster) == (self.spec_first_data_sector() + (cluster - 2)
            * spc) * bps) by (nonlinear_arith)
            requires
                self.spec_cluster_offset(cluster) == self.spec_first_data_sector() * bps + (cluster
                    - 2) * (bps * spc),
        ;
        assert(self.spec_bytes_per_cluster() == spc * bps) by (nonlinear_arith)
            requires
                self.spec_bytes_per_cluster() == bps * spc,
        ;
    }

    /// Reads the geometry of a volume from its boot sector.
    ///
    /// Fails with `InvalidBootSector` exactly when fewer than 512 bytes are
    /// given or the numbers in them are not a well-formed geometry.
    pub fn parse(sector: &[u8]) -> (r: Result<FileSystem, LoadError>)
        ensures
            r == (if sector@.len() >= 512 && FileSystem::decode(sector@).wf() {
                Ok::<FileSystem, LoadError>(FileSystem::decode(sector@))
            } else {
                Err(LoadError::InvalidBootSector)
            }),
    {
        if sector.len() < BOOT_SECTOR_SIZE {
            return Err(LoadError::InvalidBootSector);
        }
        let fat_size_16 = get_u16(sector, 22);
        let total_sectors_16 = get_u16(sector, 19);
        let fs = FileSystem {
            bytes_per_sector: get_u16(sector, 11),
            sectors_per_cluster: sector[13],
            reserved_sectors: get_u16(sector, 14),
            fat_count: sector[16],
            sectors_per_fat: if fat_size_16 != 0 {
                fat_size_16 as u32
            } else {
                get_u32(sector, 36)
            },
            root_entry_count: get_u16(sector, 17),
            root_cluster: if fat_size_16 != 0 {
                0
            } else {
                get_u32(sector, 44)
            },
            total_sectors: if total_sectors_16 != 0 {
                total_sectors_16 as u32
            } else {
                get_u32(sector, 32)
            },
        };
        assert(fs == FileSystem::decode(sector@));
        if fs.is_well_formed() {
            Ok(fs)
        } else {
            Err(LoadError::InvalidBootSector)
        }
    }

    /// Whether the geometry adds up.
    #[verifier::when_used_as_spec(wf)]
    pub fn is_well_formed(&self) -> (b: bool)
        ensures
            b == self.wf(),
    {
        if self.bytes_per_sector < 512 || self.bytes_per_sector % 512 != 0
            || self.sectors_per_cluster == 0 || self.fat_count == 0 || self.sectors_per_fat == 0 {
            return false;
        }
        let bps = self.bytes_per_sector as u64;
        let root_sectors = (self.root_entry_count as u64 * 32 + bps - 1) / bps;
        proof {
            lemma_mul_upper_bound(
                self.fat_count as int,
                255,
                self.sectors_per_fat as int,
                0xffff_ffff,
            );
            lemma_div_pos_is_pos(self.root_entry_count * 32 + bps - 1, bps as int);
            assert(root_sectors <= 4096) by (nonlinear_arith)
                requires
                    root_sectors == (self.root_entry_count * 32 + bps - 1) / (bps as int),
                    0 <= self.root_entry_count <= 0xffff,
                    bps >= 512,
            ;
        }
        let first_data_sector = self.reserved_sectors as u64 + self.fat_count as u64
            * self.sectors_per_fat as u64 + root_sectors;
        if first_data_sector > self.total_sectors as u64 {
            return false;
        }
        let count = (self.total_sectors as u64 - first_data_sector) / (
        self.sectors_per_cluster as u64);
        count + 1 < 0x0fff_fff7
    }

    /// The number of whole clusters in the data region.
    pub fn count_of_clusters(&self) -> (count: u32)
        requires
            self.wf(),
        ensures
            count == self.spec_count_of_clusters(),
    {
        proof {
            self.lemma_bounds();
        }
        let bps = self.bytes_per_sector as u64;
        let root_sectors = (self.root_entry_count as u64 * 32 + bps - 1) / bps;
        let first_data_sector = self.reserved_sectors as u64 + self.fat_count as u64
            * self.sectors_per_fat as u64 + root_sectors;
        ((self.total_sectors as u64 - first_data_sector) / (self.sectors_per_cluster as u64)) as u32
    }

    /// The table format of the volume: FAT12 below 4085 clusters, FAT16 below
    /// 65525, FAT32 from there on.
    pub fn fat_type(&self) -> (t: FatType)
        requires
            self.wf(),
        ensures
            t == self.spec_fat_type(),
    {
        let count = self.count_of_clusters();
        if count < 4085 {
            FatType::Fat12
        } else if count < 65525 {
            FatType::Fat16
        } else {
            FatType::Fat32
        }
    }

    /// The highest cluster number of the volume.
    pub fn maximum_valid_cluster(&self) -> (max: u32)
        requires
            self.wf(),
        ensures
            max == self.spec_maximum_valid_cluster(),
    {
        self.count_of_clusters() + 1
    }

    /// The size of a cluster, in bytes.
    pub fn bytes_per_cluster(&self) -> (size: u32)
        requires
            self.wf(),
        ensures
            size == self.spec_bytes_per_cluster(),
    {
        proof {
            self.lemma_bounds();
        }
        self.bytes_per_sector as u32 * self.sectors_per_cluster as u32
    }

    /// Where the first table starts, in bytes from the start of the volume.
    pub fn fat_offset(&self) -> (offset: u64)
        requires
            self.wf(),
        ensures
            offset == self.spec_fat_offset(),
    {
        proof {
            self.lemma_bounds();
            lemma_mul_upper_bound(
                self.reserved_sectors as int,
                0xffff,
                self.bytes_per_sector as int,
                0xffff,
            );
        }
        self.reserved_sectors as u64 * self.bytes_per_sector as u64
    }

    /// Where the fixed root directory starts, in bytes from the start of the
    /// volume.
    pub fn root_directory_offset(&self) -> (offset: u64)
        requires
            self.wf(),
        ensures
            offset == self.spec_root_directory_offset(),
    {
        proof {
            self.lemma_bounds();
        }
        (self.reserved_sectors as u64 + self.fat_count as u64 * self.sectors_per_fat as u64)
            * self.bytes_per_sector as u64
    }

    /// The size of the fixed root directory, in bytes.
    pub fn root_directory_size(&self) -> (size: u32)
        ensures
            size == self.spec_root_directory_size(),
    {
        self.root_entry_count as u32 * 32
    }

    /// Where the data region starts, in bytes from the start of the volume.
    pub fn data_offset(&self) -> (offset: u64)
        requires
            self.wf(),
        ensures
            offset == self.spec_data_offset(),
    {
        proof {
            self.lemma_bounds();
        }
        let bps = self.bytes_per_sector as u64;
        let root_sectors = (self.root_entry_count as u64 * 32 + bps - 1) / bps;
        let first_data_sector = self.reserved_sectors as u64 + self.fat_count as u64
            * self.sectors_per_fat as u64 + root_sectors;
        proof {
            lemma_mul_inequality(first_data_sector as int, self.total_sectors as int, bps as int);
        }
        first_data_sector * bps
    }

    /// Where cluster `cluster` starts, in bytes from the start of the volume.
    /// The whole cluster lies inside the volume.
    pub fn cluster_offset(&self, cluster: u32) -> (offset: u64)
        requires
            self.wf(),
            2 <= cluster <= self.spec_maximum_valid_cluster(),
        ensures
            offset == self.spec_cluster_offset(cluster as int),
            offset + self.spec_bytes_per_cluster() <= self.spec_volume_size(),
    {
        proof {
            self.lemma_bounds();
            let size = self.spec_bytes_per_cluster();
            let count = self.spec_count_of_clusters();
            assert((cluster - 2) * size + size <= count * size) by (nonlinear_arith)
                requires
                    0 <= cluster - 2 < count,
                    size >= 0,
            ;
            assert(0 <= (cluster - 2) * size) by (nonlinear_arith)
                requires
                    0 <= cluster - 2,
                    size >= 0,
            ;
        }
        self.data_offset() + (cluster as u64 - 2) * self.bytes_per_cluster() as u64
    }
}

} // verus!
