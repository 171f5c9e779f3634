//! The decisions of a BIOS second-stage loader, kept apart from the machine.
//!
//! Everything here works on plain values: the bytes of a partition table, of a
//! boot sector, of a directory or of a file allocation table go in, and
//! addresses, disk address packets and byte ranges come out. The caller owns
//! the machine: it performs the BIOS reads and the copies to high memory that
//! the library asks for and hands back what it read.
//!
//! - `partition` decodes the partition table and finds the FAT partition.
//! - `dap` and `disk` turn reads at a byte cursor into BIOS transfers.
//! - `fat` is a read-only FAT12/16/32 driver: geometry, table, directory and
//!   the walk along a cluster chain.
//! - `loader` loads one file, `boot` the three files of a boot, each as a
//!   sequence of decisions that the caller drives.
//! - `machine` says what a machine does with what it is asked, and holds one
//!   in memory to run on; `simulation` and `boot_simulation` run the loader
//!   and the boot on it and prove what such a run comes to.

pub mod boot;
pub mod boot_simulation;
pub mod dap;
pub mod disk;
pub mod endian;
pub mod error;
pub mod fat;
pub mod loader;
pub mod machine;
pub mod partition;
pub mod simulation;
pub mod slices;
