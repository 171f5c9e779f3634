//! A read-only FAT12/16/32 driver that never touches a disk: it says which
//! bytes it needs, and works on the bytes it is handed.

pub mod chain;
pub mod directory;
pub mod image;
pub mod table;
pub mod volume;
