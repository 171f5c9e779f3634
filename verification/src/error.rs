use vstd::prelude::*;

verus! {

/// Why loading stopped. Every one of these is final: the caller halts.
#[derive(Clone, Copy, Debug, PartialEq, Eq, Structural)]
pub enum LoadError {
    /// No partition entry carries the reserved type byte, or nothing follows it.
    PartitionNotFound,
    /// The entry after the reserved one is not FAT12, FAT16 or FAT32.
    UnexpectedPartitionType,
    /// The boot sector does not describe a volume whose geometry adds up.
    InvalidBootSector,
    /// The root directory holds no entry of the wanted name.
    FileNotFound,
    /// The BIOS reported a failure, or the read could not be addressed.
    DiskReadError,
    /// A cluster number is out of range, or the chain does not end.
    ClusterChainCorrupt,
    /// The byte read back from high memory is not the byte written.
    HighMemoryVerificationMismatch,
}

impl LoadError {
    /// The character shown on the display before halting.
    pub open spec fn spec_code(self) -> u8 {
        match self {
            LoadError::PartitionNotFound => 0x50,
            LoadError::UnexpectedPartitionType => 0x54,
            LoadError::InvalidBootSector => 0x42,
            LoadError::FileNotFound => 0x46,
            LoadError::DiskReadError => 0x44,
            LoadError::ClusterChainCorrupt => 0x43,
            LoadError::HighMemoryVerificationMismatch => 0x4d,
        }
    }

    /// The one-character diagnostic of this error: `P`, `T`, `B`, `F`, `D`, `C`
    /// or `M`.
    #[verifier::when_used_as_spec(spec_code)]
    pub fn code(self) -> (c: u8)
        ensures
            c == self.spec_code(),
    {
        match self {
            LoadError::PartitionNotFound => 0x50,
            LoadError::UnexpectedPartitionType => 0x54,
            LoadError::InvalidBootSector => 0x42,
            LoadError::FileNotFound => 0x46,
            LoadError::DiskReadError => 0x44,
            LoadError::ClusterChainCorrupt => 0x43,
            LoadError::HighMemoryVerificationMismatch => 0x4d,
        }
    }
}

} // verus!
