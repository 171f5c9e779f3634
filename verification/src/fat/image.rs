use crate::error::LoadError;
use crate::fat::chain::{ClusterExtent, ExtentWalk, WalkStep, Walked};
use crate::fat::directory::{scan_directory, spec_scan, DirectoryEntry, DirectoryEntryView, ShortName};
use crate::fat::volume::FileSystem;
use vstd::prelude::*;

verus! {

/// What a search through the extents of a directory finds on the bytes
/// `volume` of the volume: the first record that carries the name, looked for
/// extent by extent. An extent that reaches beyond the volume is a
/// `DiskReadError`. When the extents are used up, the failure that ended the
/// walk is the failure of the search, and `FileNotFound` if the walk ended
/// well.
pub open spec fn spec_find_in(name: ShortName, volume: Seq<u8>, directory: Walked) -> Result<
    DirectoryEntryView,
    LoadError,
>
    decreases directory.extents.len(),
{
    if directory.extents.len() == 0 {
        match directory.failure {
            Some(e) => Err(e),
            None => Err(LoadError::FileNotFound),
        }
    } else {
        let extent = directory.extents[0];
        if extent.start_offset + extent.len_bytes > volume.len() {
            Err(LoadError::DiskReadError)
        } else {
            match spec_scan(
                name,
                volume.subrange(
                    extent.start_offset as int,
                    extent.start_offset + extent.len_bytes,
                ),
            ) {
                Some(entry) => Ok(entry),
                None => spec_find_in(
                    name,
                    volume,
                    Walked { extents: directory.extents.drop_first(), failure: directory.failure },
                ),
            }
        }
    }
}

impl FileSystem {
    /// What `find_file_in_root_dir` returns on the bytes `volume` of the
    /// volume.
    pub open spec fn spec_find_file_in_root_dir(&self, volume: Seq<u8>, name: ShortName) -> Result<
        DirectoryEntryView,
        LoadError,
    > {
        spec_find_in(name, volume, self.spec_root_directory().run(*self, volume))
    }

    /// Looks the name up in the root directory of a volume that lies in
    /// memory, and returns what the first record that carries it says.
    ///
    /// The root directory is the fixed region behind the tables on FAT12 and
    /// FAT16, and the cluster chain from the root cluster on FAT32. Fails
    /// with `FileNotFound` when the directory ends without a match, with
    /// `ClusterChainCorrupt` when the chain of the directory is found
    /// corrupt before a match, and with `DiskReadError` when the directory
    /// or a table entry that is needed lies beyond the end of `volume`.
    pub fn find_file_in_root_dir(&self, volume: &[u8], name: &ShortName) -> (r: Result<
        DirectoryEntry,
        LoadError,
    >)
        requires
            self.wf(),
        ensures
            match r {
                Ok(entry) => Ok(entry@),
                Err(e) => Err(e),
            } == self.spec_find_file_in_root_dir(volume@, *name),
    {
        let mut walk = self.root_directory();
        loop
            invariant
                self.wf(),
                walk.wf(*self),
                self.spec_find_file_in_root_dir(volume@, *name) == spec_find_in(
                    *name,
                    volume@,
                    walk.run(*self, volume@),
                ),
            decreases walk.steps_left(*self),
        {
            let ghost before = walk;
            match walk.next(self) {
                WalkStep::Extent(extent) => {
                    proof {
                        assert(before.run(*self, volume@).extents.drop_first() =~= walk.run(
                            *self,
                            volume@,
                        ).extents);
                    }
                    if extent.start_offset > volume.len() as u64 || extent.len_bytes as u64
                        > volume.len() as u64 - extent.start_offset {
                        return Err(LoadError::DiskReadError);
                    }
                    let start = extent.start_offset as usize;
                    let bytes = vstd::slice::slice_subrange(
                        volume,
                        start,
                        start + extent.len_bytes as usize,
                    );
                    match scan_directory(bytes, name) {
                        Some(entry) => {
                            return Ok(entry);
                        },
                        None => {},
                    }
                },
                WalkStep::ReadTable { offset, len } => {
                    if offset > volume.len() as u64 || len as u64 > volume.len() as u64 - offset {
                        return Err(LoadError::DiskReadError);
                    }
                    let start = offset as usize;
                    walk.supply(self, vstd::slice::slice_subrange(volume, start, start + len));
                },
                WalkStep::Finished => {
                    return Err(LoadError::FileNotFound);
                },
                WalkStep::Failed(e) => {
                    return Err(e);
                },
            }
        }
    }

    /// Walks the cluster chain of a file on a volume that lies in memory,
    /// and returns its extents in the order of the chain. Fails with what
    /// the walk fails with; nothing is returned of a chain that fails.
    pub fn file_extents(&self, volume: &[u8], entry: &DirectoryEntry) -> (r: Result<
        Vec<ClusterExtent>,
        LoadError,
    >)
        requires
            self.wf(),
        ensures
            match r {
                Ok(extents) => {
                    &&& self.spec_file_clusters(entry@).run(*self, volume@).failure is None
                    &&& extents@ == self.spec_file_clusters(entry@).run(*self, volume@).extents
                },
                Err(e) => self.spec_file_clusters(entry@).run(*self, volume@).failure == Some(e),
            },
    {
        let mut walk = self.file_clusters(entry);
        let ghost whole = walk.run(*self, volume@);
        let mut extents: Vec<ClusterExtent> = Vec::new();
        loop
            invariant
                self.wf(),
                walk.wf(*self),
                whole == self.spec_file_clusters(entry@).run(*self, volume@),
                whole.failure == walk.run(*self, volume@).failure,
                whole.extents == extents@ + walk.run(*self, volume@).extents,
            decreases walk.steps_left(*self),
        {
            let ghost before = walk;
            match walk.next(self) {
                WalkStep::Extent(extent) => {
                    proof {
                        assert(extents@.push(extent) + walk.run(*self, volume@).extents
                            =~= extents@ + before.run(*self, volume@).extents);
                    }
                    extents.push(extent);
                },
                WalkStep::ReadTable { offset, len } => {
                    if offset > volume.len() as u64 || len as u64 > volume.len() as u64 - offset {
                        return Err(LoadError::DiskReadError);
                    }
                    let start = offset as usize;
                    walk.supply(self, vstd::slice::slice_subrange(volume, start, start + len));
                },
                WalkStep::Finished => {
                    assert(extents@ + Seq::<ClusterExtent>::empty() =~= extents@);
                    return Ok(extents);
                },
                WalkStep::Failed(e) => {
                    return Err(e);
                },
            }
        }
    }
}

/// The bytes that a list of extents covers on the bytes `volume` of the
/// volume, one extent after the other.
pub open spec fn extent_bytes(volume: Seq<u8>, extents: Seq<ClusterExtent>) -> Seq<u8>
    decreases extents.len(),
{
    if extents.len() == 0 {
        Seq::empty()
    } else {
        volume.subrange(
            extents[0].start_offset as int,
            extents[0].start_offset + extents[0].len_bytes,
        ) + extent_bytes(volume, extents.drop_first())
    }
}

} // verus!
