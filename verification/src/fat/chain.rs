use crate::error::LoadError;
use crate::fat::directory::{DirectoryEntry, DirectoryEntryView};
use crate::fat::table::FileFatEntry;
use crate::fat::volume::{FatType, FileSystem};
use vstd::prelude::*;

verus! {

/// One contiguous run of bytes of the volume: where it starts, counted from
/// the start of the volume, and how long it is.
#[derive(Clone, Copy, Debug, PartialEq, Eq, Structural)]
pub struct ClusterExtent {
    pub start_offset: u64,
    pub len_bytes: u32,
}

/// Where a walk stands.
#[derive(Clone, Copy, Debug, PartialEq, Eq, Structural)]
pub enum WalkState {
    /// The cluster of this number comes next.
    At(u32),
    /// The extent of this cluster was handed out, and more bytes are wanted:
    /// the walk goes on once the table entry of the cluster is supplied.
    Linking(u32),
    /// A fixed region, which is no chain, is still to be handed out.
    Region(ClusterExtent),
    /// Nothing is left.
    Finished,
    /// The walk came upon this, and stays there.
    Failed(LoadError),
}

/// What a walk hands out or asks for next.
#[derive(Clone, Copy, Debug, PartialEq, Eq, Structural)]
pub enum WalkStep {
    /// The next extent.
    Extent(ClusterExtent),
    /// The walk needs `len` bytes of the volume from `offset` on: a table
    /// entry. They are handed over with `supply`.
    ReadTable { offset: u64, len: usize },
    /// The walk is over.
    Finished,
    /// The walk failed.
    Failed(LoadError),
}

/// A walk along a cluster chain that hands out one extent per cluster, and
/// that reads nothing itself: whoever drives it reads the table entries it
/// asks for.
#[derive(Clone, Copy, Debug, PartialEq, Eq, Structural)]
pub struct ExtentWalk {
    pub state: WalkState,
    /// Bytes that are still wanted.
    pub remaining: u64,
    /// Clusters handed out so far.
    pub visited: u32,
}

/// What a walk that is driven to its end hands out, and how it ends.
pub struct Walked {
    pub extents: Seq<ClusterExtent>,
    pub failure: Option<LoadError>,
}

impl Walked {
    /// The same walk with one more extent in front.
    pub open spec fn after(self, extent: ClusterExtent) -> Walked {
        Walked { extents: seq![extent] + self.extents, failure: self.failure }
    }

    /// The number of bytes in all the extents.
    pub open spec fn total(self) -> int {
        total_len(self.extents)
    }
}

/// The number of bytes in all of `extents`.
pub open spec fn total_len(extents: Seq<ClusterExtent>) -> int
    decreases extents.len(),
{
    if extents.len() == 0 {
        0
    } else {
        extents[0].len_bytes + total_len(extents.drop_first())
    }
}

impl FileSystem {
    /// The extent of cluster `cluster` of which `wanted` bytes are still
    /// wanted: it starts where the cluster starts and is as long as the
    /// cluster, or as what is wanted if that is less.
    pub open spec fn spec_extent(&self, cluster: int, wanted: int) -> ClusterExtent {
        ClusterExtent {
            start_offset: self.spec_cluster_offset(cluster) as u64,
            len_bytes: if wanted < self.spec_bytes_per_cluster() {
                wanted as u32
            } else {
                self.spec_bytes_per_cluster() as u32
            },
        }
    }

    /// The walk over the data of a file: it starts at the file's first
    /// cluster and wants as many bytes as the file has.
    pub open spec fn spec_file_clusters(&self, entry: DirectoryEntryView) -> ExtentWalk {
        ExtentWalk {
            state: WalkState::At(entry.first_cluster),
            remaining: entry.size_bytes as u64,
            visited: 0,
        }
    }

    /// The walk over the root directory: on FAT32 the chain from the root
    /// cluster, of which every cluster is wanted in full; on FAT12 and FAT16
    /// the fixed region behind the tables.
    pub open spec fn spec_root_directory(&self) -> ExtentWalk {
        if self.spec_fat_type() is Fat32 {
            ExtentWalk {
                state: WalkState::At(self.root_cluster),
                remaining: (self.spec_count_of_clusters() * self.spec_bytes_per_cluster()) as u64,
                visited: 0,
            }
        } else {
            ExtentWalk {
                state: WalkState::Region(
                    ClusterExtent {
                        start_offset: self.spec_root_directory_offset() as u64,
                        len_bytes: self.spec_root_directory_size() as u32,
                    },
                ),
                remaining: 0,
                visited: 0,
            }
        }
    }

    /// Starts the walk over the data of a file.
    pub fn file_clusters(&self, entry: &DirectoryEntry) -> (walk: ExtentWalk)
        ensures
            walk == self.spec_file_clusters(entry@),
            self.wf() ==> walk.wf(*self),
    {
        proof {
            if self.wf() {
                self.lemma_bounds();
            }
        }
        ExtentWalk {
            state: WalkState::At(entry.first_cluster),
            remaining: entry.size_bytes as u64,
            visited: 0,
        }
    }

    /// Starts the walk over the root directory.
    pub fn root_directory(&self) -> (walk: ExtentWalk)
        requires
            self.wf(),
        ensures
            walk == self.spec_root_directory(),
            walk.wf(*self),
    {
        proof {
            self.lemma_bounds();
            self.lemma_offsets_are_aligned(2);
        }
        match self.fat_type() {
            FatType::Fat32 => ExtentWalk {
                state: WalkState::At(self.root_cluster),
                remaining: self.count_of_clusters() as u64 * self.bytes_per_cluster() as u64,
                visited: 0,
            },
            _ => ExtentWalk {
                state: WalkState::Region(
                    ClusterExtent {
                        start_offset: self.root_directory_offset(),
                        len_bytes: self.root_directory_size(),
                    },
                ),
                remaining: 0,
                visited: 0,
            },
        }
    }
}

impl FileSystem {
    /// The walks that a volume starts are well-formed.
    pub proof fn lemma_walks_start_well(&self, entry: DirectoryEntryView)
        requires
            self.wf(),
        ensures
            self.spec_root_directory().wf(*self),
            self.spec_file_clusters(entry).wf(*self),
    {
        self.lemma_bounds();
        self.lemma_offsets_are_aligned(2);
    }
}

impl ExtentWalk {
    /// The walk after its next step, and what that step hands out.
    ///
    /// A fixed region is handed out whole, unless it is empty, and that ends
    /// the walk. No extent that is handed out is empty. On a
    /// chain, the walk is over when no bytes are wanted any more or the
    /// cluster number is an end mark. It fails with `ClusterChainCorrupt` on
    /// a number that is no cluster of the volume and no end mark, and when
    /// as many clusters as the volume has were handed out and another one
    /// follows. Otherwise the cluster's extent is handed out, cut to what is
    /// still wanted. While the table entry of the last cluster is missing,
    /// the step asks for it.
    pub open spec fn spec_next(self, fs: FileSystem) -> (ExtentWalk, WalkStep) {
        match self.state {
            WalkState::Region(extent) => (
                ExtentWalk { state: WalkState::Finished, ..self },
                if extent.len_bytes == 0 {
                    WalkStep::Finished
                } else {
                    WalkStep::Extent(extent)
                },
            ),
            WalkState::Finished => (self, WalkStep::Finished),
            WalkState::Failed(e) => (self, WalkStep::Failed(e)),
            WalkState::Linking(cluster) => (
                self,
                WalkStep::ReadTable {
                    offset: fs.spec_fat_entry_offset(cluster as int) as u64,
                    len: fs.spec_fat_type().spec_entry_width() as usize,
                },
            ),
            WalkState::At(number) => if self.remaining == 0 {
                (ExtentWalk { state: WalkState::Finished, ..self }, WalkStep::Finished)
            } else {
                match fs.spec_fat_type().spec_classify(
                    number,
                    fs.spec_maximum_valid_cluster() as u32,
                ) {
                    Err(e) => (
                        ExtentWalk { state: WalkState::Failed(e), ..self },
                        WalkStep::Failed(e),
                    ),
                    Ok(FileFatEntry::EndOfFile) => (
                        ExtentWalk { state: WalkState::Finished, ..self },
                        WalkStep::Finished,
                    ),
                    Ok(FileFatEntry::AllocatedCluster(cluster)) => if self.visited
                        >= fs.spec_count_of_clusters() {
                        (
                            ExtentWalk {
                                state: WalkState::Failed(LoadError::ClusterChainCorrupt),
                                ..self
                            },
                            WalkStep::Failed(LoadError::ClusterChainCorrupt),
                        )
                    } else {
                        let extent = fs.spec_extent(cluster as int, self.remaining as int);
                        let left = (self.remaining - extent.len_bytes) as u64;
                        (
                            ExtentWalk {
                                state: if left == 0 {
                                    WalkState::Finished
                                } else {
                                    WalkState::Linking(cluster)
                                },
                                remaining: left,
                                visited: (self.visited + 1) as u32,
                            },
                            WalkStep::Extent(extent),
                        )
                    },
                }
            },
        }
    }

    /// The walk after `bytes` were handed to it. Where it waits for a table
    /// entry, it decodes the entry and goes to the cluster that the entry
    /// names; too few bytes make it fail with `DiskReadError`. Where it does
    /// not wait, nothing changes.
    pub open spec fn spec_supply(self, fs: FileSystem, bytes: Seq<u8>) -> ExtentWalk {
        match self.state {
            WalkState::Linking(cluster) => if bytes.len() < fs.spec_fat_type().spec_entry_width() {
                ExtentWalk { state: WalkState::Failed(LoadError::DiskReadError), ..self }
            } else {
                ExtentWalk {
                    state: WalkState::At(
                        fs.spec_fat_type().spec_decode_entry(cluster as int, bytes) as u32,
                    ),
                    ..self
                }
            },
            _ => self,
        }
    }

    /// A walk has handed out no more clusters than the volume has; while it
    /// waits for the table entry of a cluster, that is a cluster of the
    /// volume and bytes are still wanted; and a fixed region lies inside the
    /// volume and starts on a boundary of disk sectors.
    pub open spec fn wf(self, fs: FileSystem) -> bool {
        &&& self.visited <= fs.spec_count_of_clusters()
        &&& self.state matches WalkState::Linking(cluster) ==> 2 <= cluster
            <= fs.spec_maximum_valid_cluster() && self.remaining > 0
        &&& self.state matches WalkState::Region(extent) ==> extent.start_offset + extent.len_bytes
            <= fs.spec_volume_size() && extent.start_offset % 512 == 0
    }

    /// The number of steps that the walk can still take, at most.
    pub open spec fn steps_left(self, fs: FileSystem) -> nat {
        let clusters_left = if self.visited <= fs.spec_count_of_clusters() {
            fs.spec_count_of_clusters() - self.visited
        } else {
            0
        };
        match self.state {
            WalkState::Finished => 0,
            WalkState::Failed(_) => 0,
            WalkState::Region(_) => 1,
            WalkState::At(_) => (2 * clusters_left + 2) as nat,
            WalkState::Linking(_) => (2 * clusters_left + 3) as nat,
        }
    }

    /// What the walk hands out, and how it ends, when it is driven over the
    /// bytes `volume` of the volume: every table entry it asks for is read
    /// from there, and a request that reaches beyond the volume ends the
    /// walk with `DiskReadError`.
    pub open spec fn run(self, fs: FileSystem, volume: Seq<u8>) -> Walked
        decreases self.steps_left(fs),
        when fs.wf()
    {
        let (walk, step) = self.spec_next(fs);
        match step {
            WalkStep::Finished => Walked { extents: Seq::empty(), failure: None },
            WalkStep::Failed(e) => Walked { extents: Seq::empty(), failure: Some(e) },
            WalkStep::Extent(extent) => walk.run(fs, volume).after(extent),
            WalkStep::ReadTable { offset, len } => if offset + len <= volume.len() {
                walk.spec_supply(fs, volume.subrange(offset as int, offset + len)).run(fs, volume)
            } else {
                Walked { extents: Seq::empty(), failure: Some(LoadError::DiskReadError) }
            },
        }
    }

    /// Takes the next step of the walk.
    pub fn next(&mut self, fs: &FileSystem) -> (step: WalkStep)
        requires
            fs.wf(),
        ensures
            (*final(self), step) == old(self).spec_next(*fs),
            old(self).wf(*fs) ==> final(self).wf(*fs),
            old(self).wf(*fs) ==> (step matches WalkStep::Extent(extent) ==> extent.start_offset
                + extent.len_bytes <= fs.spec_volume_size()),
            step matches WalkStep::Extent(extent) ==> 1 <= extent.len_bytes,
            old(self).state is At ==> (step matches WalkStep::Extent(extent) ==> extent.len_bytes
                <= fs.spec_bytes_per_cluster()),
    {
        proof {
            fs.lemma_bounds();
        }
        match self.state {
            WalkState::Region(extent) => {
                self.state = WalkState::Finished;
                if extent.len_bytes == 0 {
                    WalkStep::Finished
                } else {
                    WalkStep::Extent(extent)
                }
            },
            WalkState::Finished => WalkStep::Finished,
            WalkState::Failed(e) => WalkStep::Failed(e),
            WalkState::Linking(cluster) => WalkStep::ReadTable {
                offset: fs.fat_entry_offset(cluster),
                len: fs.fat_type().entry_width(),
            },
            WalkState::At(number) => {
                if self.remaining == 0 {
                    self.state = WalkState::Finished;
                    return WalkStep::Finished;
                }
                match fs.fat_type().classify_fat_entry(number, fs.maximum_valid_cluster()) {
                    Err(e) => {
                        self.state = WalkState::Failed(e);
                        WalkStep::Failed(e)
                    },
                    Ok(FileFatEntry::EndOfFile) => {
                        self.state = WalkState::Finished;
                        WalkStep::Finished
                    },
                    Ok(FileFatEntry::AllocatedCluster(cluster)) => {
                        if self.visited >= fs.count_of_clusters() {
                            self.state = WalkState::Failed(LoadError::ClusterChainCorrupt);
                            return WalkStep::Failed(LoadError::ClusterChainCorrupt);
                        }
                        let size = fs.bytes_per_cluster();
                        let len = if self.remaining < size as u64 {
                            self.remaining as u32
                        } else {
                            size
                        };
                        let extent = ClusterExtent {
                            start_offset: fs.cluster_offset(cluster),
                            len_bytes: len,
                        };
                        self.remaining = self.remaining - len as u64;
                        self.visited = self.visited + 1;
                        self.state = if self.remaining == 0 {
                            WalkState::Finished
                        } else {
                            WalkState::Linking(cluster)
                        };
                        WalkStep::Extent(extent)
                    },
                }
            },
        }
    }

    /// Hands the walk the bytes it asked for.
    pub fn supply(&mut self, fs: &FileSystem, bytes: &[u8])
        requires
            fs.wf(),
        ensures
            *final(self) == old(self).spec_supply(*fs, bytes@),
            old(self).wf(*fs) ==> final(self).wf(*fs),
    {
        match self.state {
            WalkState::Linking(cluster) => {
                let fat_type = fs.fat_type();
                if bytes.len() < fat_type.entry_width() {
                    self.state = WalkState::Failed(LoadError::DiskReadError);
                } else {
                    self.state = WalkState::At(fat_type.decode_entry(cluster, bytes));
                }
            },
            _ => {},
        }
    }
}

/// The number of the cluster that comes `i` links behind the cluster `first`
/// in the table that the bytes `volume` of the volume hold.
pub open spec fn chain_cluster(fs: FileSystem, volume: Seq<u8>, first: u32, i: nat) -> u32
    decreases i,
{
    if i == 0 {
        first
    } else {
        chain_cluster(fs, volume, fs.spec_fat_entry(volume, first as int) as u32, (i - 1) as nat)
    }
}

/// Whether the first `m` clusters of the chain from `first` are clusters of
/// the volume.
pub open spec fn chain_allocated(fs: FileSystem, volume: Seq<u8>, first: u32, m: nat) -> bool {
    forall|i: nat|
        i < m ==> 2 <= #[trigger] chain_cluster(fs, volume, first, i)
            <= fs.spec_maximum_valid_cluster()
}

/// Whether `volume` holds the table entry of every cluster of the volume.
pub open spec fn table_readable(fs: FileSystem, volume: Seq<u8>) -> bool {
    fs.spec_fat_entry_offset(fs.spec_maximum_valid_cluster())
        + fs.spec_fat_type().spec_entry_width() <= volume.len()
}

/// The number of clusters that `bytes` bytes take.
pub open spec fn clusters_for(fs: FileSystem, bytes: int) -> int {
    (bytes + fs.spec_bytes_per_cluster() - 1) / fs.spec_bytes_per_cluster()
}

/// One more extent in front adds its bytes to the total and shifts the rest.
proof fn lemma_total_after(walked: Walked, extent: ClusterExtent)
    ensures
        walked.after(extent).total() == extent.len_bytes + walked.total(),
        walked.after(extent).extents.len() == walked.extents.len() + 1,
        walked.after(extent).extents[0] == extent,
        forall|i: int|
            0 <= i < walked.extents.len() ==> walked.after(extent).extents[i + 1]
                == walked.extents[i],
{
    assert(walked.after(extent).extents.drop_first() =~= walked.extents);
}

/// A chain whose first clusters are clusters of the volume starts with one,
/// and goes on with a chain of which the same holds for one cluster less.
proof fn lemma_chain_allocated_tail(fs: FileSystem, volume: Seq<u8>, first: u32, m: nat)
    requires
        m >= 1,
        chain_allocated(fs, volume, first, m),
    ensures
        2 <= first <= fs.spec_maximum_valid_cluster(),
        chain_allocated(
            fs,
            volume,
            fs.spec_fat_entry(volume, first as int) as u32,
            (m - 1) as nat,
        ),
{
    assert(chain_cluster(fs, volume, first, 0) == first);
    let second = fs.spec_fat_entry(volume, first as int) as u32;
    assert forall|i: nat| i < m - 1 implies 2 <= #[trigger] chain_cluster(fs, volume, second, i)
        <= fs.spec_maximum_valid_cluster() by {
        assert(chain_cluster(fs, volume, first, i + 1) == chain_cluster(fs, volume, second, i));
    }
}

/// One step of a walk that stands at a cluster of the volume, has not yet
/// handed out as many clusters as the volume has, and still wants bytes:
/// the cluster's extent comes out, and if more is wanted the walk goes on at
/// the cluster that the table names.
proof fn lemma_run_unfold(walk: ExtentWalk, fs: FileSystem, volume: Seq<u8>, cluster: u32)
    requires
        fs.wf(),
        walk.wf(fs),
        table_readable(fs, volume),
        walk.state == WalkState::At(cluster),
        2 <= cluster <= fs.spec_maximum_valid_cluster(),
        walk.remaining > 0,
        walk.visited < fs.spec_count_of_clusters(),
    ensures
        ({
            let size = fs.spec_bytes_per_cluster();
            let extent = fs.spec_extent(cluster as int, walk.remaining as int);
            let onward = ExtentWalk {
                state: WalkState::At(fs.spec_fat_entry(volume, cluster as int) as u32),
                remaining: (walk.remaining - size) as u64,
                visited: (walk.visited + 1) as u32,
            };
            &&& walk.remaining <= size ==> walk.run(fs, volume) == (Walked {
                extents: Seq::empty(),
                failure: None,
            }).after(extent) && extent.len_bytes == walk.remaining
            &&& walk.remaining > size ==> walk.run(fs, volume) == onward.run(fs, volume).after(
                extent,
            ) && extent.len_bytes == size && onward.wf(fs)
        }),
{
    fs.lemma_bounds();
    let size = fs.spec_bytes_per_cluster();
    let (next, step) = walk.spec_next(fs);
    let extent = fs.spec_extent(cluster as int, walk.remaining as int);
    assert(step == WalkStep::Extent(extent));
    if walk.remaining <= size {
        assert(next.state == WalkState::Finished);
        assert(next.run(fs, volume) == (Walked { extents: Seq::empty(), failure: None }));
    } else {
        assert(next.state == WalkState::Linking(cluster));
        let (same, ask) = next.spec_next(fs);
        let width = fs.spec_fat_type().spec_entry_width();
        let at = fs.spec_fat_entry_offset(cluster as int);
        assert(at + width <= fs.spec_fat_entry_offset(fs.spec_maximum_valid_cluster()) + width);
        assert(ask == WalkStep::ReadTable { offset: at as u64, len: width as usize });
        assert(same == next);
    }
}

/// What a walk along a sound chain hands out: where the chain from the
/// walk's cluster has a cluster of the volume for each cluster that the
/// wanted bytes take, and the volume has that many clusters left to hand
/// out, the walk ends without failure with one extent per cluster, and the
/// extents hold exactly the wanted bytes.
pub proof fn lemma_sound_chain_is_walked(
    walk: ExtentWalk,
    fs: FileSystem,
    volume: Seq<u8>,
    cluster: u32,
)
    requires
        fs.wf(),
        walk.wf(fs),
        table_readable(fs, volume),
        walk.state == WalkState::At(cluster),
        chain_allocated(fs, volume, cluster, clusters_for(fs, walk.remaining as int) as nat),
        walk.visited + clusters_for(fs, walk.remaining as int) <= fs.spec_count_of_clusters(),
    ensures
        walk.run(fs, volume).failure is None,
        walk.run(fs, volume).extents.len() == clusters_for(fs, walk.remaining as int),
        walk.run(fs, volume).total() == walk.remaining,
    decreases walk.remaining,
{
    fs.lemma_bounds();
    let size = fs.spec_bytes_per_cluster();
    let need = clusters_for(fs, walk.remaining as int);
    if walk.remaining == 0 {
        assert(need == 0) by (nonlinear_arith)
            requires
                need == (0 + size - 1) / size,
                size >= 1,
        ;
        assert(walk.run(fs, volume).extents.len() == 0);
    } else {
        assert(need >= 1) by (nonlinear_arith)
            requires
                need == (walk.remaining + size - 1) / size,
                size >= 1,
                walk.remaining >= 1,
        ;
        lemma_chain_allocated_tail(fs, volume, cluster, need as nat);
        lemma_run_unfold(walk, fs, volume, cluster);
        let extent = fs.spec_extent(cluster as int, walk.remaining as int);
        if walk.remaining <= size {
            assert(need == 1) by (nonlinear_arith)
                requires
                    need == (walk.remaining + size - 1) / size,
                    1 <= walk.remaining <= size,
            ;
            lemma_total_after(Walked { extents: Seq::empty(), failure: None }, extent);
        } else {
            let onward = ExtentWalk {
                state: WalkState::At(fs.spec_fat_entry(volume, cluster as int) as u32),
                remaining: (walk.remaining - size) as u64,
                visited: (walk.visited + 1) as u32,
            };
            assert(clusters_for(fs, onward.remaining as int) == need - 1) by {
                vstd::arithmetic::div_mod::lemma_div_plus_one(walk.remaining - size + size - 1, size);
            }
            lemma_sound_chain_is_walked(
                onward,
                fs,
                volume,
                fs.spec_fat_entry(volume, cluster as int) as u32,
            );
            lemma_total_after(onward.run(fs, volume), extent);
        }
    }
}

/// A chain that does not end is found out: where the chain from the walk's
/// cluster has more clusters of the volume in a row than the volume can
/// still hand out, and the wanted bytes take more clusters than that too,
/// the walk hands out what the volume has left and then fails with
/// `ClusterChainCorrupt`.
pub proof fn lemma_endless_chain_is_corrupt(
    walk: ExtentWalk,
    fs: FileSystem,
    volume: Seq<u8>,
    cluster: u32,
)
    requires
        fs.wf(),
        walk.wf(fs),
        table_readable(fs, volume),
        walk.state == WalkState::At(cluster),
        chain_allocated(
            fs,
            volume,
            cluster,
            (fs.spec_count_of_clusters() - walk.visited + 1) as nat,
        ),
        walk.remaining > (fs.spec_count_of_clusters() - walk.visited)
            * fs.spec_bytes_per_cluster(),
    ensures
        walk.run(fs, volume).failure == Some(LoadError::ClusterChainCorrupt),
        walk.run(fs, volume).extents.len() == fs.spec_count_of_clusters() - walk.visited,
    decreases fs.spec_count_of_clusters() - walk.visited,
{
    fs.lemma_bounds();
    let size = fs.spec_bytes_per_cluster();
    let left = fs.spec_count_of_clusters() - walk.visited;
    assert(left * size >= 0) by (nonlinear_arith)
        requires
            left >= 0,
            size >= 0,
    ;
    lemma_chain_allocated_tail(fs, volume, cluster, (left + 1) as nat);
    if left == 0 {
        assert(walk.run(fs, volume).extents.len() == 0);
    } else {
        assert(left * size >= size && (left - 1) * size == left * size - size)
            by (nonlinear_arith)
            requires
                left >= 1,
                size >= 0,
        ;
        lemma_run_unfold(walk, fs, volume, cluster);
        let extent = fs.spec_extent(cluster as int, walk.remaining as int);
        let onward = ExtentWalk {
            state: WalkState::At(fs.spec_fat_entry(volume, cluster as int) as u32),
            remaining: (walk.remaining - size) as u64,
            visited: (walk.visited + 1) as u32,
        };
        lemma_endless_chain_is_corrupt(
            onward,
            fs,
            volume,
            fs.spec_fat_entry(volume, cluster as int) as u32,
        );
        lemma_total_after(onward.run(fs, volume), extent);
    }
}

/// Extent `i` of a walk along a chain is the `i`-th cluster of the chain,
/// cut to what was still wanted when the walk came to it.
pub proof fn lemma_run_follows_chain(
    walk: ExtentWalk,
    fs: FileSystem,
    volume: Seq<u8>,
    cluster: u32,
    i: nat,
)
    requires
        fs.wf(),
        walk.wf(fs),
        table_readable(fs, volume),
        walk.state == WalkState::At(cluster),
        i < walk.run(fs, volume).extents.len(),
    ensures
        walk.run(fs, volume).extents[i as int] == fs.spec_extent(
            chain_cluster(fs, volume, cluster, i) as int,
            walk.remaining - i * fs.spec_bytes_per_cluster(),
        ),
    decreases i,
{
    fs.lemma_bounds();
    let size = fs.spec_bytes_per_cluster();
    let (next, step) = walk.spec_next(fs);
    assert(step is Extent);
    assert(2 <= cluster <= fs.spec_maximum_valid_cluster());
    lemma_run_unfold(walk, fs, volume, cluster);
    let extent = fs.spec_extent(cluster as int, walk.remaining as int);
    assert(0 * size == 0);
    if walk.remaining <= size {
        lemma_total_after(Walked { extents: Seq::empty(), failure: None }, extent);
    } else {
        let second = fs.spec_fat_entry(volume, cluster as int) as u32;
        let onward = ExtentWalk {
            state: WalkState::At(second),
            remaining: (walk.remaining - size) as u64,
            visited: (walk.visited + 1) as u32,
        };
        lemma_total_after(onward.run(fs, volume), extent);
        if i > 0 {
            lemma_run_follows_chain(onward, fs, volume, second, (i - 1) as nat);
            assert(walk.remaining - i * size == onward.remaining - (i - 1) * size)
                by (nonlinear_arith)
                requires
                    onward.remaining == walk.remaining - size,
            ;
            assert(chain_cluster(fs, volume, cluster, i) == chain_cluster(
                fs,
                volume,
                second,
                (i - 1) as nat,
            ));
            assert(walk.run(fs, volume).extents[i as int] == onward.run(fs, volume).extents[i
                - 1]) by {
                assert(walk.run(fs, volume).extents == seq![extent] + onward.run(
                    fs,
                    volume,
                ).extents);
            }
        }
    }
}

/// What a step of a well-formed walk is like: the walk stays well-formed;
/// an extent that comes out is not empty, lies inside the volume and starts
/// on a boundary of disk sectors; and a
/// table entry that is asked for lies inside the volume too, is as wide as
/// the table format says, and is asked for by a walk that waits for it.
pub proof fn lemma_step_stays_inside(walk: ExtentWalk, fs: FileSystem)
    requires
        fs.wf(),
        walk.wf(fs),
    ensures
        ({
            let (next, step) = walk.spec_next(fs);
            &&& next.wf(fs)
            &&& step matches WalkStep::Extent(extent) ==> 1 <= extent.len_bytes
                && extent.start_offset + extent.len_bytes <= fs.spec_volume_size()
                && extent.start_offset % 512 == 0
            &&& step matches WalkStep::ReadTable { offset, len } ==> {
                &&& walk.state is Linking
                &&& next == walk
                &&& len == fs.spec_fat_type().spec_entry_width()
                &&& offset == fs.spec_fat_entry_offset(walk.state->Linking_0 as int)
                &&& offset + len <= fs.spec_volume_size()
            }
        }),
        forall|bytes: Seq<u8>| (#[trigger] walk.spec_supply(fs, bytes)).wf(fs),
{
    fs.lemma_bounds();
    let size = fs.spec_bytes_per_cluster();
    let count = fs.spec_count_of_clusters();
    match walk.state {
        WalkState::At(number) => {
            fs.lemma_offsets_are_aligned(number as int);
            if walk.remaining > 0 && 2 <= number <= fs.spec_maximum_valid_cluster() && walk.visited
                < count {
                assert((number - 2) * size + size <= count * size) by (nonlinear_arith)
                    requires
                        0 <= number - 2 < count,
                        size >= 0,
                ;
                assert(0 <= (number - 2) * size) by (nonlinear_arith)
                    requires
                        0 <= number - 2,
                        size >= 0,
                ;
            }
        },
        WalkState::Linking(cluster) => {
            fs.lemma_table_inside(cluster as int);
        },
        _ => {},
    }
}

/// Every step brings the end of a walk nearer, whatever bytes it is handed:
/// a step that ends the walk leaves no step to take, and after every other
/// step, and after the bytes it may have asked for, fewer steps are left
/// than before.
pub proof fn lemma_walk_ends(walk: ExtentWalk, fs: FileSystem, bytes: Seq<u8>)
    requires
        fs.wf(),
    ensures
        ({
            let (next, step) = walk.spec_next(fs);
            match step {
                WalkStep::Finished => next.steps_left(fs) == 0,
                WalkStep::Failed(_) => next.steps_left(fs) == 0,
                WalkStep::Extent(_) => next.steps_left(fs) < walk.steps_left(fs),
                WalkStep::ReadTable { .. } => next.spec_supply(fs, bytes).steps_left(fs)
                    < walk.steps_left(fs),
            }
        }),
{
}

/// A walk hands out no more clusters than the volume has.
pub proof fn lemma_run_is_bounded(walk: ExtentWalk, fs: FileSystem, volume: Seq<u8>)
    requires
        fs.wf(),
        walk.wf(fs),
    ensures
        walk.run(fs, volume).extents.len() <= fs.spec_count_of_clusters() - walk.visited + 1,
        !(walk.state is Region) ==> walk.run(fs, volume).extents.len()
            <= fs.spec_count_of_clusters() - walk.visited,
        walk.run(fs, volume).total() <= walk.remaining + (match walk.state {
            WalkState::Region(extent) => extent.len_bytes as int,
            _ => 0,
        }),
    decreases walk.steps_left(fs),
{
    fs.lemma_bounds();
    let (next, step) = walk.spec_next(fs);
    match step {
        WalkStep::Finished => {},
        WalkStep::Failed(_) => {},
        WalkStep::Extent(extent) => {
            lemma_run_is_bounded(next, fs, volume);
            lemma_total_after(next.run(fs, volume), extent);
        },
        WalkStep::ReadTable { offset, len } => {
            if offset + len <= volume.len() {
                lemma_run_is_bounded(
                    next.spec_supply(fs, volume.subrange(offset as int, offset + len)),
                    fs,
                    volume,
                );
            }
        },
    }
}

} // verus!
