use crate::dap::DiskAddressPacket;
use crate::disk::{first_transfer, DiskAccess, SeekFrom, StagingArea, Transfer};
use crate::error::LoadError;
use crate::fat::chain::{ExtentWalk, WalkStep};
use crate::fat::directory::{scan_directory, spec_scan, ShortName};
use crate::fat::volume::FileSystem;
use vstd::prelude::*;

verus! {

/// What the caller is to do next.
#[derive(Clone, Copy, Debug, PartialEq, Eq, Structural)]
pub enum Action {
    /// Lift the 64 KiB limit of the data segment, and answer with any event.
    EnterUnrealMode,
    /// Hand `packet` to the extended read service of disk `disk_number`, and
    /// answer with `Event::Transferred`.
    Transfer { disk_number: u16, packet: DiskAddressPacket },
    /// Copy `len` bytes of the staging area, from `skip` on, to the physical
    /// address `destination`, read the byte at `destination` back, and answer
    /// with `Event::Copied`.
    Copy { destination: u32, skip: usize, len: usize },
    /// A file is loaded: `total` bytes lie at `destination`. While other files
    /// are still to be loaded, any event makes the sequence go on.
    Loaded { destination: u32, total: u64 },
    /// Everything is loaded: switch to protected mode and jump to `entry`.
    /// Nothing comes back from there.
    Jump { entry: u32 },
    /// Loading failed. The caller halts.
    Halt(LoadError),
}

/// What the caller reports back.
#[derive(Clone, Copy, Debug)]
pub enum Event<'a> {
    /// Nothing yet: the first step.
    Begin,
    /// The transfer was made: the status that the BIOS returned, and what the
    /// staging area now holds.
    Transferred { status: u8, staging: &'a [u8] },
    /// The copy was made: the byte that was read back from its destination.
    Copied { readback: u8 },
}

/// What an event says, as plain values.
pub enum EventView {
    Begin,
    Transferred { status: u8, staging: Seq<u8> },
    Copied { readback: u8 },
}

impl<'a> View for Event<'a> {
    type V = EventView;

    open spec fn view(&self) -> EventView {
        match *self {
            Event::Begin => EventView::Begin,
            Event::Transferred { status, staging } => EventView::Transferred {
                status,
                staging: staging@,
            },
            Event::Copied { readback } => EventView::Copied { readback },
        }
    }
}

/// What the loader of one file is busy with.
#[derive(Clone, Copy, Debug, PartialEq, Eq, Structural)]
pub enum LoaderState {
    /// It looks for the file in the root directory.
    Searching,
    /// It loads the file's data.
    Loading,
    /// The file is loaded.
    Done,
    /// Loading failed.
    Failed(LoadError),
}

/// What the loader has asked the caller for and not yet got.
#[derive(Clone, Copy, Debug, PartialEq, Eq, Structural)]
pub enum Pending {
    Nothing,
    /// A transfer that delivers bytes of the table.
    Table(Transfer),
    /// A transfer that delivers bytes of the directory or of the file.
    Chunk(Transfer),
    /// A copy to high memory; `canary` is the first byte that was to be
    /// copied.
    Copy { destination: u32, skip: usize, len: usize, canary: u8 },
}

/// The loading of one file, from the lookup of its name to the last byte at
/// its destination. It decides; the caller acts.
#[derive(Clone, Copy, Debug)]
pub struct FileLoader {
    /// The name that is looked for.
    pub name: ShortName,
    /// Where the first byte of the file goes.
    pub destination: u32,
    /// Where the region ends that the file may fill.
    pub limit: u64,
    pub state: LoaderState,
    /// The walk over the root directory while searching, then over the file.
    pub walk: ExtentWalk,
    /// Where the part of the current extent that was not yet read starts.
    pub offset: u64,
    /// How long that part is.
    pub left: u32,
    pub pending: Pending,
    /// Bytes of the file that lie at their destination.
    pub loaded: u64,
}

/// The first physical address that 32 bits cannot name.
pub const ADDRESS_SPACE_END: u64 = 0x1_0000_0000;

impl FileLoader {
    /// What has been loaded ends inside the region of the file, the region
    /// ends inside the 32-bit address space, and the walk is well-formed.
    pub open spec fn wf(self, fs: FileSystem) -> bool {
        &&& self.destination + self.loaded <= self.limit <= ADDRESS_SPACE_END
        &&& self.walk.wf(fs)
    }

    /// The loader at its start: it searches the root directory of `fs` for
    /// `name`, to load the file to `destination`, into a region that ends at
    /// `limit`.
    pub open spec fn spec_new(fs: FileSystem, name: ShortName, destination: u32, limit: u64) -> FileLoader {
        FileLoader {
            name,
            destination,
            limit,
            state: LoaderState::Searching,
            walk: fs.spec_root_directory(),
            offset: 0,
            left: 0,
            pending: Pending::Nothing,
            loaded: 0,
        }
    }

    /// The loader after it failed with `e`.
    pub open spec fn spec_fail(self, disk: DiskAccess, e: LoadError) -> (
        FileLoader,
        DiskAccess,
        Action,
    ) {
        (
            FileLoader { state: LoaderState::Failed(e), pending: Pending::Nothing, ..self },
            disk,
            Action::Halt(e),
        )
    }

    /// The transfer that reads at `offset` of the volume as many of `n` bytes
    /// as one transfer delivers, if the read can be addressed.
    pub open spec fn spec_plan(disk: DiskAccess, staging: StagingArea, offset: u64, n: int) -> Option<
        Transfer,
    > {
        if 0 < n && disk.base_offset + offset + n <= u64::MAX {
            Some(first_transfer(disk.base_offset + offset, n, staging))
        } else {
            None
        }
    }

    /// The loader asks for the next piece of the current extent.
    pub open spec fn spec_read(self, disk: DiskAccess, staging: StagingArea) -> (
        FileLoader,
        DiskAccess,
        Action,
    ) {
        match Self::spec_plan(disk, staging, self.offset, self.left as int) {
            Some(transfer) => (
                FileLoader {
                    offset: (self.offset + transfer.len) as u64,
                    left: (self.left - transfer.len) as u32,
                    pending: Pending::Chunk(transfer),
                    ..self
                },
                DiskAccess { current_offset: (self.offset + transfer.len) as u64, ..disk },
                Action::Transfer { disk_number: disk.disk_number, packet: transfer.packet },
            ),
            None => self.spec_fail(
                DiskAccess { current_offset: self.offset, ..disk },
                LoadError::DiskReadError,
            ),
        }
    }

    /// The loader goes on when nothing is pending: with the rest of the
    /// current extent if there is one, else with the next step of its walk.
    /// When the walk is over, a search has failed with `FileNotFound`, and a
    /// load is done.
    pub open spec fn spec_advance(self, fs: FileSystem, disk: DiskAccess, staging: StagingArea) -> (
        FileLoader,
        DiskAccess,
        Action,
    ) {
        if self.left > 0 {
            self.spec_read(disk, staging)
        } else {
            let (walk, step) = self.walk.spec_next(fs);
            let stepped = FileLoader { walk, ..self };
            match step {
                WalkStep::Extent(extent) => (FileLoader {
                    offset: extent.start_offset,
                    left: extent.len_bytes,
                    ..stepped
                }).spec_read(disk, staging),
                WalkStep::ReadTable { offset, len } => match Self::spec_plan(
                    disk,
                    staging,
                    offset,
                    len as int,
                ) {
                    Some(transfer) => (
                        FileLoader { pending: Pending::Table(transfer), ..stepped },
                        DiskAccess { current_offset: (offset + transfer.len) as u64, ..disk },
                        Action::Transfer { disk_number: disk.disk_number, packet: transfer.packet },
                    ),
                    None => stepped.spec_fail(
                        DiskAccess { current_offset: offset, ..disk },
                        LoadError::DiskReadError,
                    ),
                },
                WalkStep::Finished => if stepped.state is Searching {
                    stepped.spec_fail(disk, LoadError::FileNotFound)
                } else {
                    (
                        FileLoader { state: LoaderState::Done, ..stepped },
                        disk,
                        Action::Loaded { destination: stepped.destination, total: stepped.loaded },
                    )
                },
                WalkStep::Failed(e) => stepped.spec_fail(disk, e),
            }
        }
    }

    /// The action that asks again for what is pending.
    pub open spec fn spec_again(self, disk: DiskAccess) -> Action {
        match self.pending {
            Pending::Nothing => Action::Halt(LoadError::DiskReadError),
            Pending::Table(transfer) => Action::Transfer {
                disk_number: disk.disk_number,
                packet: transfer.packet,
            },
            Pending::Chunk(transfer) => Action::Transfer {
                disk_number: disk.disk_number,
                packet: transfer.packet,
            },
            Pending::Copy { destination, skip, len, canary } => Action::Copy {
                destination,
                skip,
                len,
            },
        }
    }

    /// The bytes that a transfer has delivered, if the BIOS reported success
    /// and the staging area holds them.
    pub open spec fn spec_payload(transfer: Transfer, status: u8, staging: Seq<u8>) -> Option<
        Seq<u8>,
    > {
        if status == 0 && transfer.skip + transfer.len <= staging.len() {
            Some(staging.subrange(transfer.skip as int, transfer.skip + transfer.len))
        } else {
            None
        }
    }

    /// The loader takes the bytes of a piece of the directory or of the file.
    ///
    /// While searching, it looks through them for the name; when it finds
    /// the file it turns to loading it. While loading, it asks for the bytes
    /// to be copied behind what is loaded already, unless they would end
    /// beyond the region of the file: that is a
    /// `HighMemoryVerificationMismatch`.
    pub open spec fn spec_take_chunk(
        self,
        fs: FileSystem,
        disk: DiskAccess,
        staging: StagingArea,
        transfer: Transfer,
        bytes: Seq<u8>,
    ) -> (FileLoader, DiskAccess, Action) {
        let taken = FileLoader { pending: Pending::Nothing, ..self };
        if self.state is Searching {
            match spec_scan(self.name, bytes) {
                Some(entry) => (FileLoader {
                    state: LoaderState::Loading,
                    walk: fs.spec_file_clusters(entry),
                    left: 0,
                    ..taken
                }).spec_advance(fs, disk, staging),
                None => taken.spec_advance(fs, disk, staging),
            }
        } else if self.destination + self.loaded + transfer.len > self.limit {
            taken.spec_fail(disk, LoadError::HighMemoryVerificationMismatch)
        } else {
            (
                FileLoader {
                    pending: Pending::Copy {
                        destination: (self.destination + self.loaded) as u32,
                        skip: transfer.skip,
                        len: transfer.len,
                        canary: bytes[0],
                    },
                    ..self
                },
                disk,
                Action::Copy {
                    destination: (self.destination + self.loaded) as u32,
                    skip: transfer.skip,
                    len: transfer.len,
                },
            )
        }
    }

    /// The loader after `event`, the disk cursor after it, and what the
    /// caller is to do next.
    ///
    /// A loader that is done or has failed says so again. With nothing
    /// pending it goes on. An event that does not answer what is pending
    /// gets the same request again. A transfer that the BIOS reports as
    /// failed, or whose bytes the staging area does not hold, is a
    /// `DiskReadError`. Table bytes go to the walk; directory and file bytes
    /// are taken as `spec_take_chunk` says; a byte read back that is not the
    /// first byte copied is a `HighMemoryVerificationMismatch`, and otherwise
    /// the copied bytes count as loaded.
    pub open spec fn spec_step(
        self,
        fs: FileSystem,
        disk: DiskAccess,
        staging: StagingArea,
        event: EventView,
    ) -> (FileLoader, DiskAccess, Action) {
        match self.state {
            LoaderState::Done => (
                self,
                disk,
                Action::Loaded { destination: self.destination, total: self.loaded },
            ),
            LoaderState::Failed(e) => (self, disk, Action::Halt(e)),
            _ => match (self.pending, event) {
                (Pending::Nothing, _) => self.spec_advance(fs, disk, staging),
                (Pending::Table(transfer), EventView::Transferred { status, staging: area }) => {
                    match Self::spec_payload(transfer, status, area) {
                        Some(bytes) => (FileLoader {
                            walk: self.walk.spec_supply(fs, bytes),
                            pending: Pending::Nothing,
                            ..self
                        }).spec_advance(fs, disk, staging),
                        None => self.spec_fail(disk, LoadError::DiskReadError),
                    }
                },
                (Pending::Chunk(transfer), EventView::Transferred { status, staging: area }) => {
                    match Self::spec_payload(transfer, status, area) {
                        Some(bytes) => self.spec_take_chunk(fs, disk, staging, transfer, bytes),
                        None => self.spec_fail(disk, LoadError::DiskReadError),
                    }
                },
                (Pending::Copy { destination, skip, len, canary }, EventView::Copied { readback }) => {
                    if readback != canary {
                        self.spec_fail(disk, LoadError::HighMemoryVerificationMismatch)
                    } else {
                        (FileLoader {
                            loaded: (self.loaded + len) as u64,
                            pending: Pending::Nothing,
                            ..self
                        }).spec_advance(fs, disk, staging)
                    }
                },
                _ => (self, disk, self.spec_again(disk)),
            },
        }
    }

    /// Starts the loading of the file `name` of the volume `fs` to
    /// `destination`, into a region that ends at `limit`.
    pub fn new(fs: &FileSystem, name: ShortName, destination: u32, limit: u64) -> (loader:
        FileLoader)
        requires
            fs.wf(),
            destination <= limit <= ADDRESS_SPACE_END,
        ensures
            loader == Self::spec_new(*fs, name, destination, limit),
            loader.wf(*fs),
            loader.pending is Nothing,
    {
        FileLoader {
            name,
            destination,
            limit,
            state: LoaderState::Searching,
            walk: fs.root_directory(),
            offset: 0,
            left: 0,
            pending: Pending::Nothing,
            loaded: 0,
        }
    }

    /// Fails with `e`.
    fn fail(&mut self, disk: &DiskAccess, e: LoadError) -> (action: Action)
        ensures
            (*final(self), *disk, action) == old(self).spec_fail(*disk, e),
            final(self).walk == old(self).walk,
            final(self).destination == old(self).destination,
            final(self).limit == old(self).limit,
            final(self).loaded == old(self).loaded,
            final(self).pending is Nothing,
            final(self).answers(*disk, action),
    {
        self.state = LoaderState::Failed(e);
        self.pending = Pending::Nothing;
        Action::Halt(e)
    }

    /// Plans the transfer that reads at `offset` of the volume as many of
    /// `n` bytes as one transfer delivers.
    fn plan(disk: &mut DiskAccess, staging: &StagingArea, offset: u64, n: usize) -> (r: Option<
        Transfer,
    >)
        requires
            staging.wf(),
        ensures
            r == Self::spec_plan(*old(disk), *staging, offset, n as int),
            final(disk).disk_number == old(disk).disk_number,
            final(disk).base_offset == old(disk).base_offset,
            r matches Some(transfer) ==> final(disk).current_offset == offset + transfer.len
                && transfer.fits(*staging) && transfer.len <= n,
            r is None ==> final(disk).current_offset == offset,
    {
        disk.seek(SeekFrom::Start(offset));
        match disk.read_chunk(n, staging) {
            Ok(transfer) => Some(transfer),
            Err(_) => None,
        }
    }

    /// Asks for the next piece of the current extent.
    fn read(&mut self, disk: &mut DiskAccess, staging: &StagingArea) -> (action: Action)
        requires
            staging.wf(),
        ensures
            (*final(self), *final(disk), action) == old(self).spec_read(*old(disk), *staging),
            final(self).walk == old(self).walk,
            final(self).destination == old(self).destination,
            final(self).limit == old(self).limit,
            final(self).loaded == old(self).loaded,
            final(self).pending_fits(*staging),
            final(self).answers(*old(disk), action),
    {
        match Self::plan(disk, staging, self.offset, self.left as usize) {
            Some(transfer) => {
                self.offset = self.offset + transfer.len as u64;
                self.left = self.left - transfer.len as u32;
                self.pending = Pending::Chunk(transfer);
                Action::Transfer { disk_number: disk.disk_number, packet: transfer.packet }
            },
            None => self.fail(disk, LoadError::DiskReadError),
        }
    }

    /// Goes on when nothing is pending.
    fn advance(&mut self, fs: &FileSystem, disk: &mut DiskAccess, staging: &StagingArea) -> (action:
        Action)
        requires
            fs.wf(),
            staging.wf(),
            old(self).pending is Nothing,
        ensures
            (*final(self), *final(disk), action) == old(self).spec_advance(
                *fs,
                *old(disk),
                *staging,
            ),
            old(self).wf(*fs) ==> final(self).wf(*fs),
            final(self).pending_fits(*staging),
            final(self).destination == old(self).destination,
            final(self).limit == old(self).limit,
            final(self).loaded == old(self).loaded,
            final(self).answers(*old(disk), action),
    {
        if self.left > 0 {
            return self.read(disk, staging);
        }
        match self.walk.next(fs) {
            WalkStep::Extent(extent) => {
                self.offset = extent.start_offset;
                self.left = extent.len_bytes;
                self.read(disk, staging)
            },
            WalkStep::ReadTable { offset, len } => {
                match Self::plan(disk, staging, offset, len) {
                    Some(transfer) => {
                        self.pending = Pending::Table(transfer);
                        Action::Transfer { disk_number: disk.disk_number, packet: transfer.packet }
                    },
                    None => self.fail(disk, LoadError::DiskReadError),
                }
            },
            WalkStep::Finished => {
                match self.state {
                    LoaderState::Searching => self.fail(disk, LoadError::FileNotFound),
                    _ => {
                        self.state = LoaderState::Done;
                        Action::Loaded { destination: self.destination, total: self.loaded }
                    },
                }
            },
            WalkStep::Failed(e) => self.fail(disk, e),
        }
    }

    /// Asks again for what is pending.
    fn again(&self, disk: &DiskAccess) -> (action: Action)
        ensures
            action == self.spec_again(*disk),
            self.answers(*disk, action),
    {
        match self.pending {
            Pending::Nothing => Action::Halt(LoadError::DiskReadError),
            Pending::Table(transfer) => Action::Transfer {
                disk_number: disk.disk_number,
                packet: transfer.packet,
            },
            Pending::Chunk(transfer) => Action::Transfer {
                disk_number: disk.disk_number,
                packet: transfer.packet,
            },
            Pending::Copy { destination, skip, len, canary } => Action::Copy {
                destination,
                skip,
                len,
            },
        }
    }

    /// The bytes that a transfer has delivered, if the BIOS reported success
    /// and the staging area holds them.
    fn payload<'a>(transfer: &Transfer, status: u8, staging: &'a [u8]) -> (r: Option<&'a [u8]>)
        ensures
            match r {
                Some(bytes) => Some(bytes@),
                None => None,
            } == Self::spec_payload(*transfer, status, staging@),
    {
        if status == 0 && transfer.skip <= staging.len() && transfer.len <= staging.len()
            - transfer.skip {
            Some(vstd::slice::slice_subrange(staging, transfer.skip, transfer.skip + transfer.len))
        } else {
            None
        }
    }

    /// Takes the bytes of a piece of the directory or of the file.
    fn take_chunk(
        &mut self,
        fs: &FileSystem,
        disk: &mut DiskAccess,
        staging: &StagingArea,
        transfer: Transfer,
        bytes: &[u8],
    ) -> (action: Action)
        requires
            fs.wf(),
            staging.wf(),
            old(self).wf(*fs),
            bytes@.len() == transfer.len,
            transfer.fits(*staging),
        ensures
            (*final(self), *final(disk), action) == old(self).spec_take_chunk(
                *fs,
                *old(disk),
                *staging,
                transfer,
                bytes@,
            ),
            final(self).wf(*fs),
            final(self).pending_fits(*staging),
            final(self).destination == old(self).destination,
            final(self).limit == old(self).limit,
            final(self).loaded == old(self).loaded,
            final(self).answers(*old(disk), action),
    {
        match self.state {
            LoaderState::Searching => {
                self.pending = Pending::Nothing;
                match scan_directory(bytes, &self.name) {
                    Some(entry) => {
                        self.state = LoaderState::Loading;
                        self.walk = fs.file_clusters(&entry);
                        self.left = 0;
                        self.advance(fs, disk, staging)
                    },
                    None => self.advance(fs, disk, staging),
                }
            },
            _ => {
                if self.destination as u64 + self.loaded + transfer.len as u64 > self.limit {
                    self.pending = Pending::Nothing;
                    self.fail(disk, LoadError::HighMemoryVerificationMismatch)
                } else {
                    let destination = (self.destination as u64 + self.loaded) as u32;
                    self.pending = Pending::Copy {
                        destination,
                        skip: transfer.skip,
                        len: transfer.len,
                        canary: bytes[0],
                    };
                    Action::Copy { destination, skip: transfer.skip, len: transfer.len }
                }
            },
        }
    }

    /// Takes the caller's report and says what to do next.
    pub fn step(
        &mut self,
        fs: &FileSystem,
        disk: &mut DiskAccess,
        staging: &StagingArea,
        event: Event<'_>,
    ) -> (action: Action)
        requires
            fs.wf(),
            staging.wf(),
            old(self).wf(*fs),
            old(self).pending_fits(*staging),
        ensures
            (*final(self), *final(disk), action) == old(self).spec_step(
                *fs,
                *old(disk),
                *staging,
                event@,
            ),
            final(self).wf(*fs),
            final(self).pending_fits(*staging),
            final(self).destination == old(self).destination,
            final(self).limit == old(self).limit,
            action matches Action::Transfer { disk_number, packet } ==> {
                &&& disk_number == old(disk).disk_number
                &&& 1 <= packet.number_of_sectors
                &&& packet.byte_count() <= staging.capacity
                &&& packet.target() == staging.address
            },
            action matches Action::Copy { destination, skip, len } ==> {
                &&& destination == old(self).destination + final(self).loaded
                &&& destination + len <= old(self).limit
                &&& 1 <= len
                &&& skip + len <= staging.capacity
            },
            !(action is EnterUnrealMode) && !(action is Jump),
    {
        match self.state {
            LoaderState::Done => {
                return Action::Loaded { destination: self.destination, total: self.loaded };
            },
            LoaderState::Failed(e) => {
                return Action::Halt(e);
            },
            _ => {},
        }
        match (self.pending, event) {
            (Pending::Nothing, _) => self.advance(fs, disk, staging),
            (Pending::Table(transfer), Event::Transferred { status, staging: area }) => {
                self.take_table(fs, disk, staging, transfer, status, area)
            },
            (Pending::Chunk(transfer), Event::Transferred { status, staging: area }) => {
                match Self::payload(&transfer, status, area) {
                    Some(bytes) => self.take_chunk(fs, disk, staging, transfer, bytes),
                    None => self.fail(disk, LoadError::DiskReadError),
                }
            },
            (Pending::Copy { destination, skip, len, canary }, Event::Copied { readback }) => {
                self.take_readback(fs, disk, staging, len, canary, readback)
            },
            _ => self.again(disk),
        }
    }

    /// Takes the report of the transfer of a table entry.
    fn take_table(
        &mut self,
        fs: &FileSystem,
        disk: &mut DiskAccess,
        staging: &StagingArea,
        transfer: Transfer,
        status: u8,
        area: &[u8],
    ) -> (action: Action)
        requires
            fs.wf(),
            staging.wf(),
            old(self).wf(*fs),
        ensures
            (*final(self), *final(disk), action) == (match Self::spec_payload(
                transfer,
                status,
                area@,
            ) {
                Some(bytes) => (FileLoader {
                    walk: old(self).walk.spec_supply(*fs, bytes),
                    pending: Pending::Nothing,
                    ..*old(self)
                }).spec_advance(*fs, *old(disk), *staging),
                None => old(self).spec_fail(*old(disk), LoadError::DiskReadError),
            }),
            final(self).wf(*fs),
            final(self).pending_fits(*staging),
            final(self).destination == old(self).destination,
            final(self).limit == old(self).limit,
            final(self).answers(*old(disk), action),
    {
        match Self::payload(&transfer, status, area) {
            Some(bytes) => {
                self.walk.supply(fs, bytes);
                self.pending = Pending::Nothing;
                self.advance(fs, disk, staging)
            },
            None => self.fail(disk, LoadError::DiskReadError),
        }
    }

    /// Takes the byte that was read back after a copy.
    fn take_readback(
        &mut self,
        fs: &FileSystem,
        disk: &mut DiskAccess,
        staging: &StagingArea,
        len: usize,
        canary: u8,
        readback: u8,
    ) -> (action: Action)
        requires
            fs.wf(),
            staging.wf(),
            old(self).wf(*fs),
            old(self).destination + old(self).loaded + len <= old(self).limit,
        ensures
            (*final(self), *final(disk), action) == (if readback != canary {
                old(self).spec_fail(*old(disk), LoadError::HighMemoryVerificationMismatch)
            } else {
                (FileLoader {
                    loaded: (old(self).loaded + len) as u64,
                    pending: Pending::Nothing,
                    ..*old(self)
                }).spec_advance(*fs, *old(disk), *staging)
            }),
            final(self).wf(*fs),
            final(self).pending_fits(*staging),
            final(self).destination == old(self).destination,
            final(self).limit == old(self).limit,
            final(self).answers(*old(disk), action),
    {
        if readback != canary {
            self.fail(disk, LoadError::HighMemoryVerificationMismatch)
        } else {
            self.loaded = self.loaded + len as u64;
            self.pending = Pending::Nothing;
            self.advance(fs, disk, staging)
        }
    }

    /// The action is the one that asks for what is pending, and neither
    /// enters unreal mode nor jumps.
    pub open spec fn answers(self, disk: DiskAccess, action: Action) -> bool {
        match action {
            Action::Transfer { disk_number, packet } => {
                &&& disk_number == disk.disk_number
                &&& (self.pending matches Pending::Table(transfer) && transfer.packet == packet)
                    || (self.pending matches Pending::Chunk(transfer) && transfer.packet
                    == packet)
            },
            Action::Copy { destination, skip, len } => self.pending == (Pending::Copy {
                destination,
                skip,
                len,
                canary: self.pending->canary,
            }),
            Action::EnterUnrealMode => false,
            Action::Jump { .. } => false,
            _ => true,
        }
    }

    /// What is pending fits the staging area, and a pending copy lies behind
    /// what is loaded and ends inside the region of the file.
    pub open spec fn pending_fits(self, staging: StagingArea) -> bool {
        match self.pending {
            Pending::Nothing => true,
            Pending::Table(transfer) => transfer.fits(staging),
            Pending::Chunk(transfer) => transfer.fits(staging),
            Pending::Copy { destination, skip, len, canary } => {
                &&& destination == self.destination + self.loaded
                &&& destination + len <= self.limit
                &&& 1 <= len
                &&& skip + len <= staging.capacity
            },
        }
    }
}

} // verus!
