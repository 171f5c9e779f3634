use crate::dap::LOW_MEMORY_END;
use crate::disk::{DiskAccess, StagingArea, Transfer};
use crate::error::LoadError;
use crate::fat::directory::ShortName;
use crate::fat::volume::FileSystem;
use crate::loader::{Action, Event, EventView, FileLoader, ADDRESS_SPACE_END};
use crate::partition::{locate_fat_partition, spec_locate_fat_partition};
use vstd::prelude::*;

verus! {

/// Where the third stage goes: 1 MiB.
pub const STAGE_3_DST: u32 = 0x0010_0000;

/// Where the kernel goes: 16 MiB.
pub const KERNEL_DST: u32 = 0x0100_0000;

/// The number of files that are loaded.
pub const FILE_COUNT: u8 = 3;

/// What a boot needs to know beforehand.
#[derive(Clone, Copy, Debug)]
pub struct BootConfig {
    /// The low-memory region that the BIOS transfers land in.
    pub staging: StagingArea,
    /// The name of the third stage.
    pub stage_3_name: ShortName,
    /// The name of the fourth stage.
    pub stage_4_name: ShortName,
    /// The name of the kernel.
    pub kernel_name: ShortName,
    /// Where the third stage goes. The fourth follows it on the next sector
    /// boundary.
    pub stage_3_dst: u32,
    /// Where the kernel goes; also where the region of the stages ends.
    pub kernel_dst: u32,
}

impl BootConfig {
    /// The staging area is well-formed, and the destinations lie above low
    /// memory, the stages before the kernel.
    pub open spec fn wf(self) -> bool {
        &&& self.staging.wf()
        &&& LOW_MEMORY_END <= self.stage_3_dst <= self.kernel_dst
    }

    /// The name of file `index`: third stage, fourth stage, kernel.
    pub open spec fn spec_name(self, index: u8) -> ShortName {
        if index == 0 {
            self.stage_3_name
        } else if index == 1 {
            self.stage_4_name
        } else {
            self.kernel_name
        }
    }

    /// Where the region ends that file `index` may fill: the stages end
    /// where the kernel starts, the kernel where the address space ends.
    pub open spec fn spec_region_end(self, index: u8) -> u64 {
        if index < 2 {
            self.kernel_dst as u64
        } else {
            ADDRESS_SPACE_END
        }
    }

    /// Where the region starts that file `index` may fill.
    pub open spec fn spec_region_start(self, index: u8) -> u64 {
        if index < 2 {
            self.stage_3_dst as u64
        } else {
            self.kernel_dst as u64
        }
    }

    /// The configuration with the third stage at 1 MiB and the kernel at
    /// 16 MiB.
    pub fn new(
        staging: StagingArea,
        stage_3_name: ShortName,
        stage_4_name: ShortName,
        kernel_name: ShortName,
    ) -> (config: BootConfig)
        ensures
            config == (BootConfig {
                staging,
                stage_3_name,
                stage_4_name,
                kernel_name,
                stage_3_dst: STAGE_3_DST,
                kernel_dst: KERNEL_DST,
            }),
            staging.wf() ==> config.wf(),
    {
        BootConfig {
            staging,
            stage_3_name,
            stage_4_name,
            kernel_name,
            stage_3_dst: STAGE_3_DST,
            kernel_dst: KERNEL_DST,
        }
    }

    /// Whether the configuration is well-formed.
    #[verifier::when_used_as_spec(wf)]
    pub fn is_well_formed(self) -> (b: bool)
        ensures
            b == self.wf(),
    {
        let staging = StagingArea::new(self.staging.address, self.staging.capacity);
        staging.is_some() && LOW_MEMORY_END <= self.stage_3_dst && self.stage_3_dst
            <= self.kernel_dst
    }

    /// The name of file `index`.
    #[verifier::when_used_as_spec(spec_name)]
    pub fn name(self, index: u8) -> (name: ShortName)
        ensures
            name == self.spec_name(index),
    {
        if index == 0 {
            self.stage_3_name
        } else if index == 1 {
            self.stage_4_name
        } else {
            self.kernel_name
        }
    }

    /// Where the region ends that file `index` may fill.
    #[verifier::when_used_as_spec(spec_region_end)]
    pub fn region_end(self, index: u8) -> (end: u64)
        ensures
            end == self.spec_region_end(index),
    {
        if index < 2 {
            self.kernel_dst as u64
        } else {
            ADDRESS_SPACE_END
        }
    }
}

/// The next sector boundary at or behind `address`.
pub open spec fn spec_align_up(address: u64) -> u64 {
    ((address + 511) / 512 * 512) as u64
}

/// The next sector boundary at or behind `address`.
#[verifier::when_used_as_spec(spec_align_up)]
pub fn align_up(address: u64) -> (aligned: u64)
    requires
        address <= ADDRESS_SPACE_END,
    ensures
        aligned == spec_align_up(address),
        aligned % 512 == 0,
        address <= aligned < address + 512,
{
    (address + 511) / 512 * 512
}

/// How far a boot has come.
#[derive(Clone, Copy, Debug)]
pub enum BootPhase {
    /// Nothing was done yet.
    Start,
    /// The caller was asked to enter unreal mode.
    UnrealMode,
    /// The boot sector of the FAT partition was asked for.
    BootSector(Transfer),
    /// File `index` is being loaded from the volume `fs`.
    Files { index: u8, fs: FileSystem, loader: FileLoader },
    /// File `index` was reported as loaded; it ends at `end`.
    Reported { index: u8, fs: FileSystem, end: u64 },
    /// The caller was told to jump.
    Jumped,
    /// The boot failed.
    Halted(LoadError),
}

/// The whole second stage as a sequence of decisions: enter unreal mode,
/// find the FAT partition, read its boot sector, load the three files in
/// their order, jump.
#[derive(Clone, Copy, Debug)]
pub struct BootSequence {
    pub config: BootConfig,
    /// The BIOS drive number that the first stage handed over.
    pub disk_number: u16,
    /// The raw partition table that the first stage handed over.
    pub partition_table: [u8; 64],
    /// The read cursor over the FAT partition, once that is found.
    pub disk: DiskAccess,
    pub phase: BootPhase,
}

impl BootSequence {
    /// The configuration is well-formed, the cursor is one over the disk
    /// that is booted from, what is pending fits the staging area, and the
    /// file that is being loaded stays inside its region.
    pub open spec fn wf(self) -> bool {
        &&& self.config.wf()
        &&& self.disk.disk_number == self.disk_number
        &&& match self.phase {
            BootPhase::BootSector(transfer) => transfer.fits(self.config.staging),
            BootPhase::Files { index, fs, loader } => {
                &&& index < FILE_COUNT
                &&& fs.wf()
                &&& loader.wf(fs)
                &&& loader.pending_fits(self.config.staging)
                &&& self.config.spec_region_start(index) <= loader.destination
                &&& loader.limit == self.config.spec_region_end(index)
            },
            BootPhase::Reported { index, fs, end } => {
                &&& index < FILE_COUNT
                &&& fs.wf()
                &&& self.config.spec_region_start(index) <= end <= self.config.spec_region_end(
                    index,
                )
            },
            _ => true,
        }
    }

    /// The sequence at its start.
    pub open spec fn spec_new(config: BootConfig, disk_number: u16, partition_table: [u8; 64]) -> BootSequence {
        BootSequence {
            config,
            disk_number,
            partition_table,
            disk: DiskAccess { disk_number, base_offset: 0, current_offset: 0 },
            phase: BootPhase::Start,
        }
    }

    /// The sequence after it failed with `e`.
    pub open spec fn spec_halt(self, e: LoadError) -> (BootSequence, Action) {
        (BootSequence { phase: BootPhase::Halted(e), ..self }, Action::Halt(e))
    }

    /// The sequence after the loader of file `index` has taken a step: a
    /// loaded file is reported, a failure halts the boot, and every other
    /// action is passed on.
    pub open spec fn spec_forward(
        self,
        index: u8,
        fs: FileSystem,
        loader: FileLoader,
        disk: DiskAccess,
        action: Action,
    ) -> (BootSequence, Action) {
        match action {
            Action::Loaded { destination, total } => (
                BootSequence {
                    disk,
                    phase: BootPhase::Reported { index, fs, end: (destination + total) as u64 },
                    ..self
                },
                action,
            ),
            Action::Halt(e) => (BootSequence { disk, phase: BootPhase::Halted(e), ..self }, action),
            _ => (BootSequence { disk, phase: BootPhase::Files { index, fs, loader }, ..self }, action),
        }
    }

    /// The sequence turns to file `index`, which goes to `destination`.
    pub open spec fn spec_begin_file(self, index: u8, fs: FileSystem, destination: u32) -> (
        BootSequence,
        Action,
    ) {
        let (loader, disk, action) = FileLoader::spec_new(
            fs,
            self.config.spec_name(index),
            destination,
            self.config.spec_region_end(index),
        ).spec_step(fs, self.disk, self.config.staging, EventView::Begin);
        self.spec_forward(index, fs, loader, disk, action)
    }

    /// The sequence finds the FAT partition and asks for its boot sector.
    pub open spec fn spec_open_partition(self) -> (BootSequence, Action) {
        match spec_locate_fat_partition(self.partition_table@) {
            Err(e) => self.spec_halt(e),
            Ok(partition) => {
                let disk = DiskAccess {
                    disk_number: self.disk_number,
                    base_offset: (partition.logical_block_address * 512) as u64,
                    current_offset: 0,
                };
                match FileLoader::spec_plan(disk, self.config.staging, 0, 512) {
                    Some(transfer) => (
                        BootSequence {
                            disk: DiskAccess { current_offset: transfer.len as u64, ..disk },
                            phase: BootPhase::BootSector(transfer),
                            ..self
                        },
                        Action::Transfer { disk_number: self.disk_number, packet: transfer.packet },
                    ),
                    None => (BootSequence { disk, ..self }).spec_halt(LoadError::DiskReadError),
                }
            },
        }
    }

    /// The sequence goes on after file `index`, which ends at `end`, was
    /// reported: the fourth stage goes to the next sector boundary behind
    /// the third, and it is a `HighMemoryVerificationMismatch` if that lies
    /// behind the start of the kernel; the kernel goes to its fixed place;
    /// after the kernel comes the jump to the third stage.
    pub open spec fn spec_next_file(self, index: u8, fs: FileSystem, end: u64) -> (
        BootSequence,
        Action,
    ) {
        if index == 0 {
            if spec_align_up(end) > self.config.kernel_dst {
                self.spec_halt(LoadError::HighMemoryVerificationMismatch)
            } else {
                self.spec_begin_file(1, fs, spec_align_up(end) as u32)
            }
        } else if index == 1 {
            self.spec_begin_file(2, fs, self.config.kernel_dst)
        } else {
            (
                BootSequence { phase: BootPhase::Jumped, ..self },
                Action::Jump { entry: self.config.stage_3_dst },
            )
        }
    }

    /// The sequence after `event`, and what the caller is to do next.
    pub open spec fn spec_step(self, event: EventView) -> (BootSequence, Action) {
        match self.phase {
            BootPhase::Start => (
                BootSequence { phase: BootPhase::UnrealMode, ..self },
                Action::EnterUnrealMode,
            ),
            BootPhase::UnrealMode => self.spec_open_partition(),
            BootPhase::BootSector(transfer) => match event {
                EventView::Transferred { status, staging } => match FileLoader::spec_payload(
                    transfer,
                    status,
                    staging,
                ) {
                    None => self.spec_halt(LoadError::DiskReadError),
                    Some(sector) => if sector.len() >= 512 && FileSystem::decode(sector).wf() {
                        self.spec_begin_file(0, FileSystem::decode(sector), self.config.stage_3_dst)
                    } else {
                        self.spec_halt(LoadError::InvalidBootSector)
                    },
                },
                _ => (
                    self,
                    Action::Transfer { disk_number: self.disk_number, packet: transfer.packet },
                ),
            },
            BootPhase::Files { index, fs, loader } => {
                let (stepped, disk, action) = loader.spec_step(
                    fs,
                    self.disk,
                    self.config.staging,
                    event,
                );
                self.spec_forward(index, fs, stepped, disk, action)
            },
            BootPhase::Reported { index, fs, end } => self.spec_next_file(index, fs, end),
            BootPhase::Jumped => (self, Action::Jump { entry: self.config.stage_3_dst }),
            BootPhase::Halted(e) => (self, Action::Halt(e)),
        }
    }

    /// Starts a boot from disk `disk_number` with the raw partition table
    /// that the first stage handed over.
    pub fn new(config: BootConfig, disk_number: u16, partition_table: [u8; 64]) -> (boot:
        BootSequence)
        ensures
            boot == Self::spec_new(config, disk_number, partition_table),
            config.wf() ==> boot.wf(),
    {
        BootSequence {
            config,
            disk_number,
            partition_table,
            disk: DiskAccess { disk_number, base_offset: 0, current_offset: 0 },
            phase: BootPhase::Start,
        }
    }

    /// Halts the boot with `e`.
    fn halt(&mut self, e: LoadError) -> (action: Action)
        requires
            old(self).config.wf(),
            old(self).disk.disk_number == old(self).disk_number,
        ensures
            (*final(self), action) == old(self).spec_halt(e),
            final(self).wf(),
    {
        self.phase = BootPhase::Halted(e);
        Action::Halt(e)
    }

    /// Takes in what the loader of file `index` asked for: reports a loaded
    /// file, halts on a failure, and passes every other action on.
    fn forward(
        &mut self,
        index: u8,
        fs: FileSystem,
        loader: FileLoader,
        disk: DiskAccess,
        action: Action,
    ) -> (r: Action)
        requires
            old(self).config.wf(),
            disk.disk_number == old(self).disk_number,
            index < FILE_COUNT,
            fs.wf(),
            loader.wf(fs),
            loader.pending_fits(old(self).config.staging),
            old(self).config.spec_region_start(index) <= loader.destination,
            loader.limit == old(self).config.spec_region_end(index),
            action matches Action::Loaded { destination, total } ==> destination
                == loader.destination && total == loader.loaded,
        ensures
            (*final(self), r) == old(self).spec_forward(index, fs, loader, disk, action),
            r == action,
            final(self).wf(),
    {
        self.disk = disk;
        match action {
            Action::Loaded { destination, total } => {
                self.phase = BootPhase::Reported { index, fs, end: destination as u64 + total };
            },
            Action::Halt(e) => {
                self.phase = BootPhase::Halted(e);
            },
            _ => {
                self.phase = BootPhase::Files { index, fs, loader };
            },
        }
        action
    }

    /// Turns to file `index`, which goes to `destination`.
    #[verifier::rlimit(30)]
    fn begin_file(&mut self, index: u8, fs: FileSystem, destination: u32) -> (action: Action)
        requires
            old(self).config.wf(),
            old(self).disk.disk_number == old(self).disk_number,
            index < FILE_COUNT,
            fs.wf(),
            old(self).config.spec_region_start(index) <= destination
                <= old(self).config.spec_region_end(index),
        ensures
            (*final(self), action) == old(self).spec_begin_file(index, fs, destination),
            final(self).wf(),
            final(self).safe(action),
    {
        let mut loader = FileLoader::new(
            &fs,
            self.config.name(index),
            destination,
            self.config.region_end(index),
        );
        let mut disk = self.disk;
        let action = loader.step(&fs, &mut disk, &self.config.staging, Event::Begin);
        self.forward(index, fs, loader, disk, action)
    }

    /// Finds the FAT partition and asks for its boot sector.
    fn open_partition(&mut self) -> (action: Action)
        requires
            old(self).config.wf(),
            old(self).disk.disk_number == old(self).disk_number,
        ensures
            (*final(self), action) == old(self).spec_open_partition(),
            final(self).wf(),
            final(self).safe(action),
    {
        match locate_fat_partition(&self.partition_table) {
            Err(e) => self.halt(e),
            Ok(partition) => {
                let mut disk = DiskAccess::new(self.disk_number, partition.logical_block_address);
                match disk.read_chunk(512, &self.config.staging) {
                    Ok(transfer) => {
                        self.disk = disk;
                        self.phase = BootPhase::BootSector(transfer);
                        Action::Transfer { disk_number: self.disk_number, packet: transfer.packet }
                    },
                    Err(_) => {
                        self.disk = disk;
                        self.halt(LoadError::DiskReadError)
                    },
                }
            },
        }
    }

    /// Goes on after file `index`, which ends at `end`, was reported.
    #[verifier::rlimit(30)]
    fn next_file(&mut self, index: u8, fs: FileSystem, end: u64) -> (action: Action)
        requires
            old(self).wf(),
            old(self).phase == (BootPhase::Reported { index, fs, end }),
        ensures
            (*final(self), action) == old(self).spec_next_file(index, fs, end),
            final(self).wf(),
            final(self).safe(action),
    {
        if index == 0 {
            let destination = align_up(end);
            if destination > self.config.kernel_dst as u64 {
                self.halt(LoadError::HighMemoryVerificationMismatch)
            } else {
                self.begin_file(1, fs, destination as u32)
            }
        } else if index == 1 {
            self.begin_file(2, fs, self.config.kernel_dst)
        } else {
            self.phase = BootPhase::Jumped;
            Action::Jump { entry: self.config.stage_3_dst }
        }
    }

    /// What is safe to ask of the caller: a transfer lands inside the
    /// staging area, and a copy takes its bytes from inside the staging area
    /// and puts them inside the region of the file that is being loaded, so
    /// above low memory.
    pub open spec fn safe(self, action: Action) -> bool {
        match action {
            Action::Transfer { disk_number, packet } => {
                &&& disk_number == self.disk_number
                &&& 1 <= packet.number_of_sectors
                &&& packet.byte_count() <= self.config.staging.capacity
                &&& packet.target() == self.config.staging.address
            },
            Action::Copy { destination, skip, len } => {
                &&& self.phase matches BootPhase::Files { index, fs, loader }
                &&& self.config.spec_region_start(index) <= destination
                &&& destination + len <= self.config.spec_region_end(index)
                &&& 1 <= len
                &&& skip + len <= self.config.staging.capacity
            },
            Action::Jump { entry } => self.phase is Jumped && entry == self.config.stage_3_dst,
            _ => true,
        }
    }

    /// Takes the caller's report and says what to do next.
    #[verifier::rlimit(30)]
    pub fn step(&mut self, event: Event<'_>) -> (action: Action)
        requires
            old(self).wf(),
        ensures
            (*final(self), action) == old(self).spec_step(event@),
            final(self).wf(),
            final(self).safe(action),
            final(self).config == old(self).config,
            final(self).disk_number == old(self).disk_number,
    {
        match self.phase {
            BootPhase::Start => {
                self.phase = BootPhase::UnrealMode;
                Action::EnterUnrealMode
            },
            BootPhase::UnrealMode => self.open_partition(),
            BootPhase::BootSector(transfer) => self.take_boot_sector(transfer, event),
            BootPhase::Files { index, fs, loader } => self.step_file(index, fs, loader, event),
            BootPhase::Reported { index, fs, end } => self.next_file(index, fs, end),
            BootPhase::Jumped => Action::Jump { entry: self.config.stage_3_dst },
            BootPhase::Halted(e) => Action::Halt(e),
        }
    }

    /// Lets the loader of file `index` take the report.
    #[verifier::rlimit(30)]
    fn step_file(&mut self, index: u8, fs: FileSystem, loader: FileLoader, event: Event<'_>) -> (action:
        Action)
        requires
            old(self).wf(),
            old(self).phase == (BootPhase::Files { index, fs, loader }),
        ensures
            (*final(self), action) == old(self).spec_step(event@),
            final(self).wf(),
            final(self).safe(action),
    {
        let mut loader = loader;
        let mut disk = self.disk;
        let action = loader.step(&fs, &mut disk, &self.config.staging, event);
        self.forward(index, fs, loader, disk, action)
    }

    /// Takes the report of the transfer of the boot sector.
    #[verifier::rlimit(30)]
    fn take_boot_sector(&mut self, transfer: Transfer, event: Event<'_>) -> (action: Action)
        requires
            old(self).wf(),
            old(self).phase == BootPhase::BootSector(transfer),
        ensures
            (*final(self), action) == old(self).spec_step(event@),
            final(self).wf(),
            final(self).safe(action),
    {
        match event {
            Event::Transferred { status, staging } => {
                if status == 0 && transfer.skip <= staging.len() && transfer.len <= staging.len()
                    - transfer.skip {
                    let sector = vstd::slice::slice_subrange(
                        staging,
                        transfer.skip,
                        transfer.skip + transfer.len,
                    );
                    match FileSystem::parse(sector) {
                        Ok(fs) => self.begin_file(0, fs, self.config.stage_3_dst),
                        Err(e) => self.halt(e),
                    }
                } else {
                    self.halt(LoadError::DiskReadError)
                }
            },
            _ => Action::Transfer { disk_number: self.disk_number, packet: transfer.packet },
        }
    }
}

} // verus!
