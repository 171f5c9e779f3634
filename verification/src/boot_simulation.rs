use crate::boot::{spec_align_up, BootConfig, BootPhase, BootSequence};
use crate::disk::{first_transfer, DiskAccess, StagingArea};
use crate::error::LoadError;
use crate::fat::image::extent_bytes;
use crate::fat::volume::FileSystem;
use crate::loader::{Action, Event, EventView, FileLoader, ADDRESS_SPACE_END};
use crate::machine::{write_memory, Machine, SimulatedMachine};
use crate::partition::spec_locate_fat_partition;
use crate::simulation::{
    file_in_memory, lemma_file_is_loaded, lemma_step_asks, lemma_transfer_delivers, setting,
    volume_of, Outcome,
};
use vstd::prelude::*;

verus! {

impl BootSequence {
    /// How far from its end a boot is, phase by phase.
    pub open spec fn phase_rank(self) -> nat {
        match self.phase {
            BootPhase::Start => 9,
            BootPhase::UnrealMode => 8,
            BootPhase::BootSector(_) => 7,
            BootPhase::Files { index, fs, loader } => if index == 0 {
                6
            } else if index == 1 {
                4
            } else {
                2
            },
            BootPhase::Reported { index, fs, end } => if index == 0 {
                5
            } else if index == 1 {
                3
            } else {
                1
            },
            BootPhase::Jumped => 0,
            BootPhase::Halted(_) => 0,
        }
    }

    /// Whether the file that is being loaded is still searched for.
    pub open spec fn search_rank(self) -> nat {
        match self.phase {
            BootPhase::Files { index, fs, loader } => loader.phase_rank(),
            _ => 0,
        }
    }

    /// The steps that the walk of the file that is being loaded has left.
    pub open spec fn walk_rank(self) -> nat {
        match self.phase {
            BootPhase::Files { index, fs, loader } => loader.walk.steps_left(fs),
            _ => 0,
        }
    }

    /// The bytes of the current extent that were not yet read.
    pub open spec fn left_rank(self) -> nat {
        match self.phase {
            BootPhase::Files { index, fs, loader } => loader.left as nat,
            _ => 0,
        }
    }

    /// What the loader of the file that is being loaded has pending.
    pub open spec fn pending_rank(self) -> nat {
        match self.phase {
            BootPhase::Files { index, fs, loader } => loader.pending_rank(),
            _ => 0,
        }
    }

    /// Whether `action` is what the sequence is waiting for an answer to.
    pub open spec fn awaits(self, action: Action) -> bool {
        match self.phase {
            BootPhase::UnrealMode => action is EnterUnrealMode,
            BootPhase::BootSector(_) => action is Transfer,
            BootPhase::Files { index, fs, loader } => loader.awaits(action),
            BootPhase::Reported { index, fs, end } => action is Loaded,
            _ => false,
        }
    }

    /// The staging area is well-formed, and so is the volume once it is
    /// known.
    pub open spec fn runnable(self) -> bool {
        &&& self.config.staging.wf()
        &&& match self.phase {
            BootPhase::Files { index, fs, loader } => fs.wf(),
            BootPhase::Reported { index, fs, end } => fs.wf(),
            _ => true,
        }
    }

    /// What a boot comes to on a machine that does what it is asked: the
    /// machine performs `action`, which the sequence has just asked for, the
    /// sequence takes the report and asks for the next action, and so on
    /// until it asks for the jump or halts.
    #[verifier::rlimit(30)]
    pub open spec fn spec_run(self, machine: Machine, action: Action) -> Outcome
        decreases
            self.phase_rank(),
            self.search_rank(),
            self.walk_rank(),
            self.left_rank(),
            self.pending_rank(),
        when self.runnable()
    {
        if self.awaits(action) {
            let (machine_after, report) = machine.perform(action);
            let (sequence, next) = self.spec_step(report);
            sequence.spec_run(machine_after, next)
        } else {
            Outcome { end: action, machine, disk: self.disk }
        }
    }

    /// What the boot from disk `disk_number` with the raw partition table
    /// `partition_table` comes to on a machine that does what it is asked.
    pub open spec fn spec_boot(
        config: BootConfig,
        disk_number: u16,
        partition_table: [u8; 64],
        machine: Machine,
    ) -> Outcome {
        let (sequence, action) = Self::spec_new(config, disk_number, partition_table).spec_step(
            EventView::Begin,
        );
        sequence.spec_run(machine, action)
    }
}

/// While a file is being loaded, the boot does what the loader does: what
/// the boot comes to from there is what it comes to from the end of the
/// loader's own run.
#[verifier::rlimit(30)]
pub proof fn lemma_boot_follows_loader(
    boot: BootSequence,
    index: u8,
    fs: FileSystem,
    loader: FileLoader,
    disk: DiskAccess,
    machine: Machine,
    action: Action,
)
    requires
        boot.config.staging.wf(),
        fs.wf(),
        loader.awaits(action) || action is Loaded || action is Halt,
    ensures
        ({
            let (sequence, asked) = boot.spec_forward(index, fs, loader, disk, action);
            let out = loader.spec_run(fs, disk, boot.config.staging, machine, action);
            let (resumed, then) = boot.spec_forward(index, fs, loader, out.disk, out.end);
            &&& out.end is Loaded || out.end is Halt
            &&& sequence.spec_run(machine, asked) == resumed.spec_run(out.machine, then)
        }),
    decreases loader.phase_rank(), loader.walk.steps_left(fs), loader.left, loader.pending_rank(),
{
    let area = boot.config.staging;
    let (sequence, asked) = boot.spec_forward(index, fs, loader, disk, action);
    if loader.awaits(action) {
        assert(sequence.phase == BootPhase::Files { index, fs, loader });
        assert(sequence.awaits(asked));
        let (machine_after, report) = machine.perform(action);
        let (stepped, cursor, next) = loader.spec_step(fs, disk, area, report);
        lemma_step_asks(loader, fs, disk, area, report);
        assert(sequence.spec_step(report) == sequence.spec_forward(index, fs, stepped, cursor, next));
        assert(sequence.spec_forward(index, fs, stepped, cursor, next) == boot.spec_forward(
            index,
            fs,
            stepped,
            cursor,
            next,
        ));
        lemma_boot_follows_loader(boot, index, fs, stepped, cursor, machine_after, next);
        let out = stepped.spec_run(fs, cursor, area, machine_after, next);
        assert(out == loader.spec_run(fs, disk, area, machine, action));
        assert(boot.spec_forward(index, fs, stepped, out.disk, out.end) == boot.spec_forward(
            index,
            fs,
            loader,
            out.disk,
            out.end,
        ));
    }
}

/// How the loading of one file ends, and what it leaves in memory.
pub enum FileEnd {
    /// The file lies at its destination, which makes memory this.
    Loaded(Seq<u8>),
    /// Loading halted with this.
    Halted(LoadError),
}

/// How the loading of the file `name` of the volume to `destination`, into
/// a region that ends at `limit`, ends: with the failure of the search or of
/// the chain; with `HighMemoryVerificationMismatch` where the file would end
/// beyond its region; and else with the file at its destination.
pub open spec fn spec_file_end(
    fs: FileSystem,
    volume: Seq<u8>,
    name: crate::fat::directory::ShortName,
    destination: int,
    limit: int,
    memory: Seq<u8>,
) -> FileEnd {
    match fs.spec_find_file_in_root_dir(volume, name) {
        Err(e) => FileEnd::Halted(e),
        Ok(entry) => {
            let walked = fs.spec_file_clusters(entry).run(fs, volume);
            let content = extent_bytes(volume, walked.extents);
            if destination + content.len() > limit {
                FileEnd::Halted(LoadError::HighMemoryVerificationMismatch)
            } else {
                match walked.failure {
                    Some(e) => FileEnd::Halted(e),
                    None => FileEnd::Loaded(write_memory(memory, destination, content)),
                }
            }
        },
    }
}

/// The bytes of the file `name`: what the cluster chain of the first record
/// of that name covers, cut to the size of the file. Nothing where the root
/// directory holds no such record.
pub open spec fn spec_file_bytes(
    fs: FileSystem,
    volume: Seq<u8>,
    name: crate::fat::directory::ShortName,
) -> Seq<u8> {
    match fs.spec_find_file_in_root_dir(volume, name) {
        Err(e) => Seq::empty(),
        Ok(entry) => extent_bytes(volume, fs.spec_file_clusters(entry).run(fs, volume).extents),
    }
}

/// The number of bytes of the file `name`.
pub open spec fn spec_file_len(
    fs: FileSystem,
    volume: Seq<u8>,
    name: crate::fat::directory::ShortName,
) -> int {
    spec_file_bytes(fs, volume, name).len() as int
}

/// How a boot ends that has come to file `index`, which goes to
/// `destination`, and what it leaves in memory where it ends with the jump.
///
/// The files are loaded in their order, each into its region: the fourth
/// stage goes to the next sector boundary behind the third, the kernel to
/// its fixed place. The first file that cannot be loaded halts the boot
/// with its failure, and so does a fourth stage whose place would lie behind
/// the start of the kernel. After the kernel comes the jump to the third
/// stage.
pub open spec fn spec_files_end(
    config: BootConfig,
    fs: FileSystem,
    volume: Seq<u8>,
    index: u8,
    destination: int,
    memory: Seq<u8>,
) -> (Action, Seq<u8>)
    decreases 3 - index,
{
    if index >= 3 {
        (Action::Jump { entry: config.stage_3_dst }, memory)
    } else {
        match spec_file_end(
            fs,
            volume,
            config.spec_name(index),
            destination,
            config.spec_region_end(index) as int,
            memory,
        ) {
            FileEnd::Halted(e) => (Action::Halt(e), memory),
            FileEnd::Loaded(after) => {
                let end = destination + spec_file_len(fs, volume, config.spec_name(index));
                if index == 0 {
                    if spec_align_up(end as u64) > config.kernel_dst {
                        (Action::Halt(LoadError::HighMemoryVerificationMismatch), memory)
                    } else {
                        spec_files_end(
                            config,
                            fs,
                            volume,
                            1,
                            spec_align_up(end as u64) as int,
                            after,
                        )
                    }
                } else if index == 1 {
                    spec_files_end(config, fs, volume, 2, config.kernel_dst as int, after)
                } else {
                    (Action::Jump { entry: config.stage_3_dst }, after)
                }
            },
        }
    }
}

/// From the start of a file on, a boot ends as `spec_files_end` says, and
/// where it ends with the jump, memory is as `spec_files_end` says.
pub proof fn lemma_files_are_loaded(
    boot: BootSequence,
    index: u8,
    fs: FileSystem,
    destination: u32,
    machine: Machine,
)
    requires
        boot.config.wf(),
        setting(fs, boot.disk, boot.config.staging, machine),
        index < 3,
        boot.config.spec_region_start(index) <= destination <= boot.config.spec_region_end(index),
        ADDRESS_SPACE_END <= machine.memory.len(),
    ensures
        ({
            let (sequence, action) = boot.spec_begin_file(index, fs, destination);
            let out = sequence.spec_run(machine, action);
            let expected = spec_files_end(
                boot.config,
                fs,
                volume_of(fs, boot.disk, machine),
                index,
                destination as int,
                machine.memory,
            );
            &&& out.end == expected.0
            &&& out.end is Jump ==> out.machine.memory == expected.1
            &&& out.machine.disk == machine.disk
        }),
    decreases 3 - index,
{
    let config = boot.config;
    let area = config.staging;
    let volume = volume_of(fs, boot.disk, machine);
    let name = config.spec_name(index);
    let limit = config.spec_region_end(index);
    let fresh = FileLoader::spec_new(fs, name, destination, limit);
    let (loader, cursor, first) = fresh.spec_step(fs, boot.disk, area, EventView::Begin);
    lemma_step_asks(fresh, fs, boot.disk, area, EventView::Begin);
    lemma_boot_follows_loader(boot, index, fs, loader, cursor, machine, first);
    lemma_file_is_loaded(fs, boot.disk, area, machine, name, destination, limit);
    let out = FileLoader::spec_load(fs, boot.disk, area, machine, name, destination, limit);
    assert(out == loader.spec_run(fs, cursor, area, machine, first));
    let (resumed, then) = boot.spec_forward(index, fs, loader, out.disk, out.end);
    let (sequence, action) = boot.spec_begin_file(index, fs, destination);
    assert(sequence.spec_run(machine, action) == resumed.spec_run(out.machine, then));
    let file_end = spec_file_end(fs, volume, name, destination as int, limit as int, machine.memory);
    match out.end {
        Action::Loaded { destination: at, total } => {
            assert(file_end is Loaded);
            assert(at == destination);
            assert(total == spec_file_len(fs, volume, name));
            let end = (destination + total) as u64;
            assert(resumed.phase == BootPhase::Reported { index, fs, end });
            assert(resumed.awaits(then));
            let (same, report) = out.machine.perform(then);
            assert(same == out.machine);
            let (onward, next) = resumed.spec_step(report);
            assert(resumed.spec_run(out.machine, then) == onward.spec_run(out.machine, next));
            assert((onward, next) == resumed.spec_next_file(index, fs, end));
            assert(volume_of(fs, resumed.disk, out.machine) == volume);
            if index == 0 {
                if spec_align_up(end) <= config.kernel_dst {
                    lemma_files_are_loaded(resumed, 1, fs, spec_align_up(end) as u32, out.machine);
                }
            } else if index == 1 {
                lemma_files_are_loaded(resumed, 2, fs, config.kernel_dst, out.machine);
            }
        },
        Action::Halt(e) => {
            assert(file_end == FileEnd::Halted(e));
        },
        _ => {},
    }
}

/// How a boot ends on a disk with the bytes `disk`, and what it leaves in
/// memory where it ends with the jump.
///
/// A partition table without a FAT partition behind the loader's own halts
/// the boot as `locate_fat_partition` fails; a boot sector beyond the end of
/// the disk is a `DiskReadError`; one that holds no well-formed geometry an
/// `InvalidBootSector`; and from there on the three files decide.
pub open spec fn spec_boot_end(
    config: BootConfig,
    partition_table: Seq<u8>,
    disk: Seq<u8>,
    memory: Seq<u8>,
) -> (Action, Seq<u8>) {
    match spec_locate_fat_partition(partition_table) {
        Err(e) => (Action::Halt(e), memory),
        Ok(partition) => {
            let base = partition.logical_block_address * 512;
            let fs = FileSystem::decode(disk.subrange(base, base + 512));
            if base + 512 > disk.len() {
                (Action::Halt(LoadError::DiskReadError), memory)
            } else if !fs.wf() {
                (Action::Halt(LoadError::InvalidBootSector), memory)
            } else {
                spec_files_end(
                    config,
                    fs,
                    disk.subrange(base, base + fs.spec_volume_size()),
                    0,
                    config.stage_3_dst as int,
                    memory,
                )
            }
        },
    }
}

/// A boot does what the disk says.
///
/// On a machine that does what it is asked, with a disk of whole sectors
/// that holds the whole FAT partition if it holds its boot sector, a staging
/// area of at least two sectors and memory for every 32-bit address, the
/// boot ends as `spec_boot_end` says: with the jump to the third stage when
/// the three files lie at their destinations, each holding the bytes that
/// looking the file up and following its cluster chain gives, and every
/// other byte of memory as it was; and else with the halt that the first
/// thing that went wrong calls for.
pub proof fn lemma_boot_does_what_the_disk_says(
    config: BootConfig,
    disk_number: u16,
    partition_table: [u8; 64],
    machine: Machine,
)
    requires
        config.wf(),
        config.staging.capacity >= 1024,
        machine.wf(config.staging),
        machine.disk.len() <= u64::MAX,
        ADDRESS_SPACE_END <= machine.memory.len(),
        spec_locate_fat_partition(partition_table@) matches Ok(partition) ==> {
            let base = partition.logical_block_address * 512;
            let fs = FileSystem::decode(machine.disk.subrange(base, base + 512));
            base + 512 <= machine.disk.len() && fs.wf() ==> base + fs.spec_volume_size()
                <= machine.disk.len()
        },
    ensures
        ({
            let out = BootSequence::spec_boot(config, disk_number, partition_table, machine);
            let expected = spec_boot_end(
                config,
                partition_table@,
                machine.disk,
                machine.memory,
            );
            &&& out.end == expected.0
            &&& out.end is Jump ==> out.machine.memory == expected.1
            &&& out.machine.disk == machine.disk
        }),
{
    let area = config.staging;
    let fresh = BootSequence::spec_new(config, disk_number, partition_table);
    let (entering, enter) = fresh.spec_step(EventView::Begin);
    assert(entering.phase is UnrealMode && enter is EnterUnrealMode);
    assert(entering.awaits(enter));
    let (same, report) = machine.perform(enter);
    assert(same == machine && report == EventView::Begin);
    let (opened, ask) = entering.spec_step(report);
    assert(entering.spec_run(machine, enter) == opened.spec_run(machine, ask));
    assert((opened, ask) == entering.spec_open_partition());
    match spec_locate_fat_partition(partition_table@) {
        Err(e) => {
            assert(!opened.awaits(ask));
        },
        Ok(partition) => {
            let base = partition.logical_block_address * 512;
            let cursor = DiskAccess { disk_number, base_offset: base as u64, current_offset: 0 };
            let transfer = first_transfer(base, 512, area);
            assert(FileLoader::spec_plan(cursor, area, 0, 512) == Some(transfer));
            assert(transfer.skip == 0 && transfer.len == 512);
            assert(transfer.packet.first_byte() == base && transfer.packet.byte_count() == 512);
            assert(opened.phase == BootPhase::BootSector(transfer));
            assert(opened.awaits(ask));
            let (staged, status) = machine.perform(ask);
            let (begun, first) = opened.spec_step(status);
            assert(opened.spec_run(machine, ask) == begun.spec_run(staged, first));
            let sector = machine.disk.subrange(base, base + 512);
            let fs = FileSystem::decode(sector);
            if base + 512 > machine.disk.len() {
                assert(status == EventView::Transferred {
                    status: crate::machine::TRANSFER_FAILED,
                    staging: machine.staging,
                });
                assert(!begun.awaits(first));
            } else {
                assert(staged.staging.subrange(0, 512) =~= sector);
                assert(FileLoader::spec_payload(transfer, 0, staged.staging) == Some(sector));
                if !fs.wf() {
                    assert(!begun.awaits(first));
                } else {
                    assert((begun, first) == opened.spec_begin_file(0, fs, config.stage_3_dst));
                    assert(volume_of(fs, opened.disk, staged) == machine.disk.subrange(
                        base,
                        base + fs.spec_volume_size(),
                    ));
                    lemma_files_are_loaded(opened, 0, fs, config.stage_3_dst, staged);
                }
            }
        },
    }
}

/// Whatever a boot is told, what it then asks for is either something it
/// waits for an answer to, or its end: the jump or a halt. And where it was
/// waiting for an answer to `action` and gets the report of it, it is nearer
/// to its end afterwards.
#[verifier::rlimit(40)]
pub proof fn lemma_boot_step_asks(boot: BootSequence, machine: Machine, action: Action)
    requires
        boot.runnable(),
    ensures
        ({
            let (sequence, next) = boot.spec_step(machine.perform(action).1);
            &&& sequence.awaits(next) || next is Jump || next is Halt
            &&& sequence.config == boot.config
            &&& boot.awaits(action) ==> boot.spec_run(machine, action) == sequence.spec_run(
                machine.perform(action).0,
                next,
            )
            &&& !boot.awaits(action) ==> boot.spec_run(machine, action) == (Outcome {
                end: action,
                machine,
                disk: boot.disk,
            })
            &&& boot.awaits(action) ==> decreases_to!(
                boot.phase_rank(),
                boot.search_rank(),
                boot.walk_rank(),
                boot.left_rank(),
                boot.pending_rank() =>
                sequence.phase_rank(),
                sequence.search_rank(),
                sequence.walk_rank(),
                sequence.left_rank(),
                sequence.pending_rank()
            )
        }),
{
    let report = machine.perform(action).1;
    match boot.phase {
        BootPhase::Files { index, fs, loader } => {
            lemma_step_asks(loader, fs, boot.disk, boot.config.staging, report);
        },
        BootPhase::BootSector(transfer) => {
            if let EventView::Transferred { status, staging } = report {
                if let Some(sector) = FileLoader::spec_payload(transfer, status, staging) {
                    if sector.len() >= 512 && FileSystem::decode(sector).wf() {
                        let fs = FileSystem::decode(sector);
                        lemma_step_asks(
                            FileLoader::spec_new(
                                fs,
                                boot.config.spec_name(0),
                                boot.config.stage_3_dst,
                                boot.config.spec_region_end(0),
                            ),
                            fs,
                            boot.disk,
                            boot.config.staging,
                            EventView::Begin,
                        );
                    }
                }
            }
        },
        BootPhase::Reported { index, fs, end } => {
            let destination = if index == 0 {
                spec_align_up(end) as u32
            } else {
                boot.config.kernel_dst
            };
            let next = if index == 0 {
                1u8
            } else {
                2u8
            };
            lemma_step_asks(
                FileLoader::spec_new(
                    fs,
                    boot.config.spec_name(next),
                    destination,
                    boot.config.spec_region_end(next),
                ),
                fs,
                boot.disk,
                boot.config.staging,
                EventView::Begin,
            );
        },
        _ => {},
    }
}

impl SimulatedMachine {
    /// Boots on this machine: takes a boot sequence from its start to the
    /// jump or the halt, doing what the sequence asks for. Returns the
    /// action that the boot ends with; the machine is left as the boot left
    /// it.
    pub fn boot(&mut self, config: BootConfig, disk_number: u16, partition_table: [u8; 64]) -> (end:
        Action)
        requires
            config.wf(),
        ensures
            end == BootSequence::spec_boot(config, disk_number, partition_table, old(self)@).end,
            final(self)@ == BootSequence::spec_boot(
                config,
                disk_number,
                partition_table,
                old(self)@,
            ).machine,
            end is Jump || end is Halt,
    {
        let mut sequence = BootSequence::new(config, disk_number, partition_table);
        let ghost whole = BootSequence::spec_boot(config, disk_number, partition_table, self@);
        proof {
            lemma_boot_step_asks(sequence, self@, Action::EnterUnrealMode);
        }
        let mut action = sequence.step(Event::Begin);
        loop
            invariant
                sequence.wf(),
                sequence.awaits(action) || action is Jump || action is Halt,
                whole == BootSequence::spec_boot(config, disk_number, partition_table, old(self)@),
                whole.end == sequence.spec_run(self@, action).end,
                whole.machine == sequence.spec_run(self@, action).machine,
            decreases
                sequence.phase_rank(),
                sequence.search_rank(),
                sequence.walk_rank(),
                sequence.left_rank(),
                sequence.pending_rank(),
        {
            proof {
                lemma_boot_step_asks(sequence, self@, action);
            }
            match action {
                Action::Jump { .. } | Action::Halt(_) => {
                    return action;
                },
                _ => {},
            }
            let report = self.perform(action);
            action = sequence.step(report.event(self.staging.as_slice()));
        }
    }
}

/// After a boot that ends with the jump, memory holds the three files, each
/// whole at its place: the third stage at its destination, the fourth at the
/// next sector boundary behind the end of the third, the kernel at its
/// destination. The places lie one behind the other without overlap, and
/// every byte of memory outside them is as it was.
pub proof fn lemma_booted_memory_holds_the_files(
    config: BootConfig,
    fs: FileSystem,
    volume: Seq<u8>,
    memory: Seq<u8>,
)
    requires
        config.wf(),
        ADDRESS_SPACE_END <= memory.len(),
        spec_files_end(config, fs, volume, 0, config.stage_3_dst as int, memory).0 is Jump,
    ensures
        ({
            let after = spec_files_end(config, fs, volume, 0, config.stage_3_dst as int, memory).1;
            let stage_3 = spec_file_bytes(fs, volume, config.stage_3_name);
            let stage_4 = spec_file_bytes(fs, volume, config.stage_4_name);
            let kernel = spec_file_bytes(fs, volume, config.kernel_name);
            let stage_3_dst = config.stage_3_dst as int;
            let stage_4_dst = spec_align_up((stage_3_dst + stage_3.len()) as u64) as int;
            let kernel_dst = config.kernel_dst as int;
            &&& stage_3_dst + stage_3.len() <= stage_4_dst < stage_3_dst + stage_3.len() + 512
            &&& stage_4_dst % 512 == 0
            &&& stage_4_dst + stage_4.len() <= kernel_dst
            &&& kernel_dst + kernel.len() <= ADDRESS_SPACE_END
            &&& after.len() == memory.len()
            &&& after.subrange(stage_3_dst, stage_3_dst + stage_3.len()) == stage_3
            &&& after.subrange(stage_4_dst, stage_4_dst + stage_4.len()) == stage_4
            &&& after.subrange(kernel_dst, kernel_dst + kernel.len()) == kernel
            &&& forall|a: int|
                0 <= a < memory.len() && !(stage_3_dst <= a < stage_3_dst + stage_3.len()) && !(
                stage_4_dst <= a < stage_4_dst + stage_4.len()) && !(kernel_dst <= a < kernel_dst
                    + kernel.len()) ==> #[trigger] after[a] == memory[a]
        }),
{
    let stage_3 = spec_file_bytes(fs, volume, config.stage_3_name);
    let stage_4 = spec_file_bytes(fs, volume, config.stage_4_name);
    let kernel = spec_file_bytes(fs, volume, config.kernel_name);
    let stage_3_dst = config.stage_3_dst as int;
    let end = (stage_3_dst + stage_3.len()) as u64;
    let stage_4_dst = spec_align_up(end) as int;
    let kernel_dst = config.kernel_dst as int;
    assert(config.spec_name(0) == config.stage_3_name);
    assert(config.spec_name(1) == config.stage_4_name);
    assert(config.spec_name(2) == config.kernel_name);
    let first = write_memory(memory, stage_3_dst, stage_3);
    assert(spec_file_end(
        fs,
        volume,
        config.stage_3_name,
        stage_3_dst,
        config.spec_region_end(0) as int,
        memory,
    ) == FileEnd::Loaded(first));
    assert(spec_align_up(end) <= config.kernel_dst);
    let second = write_memory(first, stage_4_dst, stage_4);
    assert(spec_files_end(config, fs, volume, 0, stage_3_dst, memory) == spec_files_end(
        config,
        fs,
        volume,
        1,
        stage_4_dst,
        first,
    ));
    assert(spec_file_end(
        fs,
        volume,
        config.stage_4_name,
        stage_4_dst,
        config.spec_region_end(1) as int,
        first,
    ) == FileEnd::Loaded(second));
    let third = write_memory(second, kernel_dst, kernel);
    assert(spec_files_end(config, fs, volume, 1, stage_4_dst, first) == spec_files_end(
        config,
        fs,
        volume,
        2,
        kernel_dst,
        second,
    ));
    assert(spec_file_end(
        fs,
        volume,
        config.kernel_name,
        kernel_dst,
        config.spec_region_end(2) as int,
        second,
    ) == FileEnd::Loaded(third));
    assert(spec_files_end(config, fs, volume, 2, kernel_dst, second).1 == third);
    assert(third.subrange(stage_3_dst, stage_3_dst + stage_3.len()) =~= stage_3);
    assert(third.subrange(stage_4_dst, stage_4_dst + stage_4.len()) =~= stage_4);
    assert(third.subrange(kernel_dst, kernel_dst + kernel.len()) =~= kernel);
}

} // verus!
