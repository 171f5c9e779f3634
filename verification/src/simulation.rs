use crate::disk::{first_transfer, DiskAccess, StagingArea, Transfer};
use crate::error::LoadError;
use crate::fat::chain::{ClusterExtent, ExtentWalk, WalkStep, Walked};
use crate::fat::directory::{lemma_scan_in_pieces, spec_scan, DirectoryEntryView, ShortName};
use crate::fat::image::{extent_bytes, spec_find_in};
use crate::fat::volume::FileSystem;
use crate::loader::{
    Action, Event, EventView, FileLoader, LoaderState, Pending, ADDRESS_SPACE_END,
};
use crate::machine::{lemma_write_in_pieces, write_memory, Machine, SimulatedMachine};
use vstd::prelude::*;

verus! {

/// How a run ended: the action that the caller is left with, and the machine
/// and the disk cursor as they then are.
pub struct Outcome {
    pub end: Action,
    pub machine: Machine,
    pub disk: DiskAccess,
}

impl FileLoader {
    /// Searching comes before loading.
    pub open spec fn phase_rank(self) -> nat {
        if self.state is Searching {
            1
        } else {
            0
        }
    }

    /// Among requests for the same piece, the transfer comes before the
    /// copy, and a table entry is asked for last.
    pub open spec fn pending_rank(self) -> nat {
        match self.pending {
            Pending::Nothing => 0,
            Pending::Table(_) => 1,
            Pending::Copy { .. } => 2,
            Pending::Chunk(_) => 3,
        }
    }

    /// Whether the loader is at work and `action` is what it is waiting for.
    pub open spec fn awaits(self, action: Action) -> bool {
        &&& self.state is Searching || self.state is Loading
        &&& (action is Transfer && (self.pending is Table || self.pending is Chunk)) || (action is Copy
            && self.pending is Copy)
    }

    /// What loading comes to on a machine that does what it is asked: the
    /// machine performs `action`, which the loader has just asked for, the
    /// loader takes the report and asks for the next action, and so on until
    /// the loader asks for nothing more.
    pub open spec fn spec_run(
        self,
        fs: FileSystem,
        disk: DiskAccess,
        area: StagingArea,
        machine: Machine,
        action: Action,
    ) -> Outcome
        decreases self.phase_rank(), self.walk.steps_left(fs), self.left, self.pending_rank(),
        when fs.wf() && area.wf()
    {
        if self.awaits(action) {
            let (machine_after, report) = machine.perform(action);
            let (loader, cursor, next) = self.spec_step(fs, disk, area, report);
            loader.spec_run(fs, cursor, area, machine_after, next)
        } else {
            Outcome { end: action, machine, disk }
        }
    }

    /// What the loading of the file `name` to `destination` comes to on a
    /// machine that does what it is asked.
    pub open spec fn spec_load(
        fs: FileSystem,
        disk: DiskAccess,
        area: StagingArea,
        machine: Machine,
        name: ShortName,
        destination: u32,
        limit: u64,
    ) -> Outcome {
        let (loader, cursor, action) = Self::spec_new(fs, name, destination, limit).spec_step(
            fs,
            disk,
            area,
            EventView::Begin,
        );
        loader.spec_run(fs, cursor, area, machine, action)
    }
}

/// The setting of a run: a well-formed volume that lies whole on the disk of
/// the machine, from a sector boundary on, and a staging area of at least
/// two sectors.
pub open spec fn setting(fs: FileSystem, disk: DiskAccess, area: StagingArea, machine: Machine) -> bool {
    &&& fs.wf()
    &&& area.wf()
    &&& area.capacity >= 1024
    &&& machine.wf(area)
    &&& disk.base_offset % 512 == 0
    &&& disk.base_offset + fs.spec_volume_size() <= machine.disk.len() <= u64::MAX
}

/// The bytes of the volume on the disk of the machine.
pub open spec fn volume_of(fs: FileSystem, disk: DiskAccess, machine: Machine) -> Seq<u8> {
    machine.disk.subrange(disk.base_offset as int, disk.base_offset + fs.spec_volume_size())
}

/// A transfer that was planned for bytes of the volume delivers them: the
/// machine reports success, and the payload is the bytes of the volume from
/// `offset` on, as many as the transfer was planned to deliver.
pub proof fn lemma_transfer_delivers(
    fs: FileSystem,
    disk: DiskAccess,
    area: StagingArea,
    machine: Machine,
    offset: u64,
    n: int,
)
    requires
        setting(fs, disk, area, machine),
        0 < n,
        offset + n <= fs.spec_volume_size(),
    ensures
        FileLoader::spec_plan(disk, area, offset, n) == Some(
            first_transfer(disk.base_offset + offset, n, area),
        ),
        ({
            let transfer = first_transfer(disk.base_offset + offset, n, area);
            let (after, report) = machine.perform(
                Action::Transfer { disk_number: disk.disk_number, packet: transfer.packet },
            );
            &&& transfer.fits(area)
            &&& 1 <= transfer.len <= n
            &&& (disk.base_offset + offset) % 512 + n <= area.capacity ==> transfer.len == n
            &&& (disk.base_offset + offset) % 512 == 0 && n > area.capacity ==> transfer.len
                == area.capacity
            &&& after.disk == machine.disk
            &&& after.memory == machine.memory
            &&& after.wf(area)
            &&& report == (EventView::Transferred { status: 0, staging: after.staging })
            &&& FileLoader::spec_payload(transfer, 0, after.staging) == Some(
                volume_of(fs, disk, machine).subrange(offset as int, offset + transfer.len),
            )
        }),
{
    fs.lemma_bounds();
    let abs = disk.base_offset + offset;
    let transfer = first_transfer(abs, n, area);
    let packet = transfer.packet;
    let first = packet.first_byte();
    let count = packet.byte_count();
    assert(first + transfer.skip == abs);
    assert(transfer.skip + transfer.len <= count <= area.capacity);
    assert(first + count <= machine.disk.len());
    let (after, report) = machine.perform(
        Action::Transfer { disk_number: disk.disk_number, packet },
    );
    assert(after.staging == machine.staged(first, count));
    assert(after.staging.subrange(transfer.skip as int, transfer.skip + transfer.len)
        =~= volume_of(fs, disk, machine).subrange(offset as int, offset + transfer.len));
}

/// The bytes that extents cover, one extent at a time.
pub proof fn lemma_extent_bytes_first(volume: Seq<u8>, first: ClusterExtent, rest: Seq<ClusterExtent>)
    ensures
        extent_bytes(volume, seq![first] + rest) == volume.subrange(
            first.start_offset as int,
            first.start_offset + first.len_bytes,
        ) + extent_bytes(volume, rest),
{
    assert((seq![first] + rest).drop_first() =~= rest);
}

impl FileLoader {
    /// What is still to come of the walk: the part of the current extent
    /// that was not yet read, and what the walk hands out from here on.
    pub open spec fn spec_rest(self, fs: FileSystem, volume: Seq<u8>) -> Walked {
        let walked = self.walk.run(fs, volume);
        if self.left > 0 {
            walked.after(ClusterExtent { start_offset: self.offset, len_bytes: self.left })
        } else {
            walked
        }
    }

    /// The loader after `len` bytes of the current extent were read and, if
    /// `copied`, came to lie at their destination.
    pub open spec fn spec_after_piece(self, len: int, copied: bool) -> FileLoader {
        FileLoader {
            offset: (self.offset + len) as u64,
            left: (self.left - len) as u32,
            loaded: if copied {
                (self.loaded + len) as u64
            } else {
                self.loaded
            },
            pending: Pending::Nothing,
            ..self
        }
    }
}

/// One piece of a file on its way: the loader asks for its transfer, then
/// for its copy behind what is loaded, and goes on when the byte that is
/// read back is the first byte of the piece, which on this machine it is.
/// A piece that would end beyond the region of the file halts the run.
proof fn lemma_piece_is_copied(
    loader: FileLoader,
    fs: FileSystem,
    disk: DiskAccess,
    area: StagingArea,
    machine: Machine,
)
    requires
        setting(fs, disk, area, machine),
        loader.wf(fs),
        loader.state == LoaderState::Loading,
        loader.pending is Nothing,
        loader.left > 0,
        loader.offset + loader.left <= fs.spec_volume_size(),
        loader.limit <= machine.memory.len(),
    ensures
        ({
            let volume = volume_of(fs, disk, machine);
            let transfer = first_transfer(disk.base_offset + loader.offset, loader.left as int, area);
            let piece = volume.subrange(loader.offset as int, loader.offset + transfer.len);
            let (asked, cursor, action) = loader.spec_read(disk, area);
            let out = asked.spec_run(fs, cursor, area, machine, action);
            let staged = machine.perform(action).0;
            let copied = Machine {
                memory: write_memory(machine.memory, loader.destination + loader.loaded, piece),
                ..staged
            };
            let behind = loader.spec_after_piece(transfer.len as int, true);
            let (next, onward, then) = behind.spec_advance(fs, cursor, area);
            &&& 1 <= transfer.len <= loader.left
            &&& cursor.base_offset == disk.base_offset
            &&& staged.disk == machine.disk
            &&& staged.wf(area)
            &&& cursor.disk_number == disk.disk_number
            &&& loader.destination + loader.loaded + transfer.len > loader.limit ==> out.end
                == Action::Halt(LoadError::HighMemoryVerificationMismatch) && out.machine
                == staged && out.disk == cursor
            &&& loader.destination + loader.loaded + transfer.len <= loader.limit ==> out
                == next.spec_run(fs, onward, area, copied, then) && loading(
                behind,
                fs,
                cursor,
                area,
                copied,
            )
        }),
{
    lemma_transfer_delivers(fs, disk, area, machine, loader.offset, loader.left as int);
    let volume = volume_of(fs, disk, machine);
    let transfer = first_transfer(disk.base_offset + loader.offset, loader.left as int, area);
    let piece = volume.subrange(loader.offset as int, loader.offset + transfer.len);
    let (asked, cursor, action) = loader.spec_read(disk, area);
    assert(action == Action::Transfer { disk_number: disk.disk_number, packet: transfer.packet });
    assert(asked.pending == Pending::Chunk(transfer));
    assert(asked.awaits(action));
    let (staged, report) = machine.perform(action);
    let (taken, cursor2, action2) = asked.spec_step(fs, cursor, area, report);
    assert(asked.spec_run(fs, cursor, area, machine, action) == taken.spec_run(
        fs,
        cursor2,
        area,
        staged,
        action2,
    ));
    assert(FileLoader::spec_payload(transfer, 0, staged.staging) == Some(piece));
    assert((taken, cursor2, action2) == asked.spec_take_chunk(fs, cursor, area, transfer, piece));
    if loader.destination + loader.loaded + transfer.len > loader.limit {
        assert(action2 == Action::Halt(LoadError::HighMemoryVerificationMismatch));
        assert(!taken.awaits(action2));
    } else {
        let destination = (loader.destination + loader.loaded) as u32;
        assert(action2 == Action::Copy { destination, skip: transfer.skip, len: transfer.len });
        assert(taken.awaits(action2));
        let (written, report2) = staged.perform(action2);
        assert(staged.staging.subrange(transfer.skip as int, transfer.skip + transfer.len)
            == piece);
        assert(written.memory == write_memory(machine.memory, destination as int, piece));
        assert(report2 == EventView::Copied { readback: piece[0] });
        let (next, onward, then) = taken.spec_step(fs, cursor2, area, report2);
        assert(taken.spec_run(fs, cursor2, area, staged, action2) == next.spec_run(
            fs,
            onward,
            area,
            written,
            then,
        ));
        let behind = loader.spec_after_piece(transfer.len as int, true);
        assert(behind == FileLoader {
            loaded: (taken.loaded + transfer.len) as u64,
            pending: Pending::Nothing,
            ..taken
        });
    }
}

/// A table entry on its way: where the walk waits for the entry of a
/// cluster, the loader asks for its transfer, hands the walk the bytes of
/// the volume that hold the entry, and goes on.
proof fn lemma_entry_is_supplied(
    loader: FileLoader,
    fs: FileSystem,
    disk: DiskAccess,
    area: StagingArea,
    machine: Machine,
)
    requires
        setting(fs, disk, area, machine),
        loader.wf(fs),
        loader.state is Searching || loader.state is Loading,
        loader.pending is Nothing,
        loader.left == 0,
        loader.walk.state is Linking,
    ensures
        ({
            let volume = volume_of(fs, disk, machine);
            let (asked, cursor, action) = loader.spec_advance(fs, disk, area);
            let out = asked.spec_run(fs, cursor, area, machine, action);
            let staged = machine.perform(action).0;
            let offset = fs.spec_fat_entry_offset(loader.walk.state->Linking_0 as int);
            let width = fs.spec_fat_type().spec_entry_width();
            let supplied = FileLoader {
                walk: loader.walk.spec_supply(fs, volume.subrange(offset, offset + width)),
                ..loader
            };
            let (next, onward, then) = supplied.spec_advance(fs, cursor, area);
            &&& out == next.spec_run(fs, onward, area, staged, then)
            &&& cursor.base_offset == disk.base_offset
            &&& cursor.disk_number == disk.disk_number
            &&& staged.disk == machine.disk
            &&& staged.memory == machine.memory
            &&& staged.wf(area)
            &&& supplied.wf(fs)
            &&& supplied.walk.run(fs, volume) == loader.walk.run(fs, volume)
            &&& supplied.walk.steps_left(fs) < loader.walk.steps_left(fs)
            &&& setting(fs, cursor, area, staged)
        }),
{
    let volume = volume_of(fs, disk, machine);
    let cluster = loader.walk.state->Linking_0;
    let offset = fs.spec_fat_entry_offset(cluster as int);
    let width = fs.spec_fat_type().spec_entry_width();
    crate::fat::chain::lemma_step_stays_inside(loader.walk, fs);
    let (walk, step) = loader.walk.spec_next(fs);
    assert(step == WalkStep::ReadTable { offset: offset as u64, len: width as usize });
    assert(walk == loader.walk);
    lemma_transfer_delivers(fs, disk, area, machine, offset as u64, width);
    let transfer = first_transfer(disk.base_offset + offset, width, area);
    assert(transfer.len == width);
    let entry = volume.subrange(offset, offset + width);
    let (asked, cursor, action) = loader.spec_advance(fs, disk, area);
    assert(action == Action::Transfer { disk_number: disk.disk_number, packet: transfer.packet });
    assert(asked.pending == Pending::Table(transfer));
    assert(asked.awaits(action));
    let (staged, report) = machine.perform(action);
    let (next, onward, then) = asked.spec_step(fs, cursor, area, report);
    assert(asked.spec_run(fs, cursor, area, machine, action) == next.spec_run(
        fs,
        onward,
        area,
        staged,
        then,
    ));
    assert(FileLoader::spec_payload(transfer, 0, staged.staging) == Some(entry));
    let supplied = FileLoader { walk: loader.walk.spec_supply(fs, entry), ..loader };
    assert(supplied == FileLoader {
        walk: asked.walk.spec_supply(fs, entry),
        pending: Pending::Nothing,
        ..asked
    });
    assert(volume.len() == fs.spec_volume_size()) by {
        fs.lemma_bounds();
    }
    assert(loader.walk.run(fs, volume) == supplied.walk.run(fs, volume));
}

/// Whether a loader that is loading, with nothing pending, comes to what
/// the rest of its walk says: the bytes that the rest of the walk covers come
/// to lie behind what is loaded already, and the run ends as the walk ends,
/// with the file reported or with the failure of the walk; or, where those
/// bytes would end beyond the region of the file, with
/// `HighMemoryVerificationMismatch`.
#[verifier::opaque]
pub open spec fn loads_rest(
    loader: FileLoader,
    fs: FileSystem,
    disk: DiskAccess,
    area: StagingArea,
    machine: Machine,
) -> bool {
    let volume = volume_of(fs, disk, machine);
    let rest = loader.spec_rest(fs, volume);
    let content = extent_bytes(volume, rest.extents);
    let (asked, cursor, action) = loader.spec_advance(fs, disk, area);
    let out = asked.spec_run(fs, cursor, area, machine, action);
    &&& out.machine.disk == machine.disk
    &&& out.machine.wf(area)
    &&& out.disk.base_offset == disk.base_offset
    &&& out.disk.disk_number == disk.disk_number
    &&& loader.destination + loader.loaded + content.len() <= loader.limit ==> {
        &&& out.machine.memory == write_memory(
            machine.memory,
            loader.destination + loader.loaded,
            content,
        )
        &&& out.end == match rest.failure {
            None => Action::Loaded {
                destination: loader.destination,
                total: (loader.loaded + content.len()) as u64,
            },
            Some(e) => Action::Halt(e),
        }
    }
    &&& loader.destination + loader.loaded + content.len() > loader.limit ==> out.end
        == Action::Halt(LoadError::HighMemoryVerificationMismatch)
}

/// What has to hold of a loader for `loads_rest` to be asked of it.
pub open spec fn loading(
    loader: FileLoader,
    fs: FileSystem,
    disk: DiskAccess,
    area: StagingArea,
    machine: Machine,
) -> bool {
    &&& setting(fs, disk, area, machine)
    &&& loader.wf(fs)
    &&& loader.state == LoaderState::Loading
    &&& loader.pending is Nothing
    &&& loader.left > 0 ==> loader.offset + loader.left <= fs.spec_volume_size()
    &&& loader.limit <= machine.memory.len()
}

/// A loader that is loading comes to what the rest of its walk says if,
/// with the next piece at its destination, it comes to what the rest behind
/// that piece says.
proof fn lemma_rest_behind_piece(
    loader: FileLoader,
    fs: FileSystem,
    disk: DiskAccess,
    area: StagingArea,
    machine: Machine,
)
    requires
        loading(loader, fs, disk, area, machine),
        loader.left > 0,
        ({
            let volume = volume_of(fs, disk, machine);
            let transfer = first_transfer(disk.base_offset + loader.offset, loader.left as int, area);
            let piece = volume.subrange(loader.offset as int, loader.offset + transfer.len);
            let (asked, cursor, action) = loader.spec_read(disk, area);
            let copied = Machine {
                memory: write_memory(machine.memory, loader.destination + loader.loaded, piece),
                ..machine.perform(action).0
            };
            loader.destination + loader.loaded + transfer.len <= loader.limit ==> loads_rest(
                loader.spec_after_piece(transfer.len as int, true),
                fs,
                cursor,
                area,
                copied,
            )
        }),
    ensures
        loads_rest(loader, fs, disk, area, machine),
{
    reveal(loads_rest);
    reveal(finds_rest);
    let volume = volume_of(fs, disk, machine);
    let walked = loader.walk.run(fs, volume);
    let rest = loader.spec_rest(fs, volume);
    let content = extent_bytes(volume, rest.extents);
    let (asked, cursor, action) = loader.spec_read(disk, area);
    let current = ClusterExtent { start_offset: loader.offset, len_bytes: loader.left };
    lemma_piece_is_copied(loader, fs, disk, area, machine);
    lemma_extent_bytes_first(volume, current, walked.extents);
    let transfer = first_transfer(disk.base_offset + loader.offset, loader.left as int, area);
    let piece = volume.subrange(loader.offset as int, loader.offset + transfer.len);
    assert(volume.len() == fs.spec_volume_size()) by {
        fs.lemma_bounds();
    }
    assert(loader.spec_advance(fs, disk, area) == loader.spec_read(disk, area));
    let out = asked.spec_run(fs, cursor, area, machine, action);
    assert(content.len() >= loader.left);
    assert(piece.len() == transfer.len);
    if loader.destination + loader.loaded + transfer.len <= loader.limit {
        let staged = machine.perform(action).0;
        let copied = Machine {
            memory: write_memory(machine.memory, loader.destination + loader.loaded, piece),
            ..staged
        };
        let behind = loader.spec_after_piece(transfer.len as int, true);
        assert(volume_of(fs, cursor, copied) == volume);
        assert(behind.loaded == loader.loaded + transfer.len);
        assert(behind.destination == loader.destination && behind.limit == loader.limit);
        assert(behind.spec_rest(fs, volume).failure == rest.failure);
        let (next, onward, then) = behind.spec_advance(fs, cursor, area);
        assert(out == next.spec_run(fs, onward, area, copied, then));
        assert(copied.disk == machine.disk);
        let beyond = extent_bytes(volume, behind.spec_rest(fs, volume).extents);
        assert(content =~= piece + beyond) by {
            let tail = volume.subrange(loader.offset + transfer.len, loader.offset + loader.left);
            assert(volume.subrange(loader.offset as int, loader.offset + loader.left) =~= piece
                + tail);
            if behind.left > 0 {
                lemma_extent_bytes_first(
                    volume,
                    ClusterExtent { start_offset: behind.offset, len_bytes: behind.left },
                    walked.extents,
                );
            } else {
                assert(tail =~= Seq::<u8>::empty());
            }
        }
        lemma_write_in_pieces(machine.memory, loader.destination + loader.loaded, piece, beyond);
    }
}

/// A loader that is loading, with no extent at hand, comes to what the rest
/// of its walk says if it does so after the next step of the walk.
proof fn lemma_rest_behind_step(
    loader: FileLoader,
    fs: FileSystem,
    disk: DiskAccess,
    area: StagingArea,
    machine: Machine,
)
    requires
        loading(loader, fs, disk, area, machine),
        loader.left == 0,
        ({
            let volume = volume_of(fs, disk, machine);
            let (walk, step) = loader.walk.spec_next(fs);
            let (asked, cursor, action) = loader.spec_advance(fs, disk, area);
            match step {
                WalkStep::Extent(extent) => loads_rest(
                    FileLoader { walk, offset: extent.start_offset, left: extent.len_bytes, ..loader },
                    fs,
                    disk,
                    area,
                    machine,
                ),
                WalkStep::ReadTable { offset, len } => loads_rest(
                    FileLoader {
                        walk: loader.walk.spec_supply(
                            fs,
                            volume.subrange(offset as int, offset + len),
                        ),
                        ..loader
                    },
                    fs,
                    cursor,
                    area,
                    machine.perform(action).0,
                ),
                _ => true,
            }
        }),
    ensures
        loads_rest(loader, fs, disk, area, machine),
{
    reveal(loads_rest);
    reveal(finds_rest);
    let volume = volume_of(fs, disk, machine);
    let rest = loader.spec_rest(fs, volume);
    let content = extent_bytes(volume, rest.extents);
    let (asked, cursor, action) = loader.spec_advance(fs, disk, area);
    crate::fat::chain::lemma_step_stays_inside(loader.walk, fs);
    let (walk, step) = loader.walk.spec_next(fs);
    match step {
        WalkStep::Extent(extent) => {
            let with_extent = FileLoader {
                walk,
                offset: extent.start_offset,
                left: extent.len_bytes,
                ..loader
            };
            assert(with_extent.spec_rest(fs, volume) == rest);
        },
        WalkStep::ReadTable { offset, len } => {
            lemma_entry_is_supplied(loader, fs, disk, area, machine);
            let staged = machine.perform(action).0;
            assert(volume_of(fs, cursor, staged) == volume);
        },
        WalkStep::Finished => {
            assert(content =~= Seq::<u8>::empty());
            assert(write_memory(machine.memory, loader.destination + loader.loaded, content)
                =~= machine.memory);
        },
        WalkStep::Failed(e) => {
            assert(content =~= Seq::<u8>::empty());
            assert(write_memory(machine.memory, loader.destination + loader.loaded, content)
                =~= machine.memory);
        },
    }
}

/// What a loader that is loading comes to, from any point of its walk on:
/// the bytes that the rest of the walk covers come to lie behind what is
/// loaded already, and the run ends as the walk ends, with the file reported
/// or with the failure of the walk; or, where those bytes would end beyond
/// the region of the file, with `HighMemoryVerificationMismatch`.
pub proof fn lemma_rest_is_loaded(
    loader: FileLoader,
    fs: FileSystem,
    disk: DiskAccess,
    area: StagingArea,
    machine: Machine,
)
    requires
        loading(loader, fs, disk, area, machine),
    ensures
        loads_rest(loader, fs, disk, area, machine),
    decreases loader.walk.steps_left(fs), loader.left,
{
    let volume = volume_of(fs, disk, machine);
    if loader.left > 0 {
        lemma_piece_is_copied(loader, fs, disk, area, machine);
        let transfer = first_transfer(disk.base_offset + loader.offset, loader.left as int, area);
        let piece = volume.subrange(loader.offset as int, loader.offset + transfer.len);
        let (asked, cursor, action) = loader.spec_read(disk, area);
        if loader.destination + loader.loaded + transfer.len <= loader.limit {
            let copied = Machine {
                memory: write_memory(machine.memory, loader.destination + loader.loaded, piece),
                ..machine.perform(action).0
            };
            lemma_rest_is_loaded(
                loader.spec_after_piece(transfer.len as int, true),
                fs,
                cursor,
                area,
                copied,
            );
        }
        lemma_rest_behind_piece(loader, fs, disk, area, machine);
    } else {
        crate::fat::chain::lemma_step_stays_inside(loader.walk, fs);
        crate::fat::chain::lemma_walk_ends(loader.walk, fs, Seq::empty());
        let (walk, step) = loader.walk.spec_next(fs);
        let (asked, cursor, action) = loader.spec_advance(fs, disk, area);
        match step {
            WalkStep::Extent(extent) => {
                lemma_rest_is_loaded(
                    FileLoader { walk, offset: extent.start_offset, left: extent.len_bytes, ..loader },
                    fs,
                    disk,
                    area,
                    machine,
                );
            },
            WalkStep::ReadTable { offset, len } => {
                lemma_entry_is_supplied(loader, fs, disk, area, machine);
                lemma_rest_is_loaded(
                    FileLoader {
                        walk: loader.walk.spec_supply(
                            fs,
                            volume.subrange(offset as int, offset + len),
                        ),
                        ..loader
                    },
                    fs,
                    cursor,
                    area,
                    machine.perform(action).0,
                );
            },
            _ => {},
        }
        lemma_rest_behind_step(loader, fs, disk, area, machine);
    }
}

/// What loading the file of a directory entry comes to, given what the
/// memory held before and where the file goes: the memory afterwards and the
/// action that the run ends with.
pub open spec fn file_in_memory(
    fs: FileSystem,
    volume: Seq<u8>,
    entry: DirectoryEntryView,
    memory: Seq<u8>,
    destination: int,
    limit: int,
    out: Outcome,
) -> bool {
    let walked = fs.spec_file_clusters(entry).run(fs, volume);
    let content = extent_bytes(volume, walked.extents);
    &&& destination + content.len() <= limit ==> {
        &&& out.machine.memory == write_memory(memory, destination, content)
        &&& out.end == match walked.failure {
            None => Action::Loaded {
                destination: destination as u32,
                total: content.len() as u64,
            },
            Some(e) => Action::Halt(e),
        }
    }
    &&& destination + content.len() > limit ==> out.end == Action::Halt(
        LoadError::HighMemoryVerificationMismatch,
    )
}

/// Whether a loader that is searching, with nothing pending, comes to what
/// the rest of the directory says: where the rest holds no record of the
/// name, the run ends with the failure of the search and memory is as it
/// was; where it holds one, the file of the first such record is loaded.
#[verifier::opaque]
pub open spec fn finds_rest(
    loader: FileLoader,
    fs: FileSystem,
    disk: DiskAccess,
    area: StagingArea,
    machine: Machine,
) -> bool {
    let volume = volume_of(fs, disk, machine);
    let (asked, cursor, action) = loader.spec_advance(fs, disk, area);
    let out = asked.spec_run(fs, cursor, area, machine, action);
    &&& out.machine.disk == machine.disk
    &&& out.machine.wf(area)
    &&& out.disk.base_offset == disk.base_offset
    &&& out.disk.disk_number == disk.disk_number
    &&& match spec_find_in(loader.name, volume, loader.spec_rest(fs, volume)) {
        Err(e) => out.end == Action::Halt(e) && out.machine.memory == machine.memory,
        Ok(entry) => file_in_memory(
            fs,
            volume,
            entry,
            machine.memory,
            loader.destination as int,
            loader.limit as int,
            out,
        ),
    }
}

/// What has to hold of a loader for `finds_rest` to be asked of it.
pub open spec fn searching(
    loader: FileLoader,
    fs: FileSystem,
    disk: DiskAccess,
    area: StagingArea,
    machine: Machine,
) -> bool {
    &&& setting(fs, disk, area, machine)
    &&& loader.wf(fs)
    &&& loader.state == LoaderState::Searching
    &&& loader.pending is Nothing
    &&& loader.loaded == 0
    &&& loader.left > 0 ==> loader.offset + loader.left <= fs.spec_volume_size() && loader.offset
        % 512 == 0
    &&& loader.limit <= machine.memory.len()
}

/// One piece of the directory on its way: the loader asks for its transfer
/// and looks through it. Where the piece holds a record of the name, the
/// loader turns to the file of the first such record; else it goes on with
/// the rest of the directory.
proof fn lemma_piece_is_scanned(
    loader: FileLoader,
    fs: FileSystem,
    disk: DiskAccess,
    area: StagingArea,
    machine: Machine,
)
    requires
        searching(loader, fs, disk, area, machine),
        loader.left > 0,
    ensures
        ({
            let volume = volume_of(fs, disk, machine);
            let transfer = first_transfer(disk.base_offset + loader.offset, loader.left as int, area);
            let piece = volume.subrange(loader.offset as int, loader.offset + transfer.len);
            let (asked, cursor, action) = loader.spec_read(disk, area);
            let out = asked.spec_run(fs, cursor, area, machine, action);
            let staged = machine.perform(action).0;
            let onward = match spec_scan(loader.name, piece) {
                Some(entry) => FileLoader {
                    state: LoaderState::Loading,
                    walk: fs.spec_file_clusters(entry),
                    left: 0,
                    ..loader.spec_after_piece(transfer.len as int, false)
                },
                None => loader.spec_after_piece(transfer.len as int, false),
            };
            let (next, beyond, then) = onward.spec_advance(fs, cursor, area);
            &&& 1 <= transfer.len <= loader.left
            &&& transfer.len == loader.left || transfer.len == area.capacity
            &&& cursor.base_offset == disk.base_offset
            &&& cursor.disk_number == disk.disk_number
            &&& staged.disk == machine.disk
            &&& staged.memory == machine.memory
            &&& staged.wf(area)
            &&& out == next.spec_run(fs, beyond, area, staged, then)
            &&& match spec_scan(loader.name, piece) {
                Some(entry) => loading(onward, fs, cursor, area, staged),
                None => searching(onward, fs, cursor, area, staged),
            }
        }),
{
    fs.lemma_bounds();
    lemma_transfer_delivers(fs, disk, area, machine, loader.offset, loader.left as int);
    let volume = volume_of(fs, disk, machine);
    let transfer = first_transfer(disk.base_offset + loader.offset, loader.left as int, area);
    let piece = volume.subrange(loader.offset as int, loader.offset + transfer.len);
    let (asked, cursor, action) = loader.spec_read(disk, area);
    assert(action == Action::Transfer { disk_number: disk.disk_number, packet: transfer.packet });
    assert(asked.pending == Pending::Chunk(transfer));
    assert(asked.awaits(action));
    let (staged, report) = machine.perform(action);
    let (taken, cursor2, action2) = asked.spec_step(fs, cursor, area, report);
    assert(asked.spec_run(fs, cursor, area, machine, action) == taken.spec_run(
        fs,
        cursor2,
        area,
        staged,
        action2,
    ));
    assert(FileLoader::spec_payload(transfer, 0, staged.staging) == Some(piece));
    assert((taken, cursor2, action2) == asked.spec_take_chunk(fs, cursor, area, transfer, piece));
    let behind = loader.spec_after_piece(transfer.len as int, false);
    assert(behind == FileLoader { pending: Pending::Nothing, ..asked });
}

/// Searching the rest of a directory piece by piece: where the first
/// extent of the rest is cut in two at a record boundary, the search finds
/// what the first piece holds, and else what the rest behind that piece
/// holds.
proof fn lemma_find_in_pieces(
    name: ShortName,
    volume: Seq<u8>,
    walked: Walked,
    offset: u64,
    left: u32,
    len: int,
)
    requires
        offset + left <= volume.len(),
        0 < len <= left,
        len < left ==> len % 32 == 0,
        offset + left <= u64::MAX,
    ensures
        spec_find_in(
            name,
            volume,
            walked.after(ClusterExtent { start_offset: offset, len_bytes: left }),
        ) == match spec_scan(name, volume.subrange(offset as int, offset + len)) {
            Some(entry) => Ok::<DirectoryEntryView, LoadError>(entry),
            None => spec_find_in(
                name,
                volume,
                if len < left {
                    walked.after(
                        ClusterExtent {
                            start_offset: (offset + len) as u64,
                            len_bytes: (left - len) as u32,
                        },
                    )
                } else {
                    walked
                },
            ),
        },
{
    let current = ClusterExtent { start_offset: offset, len_bytes: left };
    let rest = walked.after(current);
    let piece = volume.subrange(offset as int, offset + len);
    let tail = volume.subrange(offset + len, offset + left);
    assert(rest.extents[0] == current);
    assert(rest.extents.drop_first() =~= walked.extents);
    assert((Walked { extents: rest.extents.drop_first(), failure: rest.failure }) == walked);
    assert(volume.subrange(offset as int, offset + left) =~= piece + tail);
    if len < left {
        lemma_scan_in_pieces(name, piece, tail);
        let left_over = ClusterExtent {
            start_offset: (offset + len) as u64,
            len_bytes: (left - len) as u32,
        };
        let behind = walked.after(left_over);
        assert(behind.extents[0] == left_over);
        assert(behind.extents.drop_first() =~= walked.extents);
        assert((Walked { extents: behind.extents.drop_first(), failure: behind.failure })
            == walked);
    }
}

/// A loader that is searching comes to what the rest of the directory says
/// if, with the next piece looked through, it comes to what the file found
/// in it, or else the rest behind that piece, says.
proof fn lemma_search_behind_piece(
    loader: FileLoader,
    fs: FileSystem,
    disk: DiskAccess,
    area: StagingArea,
    machine: Machine,
)
    requires
        searching(loader, fs, disk, area, machine),
        loader.left > 0,
        ({
            let volume = volume_of(fs, disk, machine);
            let transfer = first_transfer(disk.base_offset + loader.offset, loader.left as int, area);
            let piece = volume.subrange(loader.offset as int, loader.offset + transfer.len);
            let (asked, cursor, action) = loader.spec_read(disk, area);
            let staged = machine.perform(action).0;
            match spec_scan(loader.name, piece) {
                Some(entry) => loads_rest(
                    FileLoader {
                        state: LoaderState::Loading,
                        walk: fs.spec_file_clusters(entry),
                        left: 0,
                        ..loader.spec_after_piece(transfer.len as int, false)
                    },
                    fs,
                    cursor,
                    area,
                    staged,
                ),
                None => finds_rest(
                    loader.spec_after_piece(transfer.len as int, false),
                    fs,
                    cursor,
                    area,
                    staged,
                ),
            }
        }),
    ensures
        finds_rest(loader, fs, disk, area, machine),
{
    reveal(loads_rest);
    reveal(finds_rest);
    let volume = volume_of(fs, disk, machine);
    let walked = loader.walk.run(fs, volume);
    let (asked, cursor, action) = loader.spec_read(disk, area);
    assert(loader.spec_advance(fs, disk, area) == loader.spec_read(disk, area));
    lemma_piece_is_scanned(loader, fs, disk, area, machine);
    let transfer = first_transfer(disk.base_offset + loader.offset, loader.left as int, area);
    let staged = machine.perform(action).0;
    let behind = loader.spec_after_piece(transfer.len as int, false);
    assert(volume.len() == fs.spec_volume_size()) by {
        fs.lemma_bounds();
    }
    assert(volume_of(fs, cursor, staged) == volume);
    lemma_find_in_pieces(loader.name, volume, walked, loader.offset, loader.left, transfer.len as int);
    assert(behind.spec_rest(fs, volume) == if transfer.len < loader.left {
        walked.after(
            ClusterExtent {
                start_offset: (loader.offset + transfer.len) as u64,
                len_bytes: (loader.left - transfer.len) as u32,
            },
        )
    } else {
        walked
    });
}

/// A loader that is searching, with no extent at hand, comes to what the
/// rest of the directory says if it does so after the next step of the walk.
proof fn lemma_search_behind_step(
    loader: FileLoader,
    fs: FileSystem,
    disk: DiskAccess,
    area: StagingArea,
    machine: Machine,
)
    requires
        searching(loader, fs, disk, area, machine),
        loader.left == 0,
        ({
            let volume = volume_of(fs, disk, machine);
            let (walk, step) = loader.walk.spec_next(fs);
            let (asked, cursor, action) = loader.spec_advance(fs, disk, area);
            match step {
                WalkStep::Extent(extent) => finds_rest(
                    FileLoader { walk, offset: extent.start_offset, left: extent.len_bytes, ..loader },
                    fs,
                    disk,
                    area,
                    machine,
                ),
                WalkStep::ReadTable { offset, len } => finds_rest(
                    FileLoader {
                        walk: loader.walk.spec_supply(
                            fs,
                            volume.subrange(offset as int, offset + len),
                        ),
                        ..loader
                    },
                    fs,
                    cursor,
                    area,
                    machine.perform(action).0,
                ),
                _ => true,
            }
        }),
    ensures
        finds_rest(loader, fs, disk, area, machine),
{
    reveal(loads_rest);
    reveal(finds_rest);
    let volume = volume_of(fs, disk, machine);
    let rest = loader.spec_rest(fs, volume);
    let (asked, cursor, action) = loader.spec_advance(fs, disk, area);
    crate::fat::chain::lemma_step_stays_inside(loader.walk, fs);
    let (walk, step) = loader.walk.spec_next(fs);
    match step {
        WalkStep::Extent(extent) => {
            let with_extent = FileLoader {
                walk,
                offset: extent.start_offset,
                left: extent.len_bytes,
                ..loader
            };
            assert(with_extent.spec_rest(fs, volume) == rest);
        },
        WalkStep::ReadTable { offset, len } => {
            lemma_entry_is_supplied(loader, fs, disk, area, machine);
            let staged = machine.perform(action).0;
            assert(volume_of(fs, cursor, staged) == volume);
        },
        WalkStep::Finished => {},
        WalkStep::Failed(e) => {},
    }
}

/// What a loader that is searching comes to, from any point of the
/// directory on.
pub proof fn lemma_rest_is_searched(
    loader: FileLoader,
    fs: FileSystem,
    disk: DiskAccess,
    area: StagingArea,
    machine: Machine,
)
    requires
        searching(loader, fs, disk, area, machine),
    ensures
        finds_rest(loader, fs, disk, area, machine),
    decreases loader.walk.steps_left(fs), loader.left,
{
    let volume = volume_of(fs, disk, machine);
    if loader.left > 0 {
        lemma_piece_is_scanned(loader, fs, disk, area, machine);
        let transfer = first_transfer(disk.base_offset + loader.offset, loader.left as int, area);
        let piece = volume.subrange(loader.offset as int, loader.offset + transfer.len);
        let (asked, cursor, action) = loader.spec_read(disk, area);
        let staged = machine.perform(action).0;
        let behind = loader.spec_after_piece(transfer.len as int, false);
        match spec_scan(loader.name, piece) {
            Some(entry) => {
                fs.lemma_bounds();
                lemma_rest_is_loaded(
                    FileLoader {
                        state: LoaderState::Loading,
                        walk: fs.spec_file_clusters(entry),
                        left: 0,
                        ..behind
                    },
                    fs,
                    cursor,
                    area,
                    staged,
                );
            },
            None => {
                lemma_rest_is_searched(behind, fs, cursor, area, staged);
            },
        }
        lemma_search_behind_piece(loader, fs, disk, area, machine);
    } else {
        crate::fat::chain::lemma_step_stays_inside(loader.walk, fs);
        crate::fat::chain::lemma_walk_ends(loader.walk, fs, Seq::empty());
        let (walk, step) = loader.walk.spec_next(fs);
        let (asked, cursor, action) = loader.spec_advance(fs, disk, area);
        match step {
            WalkStep::Extent(extent) => {
                lemma_rest_is_searched(
                    FileLoader { walk, offset: extent.start_offset, left: extent.len_bytes, ..loader },
                    fs,
                    disk,
                    area,
                    machine,
                );
            },
            WalkStep::ReadTable { offset, len } => {
                lemma_entry_is_supplied(loader, fs, disk, area, machine);
                lemma_rest_is_searched(
                    FileLoader {
                        walk: loader.walk.spec_supply(
                            fs,
                            volume.subrange(offset as int, offset + len),
                        ),
                        ..loader
                    },
                    fs,
                    cursor,
                    area,
                    machine.perform(action).0,
                );
            },
            _ => {},
        }
        lemma_search_behind_step(loader, fs, disk, area, machine);
    }
}

/// Loading a file does what looking it up and reading it says.
///
/// On a machine that does what it is asked, with the volume whole on its
/// disk, the loading of the file `name` to `destination` ends as follows.
/// Where the root directory holds no record of the name, or the search
/// fails, it halts with the failure of the search, and memory is as it was.
/// Where the directory holds one, the bytes that the cluster chain of the
/// first such record covers, cut to the size of the file, lie at
/// `destination`, every other byte of memory is as it was, and the file is
/// reported with that many bytes, or the failure of the chain if it fails;
/// unless those bytes would end beyond `limit`, which halts the loading with
/// `HighMemoryVerificationMismatch`.
pub proof fn lemma_file_is_loaded(
    fs: FileSystem,
    disk: DiskAccess,
    area: StagingArea,
    machine: Machine,
    name: ShortName,
    destination: u32,
    limit: u64,
)
    requires
        setting(fs, disk, area, machine),
        destination <= limit <= ADDRESS_SPACE_END,
        limit <= machine.memory.len(),
    ensures
        ({
            let volume = volume_of(fs, disk, machine);
            let out = FileLoader::spec_load(fs, disk, area, machine, name, destination, limit);
            &&& out.machine.disk == machine.disk
            &&& out.machine.wf(area)
            &&& out.disk.base_offset == disk.base_offset
            &&& out.disk.disk_number == disk.disk_number
            &&& match fs.spec_find_file_in_root_dir(volume, name) {
                Err(e) => out.end == Action::Halt(e) && out.machine.memory == machine.memory,
                Ok(entry) => file_in_memory(
                    fs,
                    volume,
                    entry,
                    machine.memory,
                    destination as int,
                    limit as int,
                    out,
                ),
            }
        }),
{
    reveal(finds_rest);
    let loader = FileLoader::spec_new(fs, name, destination, limit);
    fs.lemma_walks_start_well(
        DirectoryEntryView { name: Seq::empty(), first_cluster: 0, size_bytes: 0 },
    );
    assert(loader.spec_step(fs, disk, area, EventView::Begin) == loader.spec_advance(
        fs,
        disk,
        area,
    ));
    lemma_rest_is_searched(loader, fs, disk, area, machine);
}

/// Whatever a loader is told, what it then asks for is either something it
/// waits for an answer to, or the end of the loading: the file reported or a
/// halt. The cursor stays on its disk and partition.
pub proof fn lemma_step_asks(
    loader: FileLoader,
    fs: FileSystem,
    disk: DiskAccess,
    area: StagingArea,
    event: EventView,
)
    ensures
        ({
            let (stepped, cursor, action) = loader.spec_step(fs, disk, area, event);
            &&& stepped.awaits(action) || action is Loaded || action is Halt
            &&& cursor.base_offset == disk.base_offset
            &&& cursor.disk_number == disk.disk_number
        }),
{
}

/// A loader that gets the report of what it was waiting for is nearer to
/// its end afterwards, and its run from before is its run from there.
pub proof fn lemma_run_steps(
    loader: FileLoader,
    fs: FileSystem,
    disk: DiskAccess,
    area: StagingArea,
    machine: Machine,
    action: Action,
)
    requires
        fs.wf(),
        area.wf(),
    ensures
        ({
            let (after, report) = machine.perform(action);
            let (stepped, cursor, next) = loader.spec_step(fs, disk, area, report);
            &&& loader.awaits(action) ==> loader.spec_run(fs, disk, area, machine, action)
                == stepped.spec_run(fs, cursor, area, after, next)
            &&& !loader.awaits(action) ==> loader.spec_run(fs, disk, area, machine, action) == (
            Outcome { end: action, machine, disk })
            &&& loader.awaits(action) ==> decreases_to!(
                loader.phase_rank(),
                loader.walk.steps_left(fs),
                loader.left,
                loader.pending_rank() =>
                stepped.phase_rank(),
                stepped.walk.steps_left(fs),
                stepped.left,
                stepped.pending_rank()
            )
        }),
{
}

impl SimulatedMachine {
    /// Loads one file on this machine: looks the name up in the root
    /// directory of the volume and brings the file to `destination`, into a
    /// region that ends at `limit`. Returns the action that the loading
    /// ends with, which reports the file or halts.
    pub fn load_file(
        &mut self,
        fs: &FileSystem,
        disk: &mut DiskAccess,
        area: &StagingArea,
        name: ShortName,
        destination: u32,
        limit: u64,
    ) -> (end: Action)
        requires
            fs.wf(),
            area.wf(),
            destination <= limit <= ADDRESS_SPACE_END,
        ensures
            FileLoader::spec_load(*fs, *old(disk), *area, old(self)@, name, destination, limit) == (
            Outcome { end, machine: final(self)@, disk: *final(disk) }),
            end is Loaded || end is Halt,
    {
        let mut loader = FileLoader::new(fs, name, destination, limit);
        let ghost whole = FileLoader::spec_load(*fs, *disk, *area, self@, name, destination, limit);
        proof {
            lemma_step_asks(loader, *fs, *disk, *area, EventView::Begin);
        }
        let mut action = loader.step(fs, disk, area, Event::Begin);
        loop
            invariant
                fs.wf(),
                area.wf(),
                loader.wf(*fs),
                loader.pending_fits(*area),
                loader.awaits(action) || action is Loaded || action is Halt,
                whole == FileLoader::spec_load(
                    *fs,
                    *old(disk),
                    *area,
                    old(self)@,
                    name,
                    destination,
                    limit,
                ),
                whole == loader.spec_run(*fs, *disk, *area, self@, action),
            decreases
                loader.phase_rank(),
                loader.walk.steps_left(*fs),
                loader.left,
                loader.pending_rank(),
        {
            proof {
                lemma_run_steps(loader, *fs, *disk, *area, self@, action);
                lemma_step_asks(loader, *fs, *disk, *area, self@.perform(action).1);
            }
            match action {
                Action::Loaded { .. } | Action::Halt(_) => {
                    return action;
                },
                _ => {},
            }
            let report = self.perform(action);
            action = loader.step(fs, disk, area, report.event(self.staging.as_slice()));
        }
    }
}

} // verus!
