use crate::disk::{DiskAccess, StagingArea};
use crate::error::LoadError;
use crate::loader::{Action, Event, EventView};
use vstd::prelude::*;

verus! {

/// The machine that a boot runs on, as far as the loader can tell: the bytes
/// on the disk, what the staging area holds, and physical memory from address
/// zero on.
pub struct Machine {
    pub disk: Seq<u8>,
    pub staging: Seq<u8>,
    pub memory: Seq<u8>,
}

/// Memory after `bytes` were written from address `at` on. What would lie
/// beyond the end of memory is lost.
pub open spec fn write_memory(memory: Seq<u8>, at: int, bytes: Seq<u8>) -> Seq<u8> {
    Seq::new(
        memory.len(),
        |a: int|
            if at <= a < at + bytes.len() {
                bytes[a - at]
            } else {
                memory[a]
            },
    )
}

/// The status that a failed transfer reports in this model.
pub const TRANSFER_FAILED: u8 = 1;

/// The byte that a read beyond the end of memory gives in this model.
pub const NO_MEMORY: u8 = 0xff;

impl Machine {
    /// The disk holds whole sectors, the staging area holds `capacity`
    /// bytes.
    pub open spec fn wf(self, area: StagingArea) -> bool {
        &&& self.disk.len() % 512 == 0
        &&& self.staging.len() == area.capacity
    }

    /// What the staging area holds after a transfer of `count` bytes from
    /// byte `first` of the disk on: those bytes, and behind them what it
    /// held before.
    pub open spec fn staged(self, first: int, count: int) -> Seq<u8> {
        self.disk.subrange(first, first + count) + self.staging.subrange(
            count,
            self.staging.len() as int,
        )
    }

    /// The machine after it did what `action` asks for, and what it reports.
    ///
    /// A transfer of sectors that the disk has fills the staging area from
    /// its start and reports success; any other transfer changes nothing
    /// and reports failure. A copy writes the bytes to memory, unless the
    /// staging area does not hold them all, and reports the byte that then
    /// lies at the destination. Every other action changes nothing.
    pub open spec fn perform(self, action: Action) -> (Machine, EventView) {
        match action {
            Action::Transfer { disk_number, packet } => if packet.first_byte() + packet.byte_count()
                <= self.disk.len() && packet.byte_count() <= self.staging.len() {
                let staging = self.staged(packet.first_byte(), packet.byte_count());
                (Machine { staging, ..self }, EventView::Transferred { status: 0, staging })
            } else {
                (self, EventView::Transferred { status: TRANSFER_FAILED, staging: self.staging })
            },
            Action::Copy { destination, skip, len } => {
                let memory = write_memory(
                    self.memory,
                    destination as int,
                    if skip + len <= self.staging.len() {
                        self.staging.subrange(skip as int, skip + len)
                    } else {
                        Seq::empty()
                    },
                );
                (
                    Machine { memory, ..self },
                    EventView::Copied {
                        readback: if destination < memory.len() {
                            memory[destination as int]
                        } else {
                            NO_MEMORY
                        },
                    },
                )
            },
            _ => (self, EventView::Begin),
        }
    }
}

/// The byte that is read back after a copy is the first byte that was
/// copied, wherever in memory the copy lies and whatever boundary it spans.
pub proof fn lemma_copy_reads_back(machine: Machine, destination: u32, skip: usize, len: usize)
    requires
        1 <= len,
        skip + len <= machine.staging.len(),
        destination < machine.memory.len(),
    ensures
        ({
            let (after, report) = machine.perform(Action::Copy { destination, skip, len });
            &&& report == (EventView::Copied { readback: machine.staging[skip as int] })
            &&& after.memory.len() == machine.memory.len()
            &&& forall|a: int|
                destination <= a < destination + len && a < after.memory.len()
                    ==> #[trigger] after.memory[a] == machine.staging[skip + a - destination]
            &&& forall|a: int|
                0 <= a < after.memory.len() && !(destination <= a < destination + len)
                    ==> #[trigger] after.memory[a] == machine.memory[a]
        }),
{
}

/// Writing one run of bytes and then another right behind it is writing
/// both at once.
pub proof fn lemma_write_in_pieces(memory: Seq<u8>, at: int, first: Seq<u8>, second: Seq<u8>)
    ensures
        write_memory(write_memory(memory, at, first), at + first.len(), second) == write_memory(
            memory,
            at,
            first + second,
        ),
{
    assert(write_memory(write_memory(memory, at, first), at + first.len(), second) =~= write_memory(
        memory,
        at,
        first + second,
    ));
}

/// A machine in memory, to run a boot on where there is no BIOS: a disk
/// image, a staging area and physical memory from address zero on. It does
/// what `Machine::perform` says.
#[derive(Debug)]
pub struct SimulatedMachine {
    pub disk: Vec<u8>,
    pub staging: Vec<u8>,
    pub memory: Vec<u8>,
}

impl View for SimulatedMachine {
    type V = Machine;

    open spec fn view(&self) -> Machine {
        Machine { disk: self.disk@, staging: self.staging@, memory: self.memory@ }
    }
}

/// What the simulated machine reports of an action. The staging area is not
/// part of it: the machine holds it.
#[derive(Clone, Copy, Debug, PartialEq, Eq, Structural)]
pub enum Report {
    Nothing,
    Transferred { status: u8 },
    Copied { readback: u8 },
}

impl Report {
    /// The event that the report is, with what the staging area holds.
    pub open spec fn spec_event(self, staging: Seq<u8>) -> EventView {
        match self {
            Report::Nothing => EventView::Begin,
            Report::Transferred { status } => EventView::Transferred { status, staging },
            Report::Copied { readback } => EventView::Copied { readback },
        }
    }

    /// The event that the report is, with what the staging area holds.
    pub fn event<'a>(self, staging: &'a [u8]) -> (event: Event<'a>)
        ensures
            event@ == self.spec_event(staging@),
    {
        match self {
            Report::Nothing => Event::Begin,
            Report::Transferred { status } => Event::Transferred { status, staging },
            Report::Copied { readback } => Event::Copied { readback },
        }
    }
}

impl SimulatedMachine {
    /// A machine with the disk image `disk`, a staging area of `capacity`
    /// bytes and `memory` bytes of memory, both zeroed.
    pub fn new(disk: Vec<u8>, capacity: usize, memory: usize) -> (machine: SimulatedMachine)
        ensures
            machine.disk@ == disk@,
            machine.staging@ == Seq::new(capacity as nat, |i: int| 0u8),
            machine.memory@ == Seq::new(memory as nat, |i: int| 0u8),
    {
        let staging = vec![0u8; capacity];
        let memory = vec![0u8; memory];
        assert(staging@ =~= Seq::new(capacity as nat, |i: int| 0u8));
        assert(memory@ =~= Seq::new(memory.len() as nat, |i: int| 0u8));
        SimulatedMachine { disk, staging, memory }
    }

    /// Does what `action` asks for, and reports.
    pub fn perform(&mut self, action: Action) -> (report: Report)
        ensures
            (final(self)@, report.spec_event(final(self).staging@)) == old(self)@.perform(action),
    {
        match action {
            Action::Transfer { disk_number, packet } => self.transfer(
                packet.start_lba,
                packet.number_of_sectors,
            ),
            Action::Copy { destination, skip, len } => self.copy(destination, skip, len),
            _ => Report::Nothing,
        }
    }

    /// Fills the staging area from its start with `number_of_sectors`
    /// sectors of the disk from sector `start_lba` on, if the disk has them
    /// and the staging area holds them.
    fn transfer(&mut self, start_lba: u64, number_of_sectors: u16) -> (report: Report)
        ensures
            final(self).disk == old(self).disk,
            final(self).memory == old(self).memory,
            start_lba * 512 + number_of_sectors * 512 <= old(self).disk@.len()
                && number_of_sectors * 512 <= old(self).staging@.len() ==> {
                &&& report == Report::Transferred { status: 0 }
                &&& final(self).staging@ == old(self)@.staged(
                    start_lba * 512,
                    number_of_sectors * 512,
                )
            },
            !(start_lba * 512 + number_of_sectors * 512 <= old(self).disk@.len()
                && number_of_sectors * 512 <= old(self).staging@.len()) ==> {
                &&& report == Report::Transferred { status: TRANSFER_FAILED }
                &&& final(self).staging == old(self).staging
            },
    {
        let sectors_on_disk = (self.disk.len() / 512) as u64;
        let count = number_of_sectors as usize * 512;
        if start_lba > sectors_on_disk || number_of_sectors as u64 > sectors_on_disk - start_lba
            || count > self.staging.len() {
            return Report::Transferred { status: TRANSFER_FAILED };
        }
        let first = start_lba as usize * 512;
        let ghost before = self.staging@;
        let mut i: usize = 0;
        while i < count
            invariant
                i <= count <= self.staging@.len(),
                first + count <= self.disk@.len() <= usize::MAX,
                before.len() == self.staging@.len(),
                self.disk == old(self).disk,
                self.memory == old(self).memory,
                before == old(self).staging@,
                self.staging@ == self.disk@.subrange(first as int, first + i) + before.subrange(
                    i as int,
                    before.len() as int,
                ),
            decreases count - i,
        {
            let byte = self.disk[first + i];
            self.staging[i] = byte;
            i += 1;
            assert(self.staging@ =~= self.disk@.subrange(first as int, first + i)
                + before.subrange(i as int, before.len() as int));
        }
        Report::Transferred { status: 0 }
    }

    /// Copies `len` bytes of the staging area, from `skip` on, to memory
    /// from `destination` on, and reads the byte at `destination` back.
    fn copy(&mut self, destination: u32, skip: usize, len: usize) -> (report: Report)
        ensures
            (final(self)@, report.spec_event(final(self).staging@)) == old(self)@.perform(
                Action::Copy { destination, skip, len },
            ),
    {
        let ghost before = self.memory@;
        let size = self.memory.len() as u64;
        if skip <= self.staging.len() && len <= self.staging.len() - skip {
            let ghost bytes = self.staging@.subrange(skip as int, skip + len);
            let mut i: usize = 0;
            while i < len
                invariant
                    i <= len,
                    skip + len <= self.staging@.len() <= usize::MAX,
                    self.memory@.len() == before.len() == size <= usize::MAX,
                    self.disk == old(self).disk,
                    self.staging == old(self).staging,
                    before == old(self).memory@,
                    bytes == self.staging@.subrange(skip as int, skip + len),
                    self.memory@ == write_memory(
                        before,
                        destination as int,
                        bytes.subrange(0, i as int),
                    ),
                decreases len - i,
            {
                if (destination as u64) < size && (i as u64) < size - destination as u64 {
                    let byte = self.staging[skip + i];
                    self.memory[destination as usize + i] = byte;
                }
                i += 1;
                assert(self.memory@ =~= write_memory(
                    before,
                    destination as int,
                    bytes.subrange(0, i as int),
                ));
            }
            assert(bytes.subrange(0, len as int) =~= bytes);
        } else {
            assert(self.memory@ =~= write_memory(before, destination as int, Seq::empty()));
        }
        let readback = if (destination as u64) < size {
            self.memory[destination as usize]
        } else {
            NO_MEMORY
        };
        Report::Copied { readback }
    }
}

impl SimulatedMachine {
    /// Reads the next `n` bytes at the cursor from the disk of this machine,
    /// transfer by transfer through the staging area, and moves the cursor
    /// past them.
    ///
    /// Returns exactly the bytes that lie on the disk from the cursor on.
    /// Fails with `DiskReadError` exactly when the disk ends before the last
    /// of them.
    pub fn read_exact(&mut self, cursor: &mut DiskAccess, n: usize, area: &StagingArea) -> (r:
        Result<Vec<u8>, LoadError>)
        requires
            area.wf(),
            old(self)@.wf(*area),
        ensures
            final(self).disk == old(self).disk,
            final(self).memory == old(self).memory,
            final(self)@.wf(*area),
            final(cursor).disk_number == old(cursor).disk_number,
            final(cursor).base_offset == old(cursor).base_offset,
            r is Ok <==> old(cursor).position() + n <= old(self).disk@.len(),
            r matches Ok(bytes) ==> {
                &&& bytes@ == old(self).disk@.subrange(
                    old(cursor).position(),
                    old(cursor).position() + n,
                )
                &&& final(cursor).current_offset == old(cursor).current_offset + n
            },
            r matches Err(e) ==> e == LoadError::DiskReadError,
    {
        let ghost start = cursor.position();
        let ghost disk = self.disk@;
        let size = self.disk.len() as u64;
        if cursor.base_offset > size || cursor.current_offset > size - cursor.base_offset {
            return Err(LoadError::DiskReadError);
        }
        let mut bytes: Vec<u8> = Vec::new();
        let mut left: usize = n;
        assert(disk.subrange(start, start + 0) =~= Seq::<u8>::empty());
        while left > 0
            invariant
                area.wf(),
                self@.wf(*area),
                self.disk@ == disk,
                self.disk == old(self).disk,
                self.memory == old(self).memory,
                disk.len() <= usize::MAX,
                cursor.disk_number == old(cursor).disk_number,
                cursor.base_offset == old(cursor).base_offset,
                start == old(cursor).position(),
                left <= n,
                cursor.position() == start + n - left,
                cursor.position() <= disk.len(),
                bytes@ == disk.subrange(start, start + n - left),
            decreases left,
        {
            let ghost at = cursor.position();
            let transfer = match cursor.read_chunk(left, area) {
                Ok(transfer) => transfer,
                Err(e) => {
                    return Err(LoadError::DiskReadError);
                },
            };
            let report = self.transfer(transfer.packet.start_lba, transfer.packet.number_of_sectors);
            match report {
                Report::Transferred { status: 0 } => {},
                _ => {
                    return Err(LoadError::DiskReadError);
                },
            }
            let piece = vstd::slice::slice_subrange(
                self.staging.as_slice(),
                transfer.skip,
                transfer.skip + transfer.len,
            );
            proof {
                assert(piece@ =~= disk.subrange(at, at + transfer.len));
                assert(bytes@ + piece@ =~= disk.subrange(start, at + transfer.len));
            }
            bytes.extend_from_slice(piece);
            assert(bytes@ =~= disk.subrange(start, at + transfer.len));
            left = left - transfer.len;
        }
        Ok(bytes)
    }
}

} // verus!
