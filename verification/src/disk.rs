use crate::dap::{DiskAddressPacket, LOW_MEMORY_END, PACKET_SIZE};
use crate::error::LoadError;
use vstd::prelude::*;

verus! {

/// The size of a disk sector, in bytes.
pub const SECTOR_SIZE: u64 = 512;

/// The most sectors that one BIOS transfer may move: with an offset below
/// sixteen, that many sectors stay inside one 64 KiB segment.
pub const MAX_SECTORS_PER_TRANSFER: u32 = 127;

/// Where to move the read cursor.
#[derive(Clone, Copy, Debug, PartialEq, Eq, Structural)]
pub enum SeekFrom {
    /// To this many bytes from the start of the partition.
    Start(u64),
}

/// The low-memory region that every BIOS transfer lands in: its linear
/// address and its size in bytes. The caller owns the memory; the library only
/// computes with its place and size.
#[derive(Clone, Copy, Debug, PartialEq, Eq, Structural)]
pub struct StagingArea {
    pub address: u32,
    pub capacity: u32,
}

impl StagingArea {
    /// A staging area holds a whole number of sectors, at least one and at
    /// most `MAX_SECTORS_PER_TRANSFER`, and ends at or below the 1 MiB mark.
    pub open spec fn wf(&self) -> bool {
        &&& self.capacity >= 512
        &&& self.capacity % 512 == 0
        &&& self.capacity <= 127 * 512
        &&& self.address + self.capacity <= LOW_MEMORY_END
    }

    /// The staging area at `address` of `capacity` bytes, if that is a
    /// well-formed one.
    pub fn new(address: u32, capacity: u32) -> (r: Option<StagingArea>)
        ensures
            r is Some <==> (StagingArea { address, capacity }).wf(),
            r is Some ==> r->Some_0 == (StagingArea { address, capacity }),
    {
        if capacity >= 512 && capacity % 512 == 0 && capacity <= MAX_SECTORS_PER_TRANSFER * 512
            && address <= LOW_MEMORY_END - capacity {
            Some(StagingArea { address, capacity })
        } else {
            None
        }
    }
}

/// One BIOS transfer of a read, and where in the staging area the wanted bytes
/// lie once it is done: `len` bytes from `skip` on.
#[derive(Clone, Copy, Debug, PartialEq, Eq, Structural)]
pub struct Transfer {
    pub packet: DiskAddressPacket,
    pub skip: usize,
    pub len: usize,
}

impl Transfer {
    /// What a faithful extended read of `packet` leaves in the staging area:
    /// the sectors of `medium` that the packet names.
    pub open spec fn staged(&self, medium: Seq<u8>) -> Seq<u8> {
        medium.subrange(self.packet.first_byte(), self.packet.first_byte() + self.packet.byte_count())
    }

    /// The bytes of the request that this transfer delivers.
    pub open spec fn payload(&self, medium: Seq<u8>) -> Seq<u8> {
        self.staged(medium).subrange(self.skip as int, self.skip + self.len)
    }

    /// A transfer moves at least one sector and no more than the staging area
    /// holds, lands at the start of the staging area, and its payload lies
    /// inside what it moved.
    pub open spec fn fits(&self, staging: StagingArea) -> bool {
        &&& self.packet.packet_size == PACKET_SIZE
        &&& self.packet.zero == 0
        &&& 1 <= self.packet.number_of_sectors
        &&& self.packet.byte_count() <= staging.capacity
        &&& self.packet.target() == staging.address
        &&& self.skip < 512
        &&& 1 <= self.len
        &&& self.skip + self.len <= self.packet.byte_count()
        &&& self.packet.byte_count() < self.skip + self.len + 512
    }
}

/// The first transfer of a read of `n > 0` bytes at the absolute disk offset
/// `abs`: it starts with the sector that holds `abs` and takes as many of the
/// wanted bytes as the staging area has room for behind the skipped ones.
pub open spec fn first_transfer(abs: int, n: int, staging: StagingArea) -> Transfer {
    let skip = abs % 512;
    let len = if n <= staging.capacity - skip {
        n
    } else {
        staging.capacity - skip
    };
    Transfer {
        packet: DiskAddressPacket {
            packet_size: PACKET_SIZE,
            zero: 0,
            number_of_sectors: ((skip + len + 511) / 512) as u16,
            offset: (staging.address % 16) as u16,
            segment: (staging.address / 16) as u16,
            start_lba: (abs / 512) as u64,
        },
        skip: skip as usize,
        len: len as usize,
    }
}

/// The transfers that a read of `n` bytes at the absolute disk offset `abs`
/// is made of, in order.
pub open spec fn transfers(abs: int, n: int, staging: StagingArea) -> Seq<Transfer>
    decreases n,
{
    if n <= 0 || abs < 0 || !staging.wf() {
        Seq::empty()
    } else {
        let first = first_transfer(abs, n, staging);
        seq![first] + transfers(abs + first.len, n - first.len, staging)
    }
}

/// The bytes that a plan delivers from `medium`, transfer after transfer.
pub open spec fn delivered(medium: Seq<u8>, plan: Seq<Transfer>) -> Seq<u8>
    decreases plan.len(),
{
    if plan.len() == 0 {
        Seq::empty()
    } else {
        plan[0].payload(medium) + delivered(medium, plan.drop_first())
    }
}

/// The read cursor over one partition of one disk. Copying it copies the
/// cursor and nothing else.
#[derive(Clone, Copy, Debug, PartialEq, Eq, Structural)]
pub struct DiskAccess {
    /// The BIOS drive number.
    pub disk_number: u16,
    /// Where the partition starts on the disk, in bytes.
    pub base_offset: u64,
    /// The cursor, in bytes from the start of the partition.
    pub current_offset: u64,
}

impl DiskAccess {
    /// The absolute disk offset of the cursor.
    pub open spec fn position(&self) -> int {
        self.base_offset + self.current_offset
    }

    /// The cursor at the start of the partition that begins at sector
    /// `logical_block_address` of disk `disk_number`.
    pub fn new(disk_number: u16, logical_block_address: u32) -> (disk: DiskAccess)
        ensures
            disk.disk_number == disk_number,
            disk.base_offset == logical_block_address * 512,
            disk.current_offset == 0,
    {
        DiskAccess {
            disk_number,
            base_offset: logical_block_address as u64 * SECTOR_SIZE,
            current_offset: 0,
        }
    }

    /// Moves the cursor and returns where it now is.
    pub fn seek(&mut self, pos: SeekFrom) -> (offset: u64)
        ensures
            pos == SeekFrom::Start(offset),
            final(self).current_offset == offset,
            final(self).disk_number == old(self).disk_number,
            final(self).base_offset == old(self).base_offset,
    {
        match pos {
            SeekFrom::Start(offset) => {
                self.current_offset = offset;
                self.current_offset
            },
        }
    }

    /// Plans one transfer that reads at the cursor, and moves the cursor past
    /// what it delivers: as many of the next `n` bytes as one transfer can
    /// deliver.
    ///
    /// Fails with `DiskReadError`, leaving the cursor where it was, exactly
    /// when `n` is zero or the end of the `n` bytes lies beyond what 64 bits
    /// can address.
    pub fn read_chunk(&mut self, n: usize, staging: &StagingArea) -> (r: Result<Transfer, LoadError>)
        requires
            staging.wf(),
        ensures
            final(self).disk_number == old(self).disk_number,
            final(self).base_offset == old(self).base_offset,
            r is Ok <==> 0 < n && old(self).position() + n <= u64::MAX,
            r matches Ok(transfer) ==> {
                &&& transfer == first_transfer(old(self).position(), n as int, *staging)
                &&& final(self).current_offset == old(self).current_offset + transfer.len
                &&& transfer.fits(*staging)
                &&& transfer.len <= n
            },
            r matches Err(e) ==> e == LoadError::DiskReadError && *final(self) == *old(self),
    {
        if n == 0 {
            return Err(LoadError::DiskReadError);
        }
        let start = match self.base_offset.checked_add(self.current_offset) {
            Some(start) => start,
            None => {
                return Err(LoadError::DiskReadError);
            },
        };
        if start.checked_add(n as u64).is_none() {
            return Err(LoadError::DiskReadError);
        }
        let skip = start % SECTOR_SIZE;
        let room = staging.capacity as u64 - skip;
        let len = if n as u64 <= room {
            n as u64
        } else {
            room
        };
        let sectors = (skip + len + 511) / SECTOR_SIZE;
        match DiskAddressPacket::to_linear_address(
            start / SECTOR_SIZE,
            sectors as u16,
            staging.address,
        ) {
            Some(packet) => {
                self.current_offset = self.current_offset + len;
                Ok(Transfer { packet, skip: skip as usize, len: len as usize })
            },
            None => Err(LoadError::DiskReadError),
        }
    }

    /// Plans the read of the next `n` bytes at the cursor and moves the cursor
    /// past them.
    ///
    /// The plan is a list of transfers. The caller performs each in turn: it
    /// hands the packet to the BIOS, which fills the staging area from its
    /// start, and then takes `len` bytes from `skip` on out of the staging
    /// area. Those pieces, one after the other, are the `n` bytes.
    ///
    /// Fails with `DiskReadError`, leaving the cursor where it was, exactly
    /// when the end of the read lies beyond what 64 bits can address.
    pub fn read_exact(&mut self, n: usize, staging: &StagingArea) -> (r: Result<
        Vec<Transfer>,
        LoadError,
    >)
        requires
            staging.wf(),
        ensures
            final(self).disk_number == old(self).disk_number,
            final(self).base_offset == old(self).base_offset,
            r is Ok <==> old(self).position() + n <= u64::MAX,
            r matches Ok(plan) ==> {
                &&& final(self).current_offset == old(self).current_offset + n
                &&& plan@ == transfers(old(self).position(), n as int, *staging)
            },
            r matches Err(e) ==> e == LoadError::DiskReadError && *final(self) == *old(self),
    {
        let start = match self.base_offset.checked_add(self.current_offset) {
            Some(start) => start,
            None => {
                return Err(LoadError::DiskReadError);
            },
        };
        if start.checked_add(n as u64).is_none() {
            return Err(LoadError::DiskReadError);
        }
        let ghost before = *self;
        let mut plan: Vec<Transfer> = Vec::new();
        let mut left: usize = n;
        while left > 0
            invariant
                staging.wf(),
                self.disk_number == before.disk_number,
                self.base_offset == before.base_offset,
                self.current_offset + left == before.current_offset + n,
                start == before.position(),
                start + n <= u64::MAX,
                left <= n,
                plan@ + transfers(self.position(), left as int, *staging) == transfers(
                    start as int,
                    n as int,
                    *staging,
                ),
            decreases left,
        {
            let ghost abs = self.position();
            match self.read_chunk(left, staging) {
                Ok(first) => {
                    proof {
                        let rest = transfers(abs + first.len, left - first.len, *staging);
                        assert(transfers(abs, left as int, *staging) == seq![first] + rest);
                        assert(plan@.push(first) + rest =~= plan@ + (seq![first] + rest));
                    }
                    plan.push(first);
                    left = left - first.len;
                },
                Err(e) => {
                    // cannot happen: the end of the read can be addressed
                    return Err(e);
                },
            }
        }
        assert(plan@ + Seq::<Transfer>::empty() =~= plan@);
        Ok(plan)
    }
}

/// What the status that the BIOS returns for a transfer means: zero is
/// success, anything else a `DiskReadError`.
pub fn check_status(status: u8) -> (r: Result<(), LoadError>)
    ensures
        r == (if status == 0 {
            Ok::<(), LoadError>(())
        } else {
            Err(LoadError::DiskReadError)
        }),
{
    if status == 0 {
        Ok(())
    } else {
        Err(LoadError::DiskReadError)
    }
}

/// Every transfer of a plan fits the staging area it was planned for.
pub proof fn lemma_transfers_fit(abs: int, n: int, staging: StagingArea)
    requires
        staging.wf(),
        0 <= abs,
        abs + n <= u64::MAX,
    ensures
        forall|i: int|
            0 <= i < transfers(abs, n, staging).len() ==> (#[trigger] transfers(
                abs,
                n,
                staging,
            )[i]).fits(staging),
    decreases n,
{
    if n > 0 {
        let first = first_transfer(abs, n, staging);
        let rest = transfers(abs + first.len, n - first.len, staging);
        lemma_transfers_fit(abs + first.len, n - first.len, staging);
        assert(first.fits(staging));
        assert forall|i: int| 0 <= i < transfers(abs, n, staging).len() implies (
        #[trigger] transfers(abs, n, staging)[i]).fits(staging) by {
            if i > 0 {
                assert(transfers(abs, n, staging)[i] == rest[i - 1]);
            }
        }
    }
}

/// Reading returns the bytes under the cursor: on a medium of whole sectors
/// that holds the range, the pieces that the transfers of a read at `abs` of
/// `n` bytes deliver, put together, are the bytes of the medium from `abs` to
/// `abs + n`.
pub proof fn lemma_read_returns_medium_bytes(
    medium: Seq<u8>,
    abs: int,
    n: int,
    staging: StagingArea,
)
    requires
        staging.wf(),
        medium.len() % 512 == 0,
        0 <= abs,
        0 <= n,
        abs + n <= medium.len(),
        abs + n <= u64::MAX,
    ensures
        delivered(medium, transfers(abs, n, staging)) == medium.subrange(abs, abs + n),
    decreases n,
{
    let plan = transfers(abs, n, staging);
    if n == 0 {
        assert(medium.subrange(abs, abs + n) =~= Seq::<u8>::empty());
    } else {
        let first = first_transfer(abs, n, staging);
        let rest = transfers(abs + first.len, n - first.len, staging);
        lemma_read_returns_medium_bytes(medium, abs + first.len, n - first.len, staging);
        assert(plan.drop_first() =~= rest);
        assert(plan[0] == first);
        let lo = first.packet.first_byte();
        assert(lo + first.skip == abs);
        assert(lo + first.packet.byte_count() <= medium.len());
        assert(first.payload(medium) =~= medium.subrange(abs, abs + first.len));
        assert(medium.subrange(abs, abs + first.len) + medium.subrange(abs + first.len, abs + n)
            =~= medium.subrange(abs, abs + n));
    }
}

} // verus!
