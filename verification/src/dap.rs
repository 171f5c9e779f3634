use crate::endian::{u16_at, u32_at};
use vstd::prelude::*;

verus! {

/// The size of a disk address packet, which is also its first byte.
pub const PACKET_SIZE: u8 = 0x10;

/// The first address that a real-mode `segment:offset` pair cannot reach with
/// an offset below sixteen: the 1 MiB mark.
pub const LOW_MEMORY_END: u32 = 0x10_0000;

/// The descriptor that the BIOS extended read service takes: how many sectors
/// to read, from which sector on, and where in low memory to put them.
#[derive(Clone, Copy, Debug, PartialEq, Eq, Structural)]
pub struct DiskAddressPacket {
    /// Size of the packet, always 16.
    pub packet_size: u8,
    /// Always zero.
    pub zero: u8,
    /// Number of sectors to transfer.
    pub number_of_sectors: u16,
    /// Offset part of the destination.
    pub offset: u16,
    /// Segment part of the destination.
    pub segment: u16,
    /// First sector to read, counted from the start of the disk.
    pub start_lba: u64,
}

impl DiskAddressPacket {
    /// The linear address that `segment:offset` names.
    pub open spec fn target(&self) -> int {
        self.segment * 16 + self.offset
    }

    /// The first disk byte that the transfer reads.
    pub open spec fn first_byte(&self) -> int {
        self.start_lba * 512
    }

    /// The number of bytes that the transfer moves.
    pub open spec fn byte_count(&self) -> int {
        self.number_of_sectors * 512
    }

    /// A packet that reads `number_of_sectors` sectors from `start_lba` on to
    /// `target_addr_segment:target_addr`.
    pub fn from_lba(
        start_lba: u64,
        number_of_sectors: u16,
        target_addr: u16,
        target_addr_segment: u16,
    ) -> (packet: DiskAddressPacket)
        ensures
            packet == (DiskAddressPacket {
                packet_size: PACKET_SIZE,
                zero: 0,
                number_of_sectors,
                offset: target_addr,
                segment: target_addr_segment,
                start_lba,
            }),
    {
        DiskAddressPacket {
            packet_size: PACKET_SIZE,
            zero: 0,
            number_of_sectors,
            offset: target_addr,
            segment: target_addr_segment,
            start_lba,
        }
    }

    /// A packet that reads to the linear address `target`, split into the
    /// segment `target / 16` and the offset `target % 16`. There is such a
    /// packet exactly when `target` lies below the 1 MiB mark.
    pub fn to_linear_address(start_lba: u64, number_of_sectors: u16, target: u32) -> (r: Option<
        DiskAddressPacket,
    >)
        ensures
            r is Some <==> target < LOW_MEMORY_END,
            r is Some ==> {
                let packet = r->Some_0;
                &&& packet.packet_size == PACKET_SIZE
                &&& packet.zero == 0
                &&& packet.number_of_sectors == number_of_sectors
                &&& packet.start_lba == start_lba
                &&& packet.segment == target / 16
                &&& packet.offset == target % 16
                &&& packet.target() == target
            },
    {
        if target >= LOW_MEMORY_END {
            return None;
        }
        let offset = target & 0b1111;
        let segment = target >> 4;
        assert(offset == target % 16 && segment == target / 16 && segment <= 0xffff) by (bit_vector)
            requires
                offset == target & 0b1111,
                segment == target >> 4,
                target < 0x10_0000,
        ;
        Some(DiskAddressPacket::from_lba(start_lba, number_of_sectors, offset as u16, segment as u16))
    }

    /// The sixteen bytes that the BIOS reads the packet from: size, zero,
    /// sector count, offset, segment and first sector, each little-endian.
    pub fn to_bytes(&self) -> (bytes: [u8; 16])
        ensures
            bytes@[0] == self.packet_size,
            bytes@[1] == self.zero,
            u16_at(bytes@, 2) == self.number_of_sectors,
            u16_at(bytes@, 4) == self.offset,
            u16_at(bytes@, 6) == self.segment,
            u32_at(bytes@, 8) + 0x1_0000_0000 * u32_at(bytes@, 12) == self.start_lba,
    {
        let s = low_high(self.number_of_sectors);
        let o = low_high(self.offset);
        let g = low_high(self.segment);
        let lba = self.start_lba;
        let w0: u64 = lba & 0xffff;
        let w1: u64 = (lba >> 16) & 0xffff;
        let w2: u64 = (lba >> 32) & 0xffff;
        let w3: u64 = (lba >> 48) & 0xffff;
        assert(w0 <= 0xffff && w1 <= 0xffff && w2 <= 0xffff && w3 <= 0xffff && lba == w0 + 0x1_0000
            * w1 + 0x1_0000_0000 * w2 + 0x1_0000_0000_0000 * w3) by (bit_vector)
            requires
                w0 == lba & 0xffff,
                w1 == (lba >> 16) & 0xffff,
                w2 == (lba >> 32) & 0xffff,
                w3 == (lba >> 48) & 0xffff,
        ;
        let a0 = low_high(w0 as u16);
        let a1 = low_high(w1 as u16);
        let a2 = low_high(w2 as u16);
        let a3 = low_high(w3 as u16);
        [
            self.packet_size,
            self.zero,
            s.0,
            s.1,
            o.0,
            o.1,
            g.0,
            g.1,
            a0.0,
            a0.1,
            a1.0,
            a1.1,
            a2.0,
            a2.1,
            a3.0,
            a3.1,
        ]
    }
}

/// The low and the high byte of a sixteen-bit number.
fn low_high(x: u16) -> (r: (u8, u8))
    ensures
        r.0 + 0x100 * r.1 == x,
        r.0 == x % 0x100,
        r.1 == x / 0x100,
{
    let low = x & 0xff;
    let high = x >> 8;
    assert(low == x % 0x100 && high == x / 0x100 && low < 0x100 && high < 0x100) by (bit_vector)
        requires
            low == x & 0xff,
            high == x >> 8,
    ;
    (low as u8, high as u8)
}

} // verus!
