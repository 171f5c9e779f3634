use bios_stage_2::dap::DiskAddressPacket;
use bios_stage_2::disk::{check_status, DiskAccess, SeekFrom, StagingArea, Transfer};
use bios_stage_2::error::LoadError;
use bios_stage_2::machine::SimulatedMachine;
use bios_stage_2::slices::split_array_ref;

fn medium(sectors: usize) -> Vec<u8> {
    (0..sectors * 512).map(|i| ((i * 7) ^ (i >> 9) ^ (i >> 3)) as u8).collect()
}

/// Does what the caller of a plan does: every transfer fills the staging buffer from
/// its start, and the payload is taken out of it.
fn perform(medium: &[u8], staging: &StagingArea, plan: &[Transfer]) -> Vec<u8> {
    let mut buffer = vec![0xeeu8; staging.capacity as usize];
    let mut out = Vec::new();
    for transfer in plan {
        let packet = transfer.packet;
        assert_eq!(packet.packet_size, 16);
        assert_eq!(packet.zero, 0);
        assert_eq!(packet.segment as u32 * 16 + packet.offset as u32, staging.address);
        assert!(packet.offset < 16);
        let bytes = packet.number_of_sectors as usize * 512;
        assert!(bytes >= 512 && bytes <= buffer.len());
        let from = packet.start_lba as usize * 512;
        buffer[..bytes].copy_from_slice(&medium[from..from + bytes]);
        assert!(transfer.len >= 1 && transfer.skip < 512);
        assert!(transfer.skip + transfer.len <= bytes);
        out.extend_from_slice(&buffer[transfer.skip..transfer.skip + transfer.len]);
    }
    out
}

#[test]
fn seek_then_read_returns_the_bytes_at_the_offset() {
    let medium = medium(200);
    let staging = StagingArea::new(0x7c00, 0x4000).unwrap();
    let base_lba = 3u32;
    for offset in [0u64, 1, 511, 512, 513, 1000, 16384, 20_000, 50_001] {
        for n in [0usize, 1, 2, 511, 512, 513, 4096, 16383, 16384, 16385, 40_000] {
            let mut disk = DiskAccess::new(0x80, base_lba);
            assert_eq!(disk.seek(SeekFrom::Start(offset)), offset);
            let plan = disk.read_exact(n, &staging).unwrap();
            assert_eq!(disk.current_offset, offset + n as u64);
            assert_eq!(disk.base_offset, 3 * 512);
            assert_eq!(disk.disk_number, 0x80);
            let from = 3 * 512 + offset as usize;
            assert_eq!(perform(&medium, &staging, &plan), &medium[from..from + n]);
        }
    }
}

#[test]
fn aligned_read_of_a_full_buffer_is_one_transfer() {
    let staging = StagingArea::new(0x1_0000, 0x4000).unwrap();
    let mut disk = DiskAccess::new(0x81, 2048);
    disk.seek(SeekFrom::Start(0x8000));
    let plan = disk.read_exact(0x4000, &staging).unwrap();
    assert_eq!(
        plan,
        vec![Transfer {
            packet: DiskAddressPacket {
                packet_size: 16,
                zero: 0,
                number_of_sectors: 32,
                offset: 0,
                segment: 0x1000,
                start_lba: 2048 + 64,
            },
            skip: 0,
            len: 0x4000,
        }]
    );
}

#[test]
fn unaligned_read_skips_into_the_first_sector() {
    let staging = StagingArea::new(0x504, 1024).unwrap();
    let mut disk = DiskAccess::new(0x80, 10);
    disk.seek(SeekFrom::Start(700));
    let plan = disk.read_exact(1000, &staging).unwrap();
    // byte 700 of the partition lies 188 bytes into sector 11; 836 bytes fit behind that
    let packet = |lba: u64, sectors: u16| DiskAddressPacket {
        packet_size: 16,
        zero: 0,
        number_of_sectors: sectors,
        offset: 4,
        segment: 0x50,
        start_lba: lba,
    };
    assert_eq!(
        plan,
        vec![
            Transfer { packet: packet(11, 2), skip: 188, len: 836 },
            Transfer { packet: packet(13, 1), skip: 0, len: 164 },
        ]
    );
    assert_eq!(disk.current_offset, 1700);
}

#[test]
fn empty_read_needs_no_transfer() {
    let staging = StagingArea::new(0x500, 512).unwrap();
    let mut disk = DiskAccess::new(0x80, 10);
    disk.seek(SeekFrom::Start(77));
    assert_eq!(disk.read_exact(0, &staging), Ok(vec![]));
    assert_eq!(disk.current_offset, 77);
    assert_eq!(disk.read_chunk(0, &staging), Err(LoadError::DiskReadError));
}

#[test]
fn read_chunk_is_the_first_transfer_of_a_read() {
    let staging = StagingArea::new(0x504, 1024).unwrap();
    let mut whole = DiskAccess::new(0x80, 10);
    whole.seek(SeekFrom::Start(700));
    let plan = whole.read_exact(1000, &staging).unwrap();
    let mut disk = DiskAccess::new(0x80, 10);
    disk.seek(SeekFrom::Start(700));
    assert_eq!(disk.read_chunk(1000, &staging), Ok(plan[0]));
    assert_eq!(disk.current_offset, 700 + 836);
    assert_eq!(disk.read_chunk(164, &staging), Ok(plan[1]));
    assert_eq!(disk.current_offset, 1700);
}

#[test]
fn read_beyond_what_can_be_addressed_fails() {
    let staging = StagingArea::new(0x500, 512).unwrap();
    let mut disk = DiskAccess { disk_number: 0x80, base_offset: 512, current_offset: 0 };
    disk.seek(SeekFrom::Start(u64::MAX - 600));
    assert_eq!(disk.read_exact(89, &staging), Err(LoadError::DiskReadError));
    assert_eq!(disk.current_offset, u64::MAX - 600);
    assert_eq!(disk.read_chunk(89, &staging), Err(LoadError::DiskReadError));
    assert!(disk.read_exact(88, &staging).is_ok());
    assert_eq!(disk.current_offset, u64::MAX - 512);
    disk.seek(SeekFrom::Start(u64::MAX));
    assert_eq!(disk.read_exact(1, &staging), Err(LoadError::DiskReadError));
}

#[test]
fn copies_of_a_cursor_move_apart() {
    let mut disk = DiskAccess::new(0x80, 1);
    let copy = disk;
    disk.seek(SeekFrom::Start(4096));
    assert_eq!(copy.current_offset, 0);
    assert_eq!(disk.current_offset, 4096);
    assert_eq!(copy.base_offset, disk.base_offset);
}

#[test]
fn staging_area_must_be_whole_sectors_in_low_memory() {
    assert!(StagingArea::new(0x500, 512).is_some());
    assert!(StagingArea::new(0, 0x4000).is_some());
    assert_eq!(StagingArea::new(0x7c00, 0x4000), Some(StagingArea { address: 0x7c00, capacity: 0x4000 }));
    assert!(StagingArea::new(0x500, 0).is_none());
    assert!(StagingArea::new(0x500, 511).is_none());
    assert!(StagingArea::new(0x500, 513).is_none());
    assert!(StagingArea::new(0x500, 127 * 512).is_some());
    assert!(StagingArea::new(0x500, 128 * 512).is_none());
    assert!(StagingArea::new(0x10_0000 - 512, 512).is_some());
    assert!(StagingArea::new(0x10_0000 - 511, 512).is_none());
    assert!(StagingArea::new(0xffff_ffff, 512).is_none());
}

#[test]
fn status_zero_is_success() {
    assert_eq!(check_status(0), Ok(()));
    for status in 1..=255u8 {
        assert_eq!(check_status(status), Err(LoadError::DiskReadError));
    }
}

#[test]
fn packet_bytes_are_little_endian() {
    let packet = DiskAddressPacket::from_lba(0x0102_0304_0506_0708, 0x1234, 0x000f, 0xabcd);
    assert_eq!(
        packet.to_bytes(),
        [0x10, 0x00, 0x34, 0x12, 0x0f, 0x00, 0xcd, 0xab, 0x08, 0x07, 0x06, 0x05, 0x04, 0x03, 0x02, 0x01]
    );
    let packet = DiskAddressPacket::from_lba(1, 1, 0, 0);
    assert_eq!(packet.to_bytes(), [0x10, 0, 1, 0, 0, 0, 0, 0, 1, 0, 0, 0, 0, 0, 0, 0]);
}

#[test]
fn linear_address_splits_into_segment_and_offset() {
    let packet = DiskAddressPacket::to_linear_address(99, 3, 0x7c05).unwrap();
    assert_eq!(packet, DiskAddressPacket::from_lba(99, 3, 5, 0x7c0));
    let packet = DiskAddressPacket::to_linear_address(0, 1, 0xf_ffff).unwrap();
    assert_eq!((packet.segment, packet.offset), (0xffff, 0xf));
    assert_eq!(DiskAddressPacket::to_linear_address(0, 1, 0x10_0000), None);
    assert_eq!(DiskAddressPacket::to_linear_address(0, 1, u32::MAX), None);
}

#[test]
fn slice_splits_into_array_and_rest() {
    let bytes = [1u8, 2, 3, 4, 5];
    let (head, tail) = split_array_ref::<2, u8>(&bytes);
    assert_eq!(head, &[1, 2]);
    assert_eq!(tail, &[3, 4, 5]);
    let (all, none) = split_array_ref::<5, u8>(&bytes);
    assert_eq!(all, &bytes);
    assert!(none.is_empty());
    let (nothing, rest) = split_array_ref::<0, u8>(&bytes);
    assert_eq!(nothing.len(), 0);
    assert_eq!(rest, &bytes);
    let words = [10u32, 20, 30];
    let (one, two) = split_array_ref::<1, u32>(&words);
    assert_eq!((one, two), (&[10u32], &[20u32, 30][..]));
}

#[test]
fn machine_reads_the_bytes_under_the_cursor() {
    let medium = medium(100);
    for capacity in [512usize, 1024, 0x4000] {
        let staging = StagingArea::new(0x7c00, capacity as u32).unwrap();
        let mut machine = SimulatedMachine::new(medium.clone(), capacity, 0);
        for offset in [0u64, 1, 511, 512, 700, 16384, 30_000] {
            for n in [0usize, 1, 3, 512, 513, 1024, 16384, 17_000] {
                let mut cursor = DiskAccess::new(0x80, 5);
                cursor.seek(SeekFrom::Start(offset));
                let from = 5 * 512 + offset as usize;
                assert_eq!(machine.read_exact(&mut cursor, n, &staging), Ok(medium[from..from + n].to_vec()));
                assert_eq!(cursor.current_offset, offset + n as u64);
            }
        }
    }
}

#[test]
fn machine_cannot_read_behind_the_end_of_the_disk() {
    let medium = medium(10);
    let staging = StagingArea::new(0x7c00, 1024).unwrap();
    let mut machine = SimulatedMachine::new(medium.clone(), 1024, 0);
    let mut cursor = DiskAccess::new(0x80, 8);
    cursor.seek(SeekFrom::Start(1000));
    assert_eq!(machine.read_exact(&mut cursor, 24, &staging), Ok(medium[5096..].to_vec()));
    assert_eq!(machine.read_exact(&mut cursor, 0, &staging), Ok(vec![]));
    assert_eq!(machine.read_exact(&mut cursor, 1, &staging), Err(LoadError::DiskReadError));
    cursor.seek(SeekFrom::Start(0));
    assert_eq!(machine.read_exact(&mut cursor, 1025, &staging), Err(LoadError::DiskReadError));
    cursor.seek(SeekFrom::Start(1025));
    assert_eq!(machine.read_exact(&mut cursor, 0, &staging), Err(LoadError::DiskReadError));
    let mut beyond = DiskAccess::new(0x80, 11);
    assert_eq!(machine.read_exact(&mut beyond, 0, &staging), Err(LoadError::DiskReadError));
}
