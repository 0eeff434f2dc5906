use fake_tc6::fake_tc6_device::{
    FakeTc6DeviceError, FakeTc6SpiDevice, FakeTc6SpiDeviceError, Mode, DEFAULT_BLOCK_SIZE,
};
use fake_tc6::transmit_header::TransmitHeader;

#[test]
fn it_works() {
    let _device = FakeTc6SpiDevice::new();
}

#[test]
fn test_transferred_is_ok() {
    let mut tc6 = FakeTc6SpiDevice::new();
    let mut write_buff = [0u8; 64 + 4];
    write_buff[0] = 0b1000_0000; // dnc
    write_buff[3] = 0b1; // parity
    let mut read_buff = [0u8; 64 + 4];
    let res = tc6.transfer(read_buff.as_mut_slice(), write_buff.as_mut_slice());
    println!("{:?}", res);
    assert!(res.is_ok());
}

#[test]
fn test_transferred_is_ok_with_header() {
    let _header = TransmitHeader {
        dnc: false,
        seq: false,
        norx: false,
        dv: true,
        sv: true,
        swo: 0b1010,
        ev: true,
        ebo: 0b101010,
        tsc: 0b10,
        parity: false, // will be calculated
    };
}

// builds a TransmitHeader for a data chunk (dnc = true) with the given
// dv/sv/swo/ev/ebo fields, parity is not checked by the device so it is left as false.
fn make_header(dv: bool, sv: bool, swo: u8, ev: bool, ebo: u8) -> TransmitHeader {
    TransmitHeader {
        dnc: true,
        seq: false,
        norx: false,
        dv,
        sv,
        swo,
        ev,
        ebo,
        tsc: 0,
        parity: false,
    }
}

// builds a full block (DEFAULT_BLOCK_SIZE bytes) filled with `filler`, with `data` written
// starting at byte offset `start`.
fn make_block(start: usize, data: &[u8], filler: u8) -> [u8; DEFAULT_BLOCK_SIZE] {
    let mut block = [filler; DEFAULT_BLOCK_SIZE];
    block[start..start + data.len()].copy_from_slice(data);
    block
}

// sends one header + block chunk transaction (4 header bytes + DEFAULT_BLOCK_SIZE block
// bytes) through the device, as a single SPI transfer.
fn send_block(tc6: &mut FakeTc6SpiDevice, header: TransmitHeader, block: [u8; DEFAULT_BLOCK_SIZE]) {
    let mut write_buff = [0u8; 4 + DEFAULT_BLOCK_SIZE];
    write_buff[..4].copy_from_slice(&header.to_bytes());
    write_buff[4..].copy_from_slice(&block);
    let mut read_buff = [0u8; 4 + DEFAULT_BLOCK_SIZE];
    tc6.transfer(read_buff.as_mut_slice(), write_buff.as_mut_slice())
        .expect("transfer should succeed");
}

// a frame that is fully contained within a single block (sv and ev set in the same chunk)
#[test]
fn test_frame_fully_inside_one_block() {
    let mut tc6 = FakeTc6SpiDevice::new();

    let frame = [1u8, 2, 3, 4, 5, 6, 7, 8];
    // swo = 1 word (byte offset 4), ebo = 11 -> bytes 4..=11 (8 bytes)
    let header = make_header(true, true, 1, true, 11);
    let block = make_block(4, &frame, 0xAA);

    send_block(&mut tc6, header, block);

    assert_eq!(*tc6.device.transmit_buff(), vec![frame.to_vec()]);
}

// a frame that starts at the end of one block (sv, no ev) and ends at the start of the
// next block (ev, no sv)
#[test]
fn test_frame_starts_at_end_of_block_ends_at_start_of_next() {
    let mut tc6 = FakeTc6SpiDevice::new();

    // swo = 14 words -> byte offset 56, so bytes 56..=63 (8 bytes) belong to the frame
    let first_part = [1u8, 2, 3, 4, 5, 6, 7, 8];
    let header_a = make_header(true, true, 14, false, 0);
    let block_a = make_block(56, &first_part, 0xAA);
    send_block(&mut tc6, header_a, block_a);

    // continuation: no sv, ev with ebo = 3 -> bytes 0..=3 (4 bytes) belong to the frame
    let second_part = [9u8, 10, 11, 12];
    let header_b = make_header(true, false, 0, true, 3);
    let block_b = make_block(0, &second_part, 0xAA);
    send_block(&mut tc6, header_b, block_b);

    let expected: Vec<u8> = first_part
        .iter()
        .chain(second_part.iter())
        .copied()
        .collect();
    assert_eq!(*tc6.device.transmit_buff(), vec![expected]);
}

// a frame that starts in one block, fills a whole block in the middle (dv set, no sv/ev)
// and ends in a third block
#[test]
fn test_frame_start_full_block_end() {
    let mut tc6 = FakeTc6SpiDevice::new();

    // start: swo = 8 words -> byte offset 32, so bytes 32..=63 (32 bytes) belong to the frame
    let start_part: Vec<u8> = (1u8..=32).collect();
    let header_a = make_header(true, true, 8, false, 0);
    let block_a = make_block(32, &start_part, 0xAA);
    send_block(&mut tc6, header_a, block_a);

    // middle: dv set, no sv/ev -> the whole block belongs to the frame
    let middle_part: Vec<u8> = (33u8..=96).collect();
    let header_b = make_header(true, false, 0, false, 0);
    let block_b: [u8; DEFAULT_BLOCK_SIZE] = middle_part.clone().try_into().unwrap();
    send_block(&mut tc6, header_b, block_b);

    // end: no sv, ev with ebo = 9 -> bytes 0..=9 (10 bytes) belong to the frame
    let end_part: Vec<u8> = (97u8..=106).collect();
    let header_c = make_header(true, false, 0, true, 9);
    let block_c = make_block(0, &end_part, 0xAA);
    send_block(&mut tc6, header_c, block_c);

    let expected: Vec<u8> = start_part
        .iter()
        .chain(middle_part.iter())
        .chain(end_part.iter())
        .copied()
        .collect();
    assert_eq!(*tc6.device.transmit_buff(), vec![expected]);
}

// two separate, complete frames, one fitting in block one and the other in block two
#[test]
fn test_two_frames_in_two_blocks() {
    let mut tc6 = FakeTc6SpiDevice::new();

    let frame_1 = [1u8, 2, 3, 4, 5, 6, 7, 8];
    let header_a = make_header(true, true, 0, true, 7);
    let block_a = make_block(0, &frame_1, 0xAA);
    send_block(&mut tc6, header_a, block_a);

    let frame_2 = [21u8, 22, 23, 24, 25, 26, 27, 28, 29, 30, 31, 32];
    let header_b = make_header(true, true, 0, true, 11);
    let block_b = make_block(0, &frame_2, 0xAA);
    send_block(&mut tc6, header_b, block_b);

    assert_eq!(
        *tc6.device.transmit_buff(),
        vec![frame_1.to_vec(), frame_2.to_vec()]
    );
}

// a frame split across two blocks with a dv = 0 block inserted between them, simulating
// the host only receiving (no transmit data) for that chunk
#[test]
fn test_frame_with_dv_not_set_block_inserted() {
    let mut tc6 = FakeTc6SpiDevice::new();

    // start: swo = 8 words -> byte offset 32, so bytes 32..=63 (32 bytes) belong to the frame
    let start_part: Vec<u8> = (1u8..=32).collect();
    let header_a = make_header(true, true, 8, false, 0);
    let block_a = make_block(32, &start_part, 0xAA);
    send_block(&mut tc6, header_a, block_a);

    // host only receiving this chunk: dv = 0, sv/ev/swo/ebo must be 0 too
    let header_b = make_header(false, false, 0, false, 0);
    let block_b = [0xAAu8; DEFAULT_BLOCK_SIZE];
    send_block(&mut tc6, header_b, block_b);

    // end: no sv, ev with ebo = 9 -> bytes 0..=9 (10 bytes) belong to the frame
    let end_part: Vec<u8> = (33u8..=42).collect();
    let header_c = make_header(true, false, 0, true, 9);
    let block_c = make_block(0, &end_part, 0xAA);
    send_block(&mut tc6, header_c, block_c);

    let expected: Vec<u8> = start_part.iter().chain(end_part.iter()).copied().collect();
    assert_eq!(*tc6.device.transmit_buff(), vec![expected]);
}

#[test]
fn transfer_ending_inside_a_block_is_refused() {
    let mut tc6 = FakeTc6SpiDevice::new();
    let header = make_header(false, false, 0, false, 0).to_bytes();
    let mut write_buff = [0u8; 10];
    write_buff[..4].copy_from_slice(&header);
    let mut read_buff = [0u8; 10];
    let res = tc6.transfer(&mut read_buff, &write_buff);
    assert!(matches!(
        res,
        Err(FakeTc6SpiDeviceError::DeviceError(
            FakeTc6DeviceError::DeAssertCsNotEndOfBlock
        ))
    ));
    assert!(matches!(tc6.device.mode(), Mode::ReadingWritingBlock(6)));
}

#[test]
fn transfer_of_a_control_header_is_refused() {
    let mut tc6 = FakeTc6SpiDevice::new();
    // dnc clear: a control command, which the device does not serve
    let write_buff = [0u8, 0, 0, 1];
    let mut read_buff = [0xFFu8; 6];
    let res = tc6.transfer(&mut read_buff, &write_buff);
    assert!(matches!(
        res,
        Err(FakeTc6SpiDeviceError::DeviceError(
            FakeTc6DeviceError::DeAssertCsNotEndOfCommand
        ))
    ));
    assert!(matches!(tc6.device.mode(), Mode::Command(0)));
    // nothing is pending: zeros come back, the rest of the read buffer is kept
    assert_eq!(read_buff, [0, 0, 0, 0, 0xFF, 0xFF]);
}

#[test]
fn chunk_returns_to_header_and_echoes_footer() {
    let mut tc6 = FakeTc6SpiDevice::new();
    let header = make_header(false, false, 0, false, 0);
    let block = [0x55u8; DEFAULT_BLOCK_SIZE];
    let mut write_buff = [0u8; 4 + DEFAULT_BLOCK_SIZE];
    write_buff[..4].copy_from_slice(&header.to_bytes());
    write_buff[4..].copy_from_slice(&block);
    let mut read_buff = [0x77u8; 4 + DEFAULT_BLOCK_SIZE];
    tc6.transfer(&mut read_buff, &write_buff).unwrap();
    assert!(matches!(tc6.device.mode(), Mode::ReadingHeader(0)));
    assert!(tc6.device.transmit_buff().is_empty());
    // with nothing received and a cleared footer, every byte sent back is zero
    assert!(read_buff.iter().all(|b| *b == 0));
}

#[test]
fn read_and_write_helpers_follow_the_device() {
    let mut tc6 = FakeTc6SpiDevice::new();
    let header = make_header(true, true, 0, true, 2);
    tc6.helper_write(&header.to_bytes()).unwrap();
    assert!(matches!(tc6.device.mode(), Mode::ReadingWritingBlock(0)));
    assert!(!tc6.device.is_reading_header());
    tc6.helper_write(&[9, 8, 7, 6]).unwrap();
    assert_eq!(*tc6.device.transmit_buff(), vec![vec![9u8, 8, 7]]);
    let mut rest = [0xEEu8; DEFAULT_BLOCK_SIZE - 4];
    tc6.helper_read(&mut rest).unwrap();
    assert!(rest.iter().all(|b| *b == 0));
    assert!(tc6.device.is_reading_header());
    assert!(tc6.device.de_assert_cs().is_ok());
}

#[test]
fn sending_footer_near_block_end() {
    let mut tc6 = FakeTc6SpiDevice::new();
    let header = make_header(false, false, 0, false, 0);
    tc6.helper_write(&header.to_bytes()).unwrap();
    tc6.helper_write(&[0u8; DEFAULT_BLOCK_SIZE - 5]).unwrap();
    assert!(!tc6.device.is_sending_footer());
    tc6.helper_write(&[0u8; 1]).unwrap();
    assert!(tc6.device.is_sending_footer());
}

fn chunk_bytes(header: TransmitHeader, block: &[u8; DEFAULT_BLOCK_SIZE]) -> Vec<u8> {
    let mut bytes = header.to_bytes().to_vec();
    bytes.extend_from_slice(block);
    bytes
}

#[test]
fn frame_end_and_next_start_in_one_block() {
    let mut tc6 = FakeTc6SpiDevice::new();
    // open a frame with the last two words of the first block
    let first_part = [1u8, 2, 3, 4, 5, 6, 7, 8];
    send_block(&mut tc6, make_header(true, true, 14, false, 0), make_block(56, &first_part, 0xAA));
    // swo (2) >= ebo (1): bytes 0..=1 end the frame, bytes 8.. start the next one
    let mut block = [0u8; DEFAULT_BLOCK_SIZE];
    for (i, b) in block.iter_mut().enumerate() {
        *b = i as u8;
    }
    send_block(&mut tc6, make_header(true, true, 2, true, 1), block);
    let mut ended = first_part.to_vec();
    ended.extend_from_slice(&[0, 1]);
    let started: Vec<u8> = (8u8..64).collect();
    assert_eq!(*tc6.device.transmit_buff(), vec![ended, started]);
}

#[test]
fn frame_start_and_end_both_at_zero() {
    let mut tc6 = FakeTc6SpiDevice::new();
    let first_part = [1u8, 2, 3, 4];
    send_block(&mut tc6, make_header(true, true, 15, false, 0), make_block(60, &first_part, 0xAA));
    let mut block = [0u8; DEFAULT_BLOCK_SIZE];
    for (i, b) in block.iter_mut().enumerate() {
        *b = 100 + i as u8;
    }
    // swo * 4 (0) >= ebo (0): byte 0 ends the open frame, and a new frame starts at byte 0
    send_block(&mut tc6, make_header(true, true, 0, true, 0), block);
    assert_eq!(
        *tc6.device.transmit_buff(),
        vec![vec![1u8, 2, 3, 4, 100], block.to_vec()]
    );
}

#[test]
fn swo_words_past_ebo_end_frame_then_start_next() {
    let mut tc6 = FakeTc6SpiDevice::new();
    let first_part = [1u8, 2, 3, 4];
    send_block(&mut tc6, make_header(true, true, 15, false, 0), make_block(60, &first_part, 0xAA));
    let mut block = [0u8; DEFAULT_BLOCK_SIZE];
    for (i, b) in block.iter_mut().enumerate() {
        *b = i as u8;
    }
    // swo (2) < ebo (5) but swo * 4 = 8 lies after ebo: bytes 0..=5 end the open frame,
    // bytes 8.. start the next one
    send_block(&mut tc6, make_header(true, true, 2, true, 5), block);
    let mut ended = first_part.to_vec();
    ended.extend_from_slice(&[0, 1, 2, 3, 4, 5]);
    let started: Vec<u8> = (8u8..64).collect();
    assert_eq!(*tc6.device.transmit_buff(), vec![ended, started]);
}

#[test]
fn frame_with_start_and_end_needs_an_open_frame_when_start_is_late() {
    let tc6 = FakeTc6SpiDevice::new();
    let block = [0u8; DEFAULT_BLOCK_SIZE];
    // swo * 4 = 40 >= ebo = 20: the bytes up to ebo belong to a frame opened before
    assert!(!tc6.device.accepts(&chunk_bytes(make_header(true, true, 10, true, 20), &block)));
    // swo * 4 = 4 < ebo = 20: a whole frame in the chunk
    assert!(tc6.device.accepts(&chunk_bytes(make_header(true, true, 1, true, 20), &block)));
}

#[test]
fn accepts_tells_which_transfers_the_device_takes() {
    let tc6 = FakeTc6SpiDevice::new();
    let block = [0u8; DEFAULT_BLOCK_SIZE];
    // data without a frame start needs a frame opened before
    assert!(!tc6.device.accepts(&chunk_bytes(make_header(true, false, 0, false, 0), &block)));
    assert!(!tc6.device.accepts(&chunk_bytes(make_header(true, false, 0, true, 5), &block)));
    // a frame start, or no data at all, is fine
    assert!(tc6.device.accepts(&chunk_bytes(make_header(true, true, 3, false, 0), &block)));
    assert!(tc6.device.accepts(&chunk_bytes(make_header(false, false, 0, false, 0), &block)));
    // a control command header followed by more bytes is not served
    assert!(tc6.device.accepts(&[0, 0, 0, 1]));
    assert!(!tc6.device.accepts(&[0, 0, 0, 1, 0]));
    assert!(tc6.device.accepts(&[]));
}

#[test]
fn accepts_follows_frames_already_open() {
    let mut tc6 = FakeTc6SpiDevice::new();
    let block = [0u8; DEFAULT_BLOCK_SIZE];
    send_block(&mut tc6, make_header(true, true, 15, false, 0), block);
    assert!(tc6.device.accepts(&chunk_bytes(make_header(true, false, 0, false, 0), &block)));
    assert!(tc6.device.accepts(&chunk_bytes(make_header(true, false, 0, true, 5), &block)));
}
