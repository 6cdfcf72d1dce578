use rm2::byte_reader::{ByteReader, ReadError};
use rm2::phase::{Phase, PhaseCell};
use rm2::waveform::{
    filename, find_waveform_blocks, header, pointer, temperatures, waveform, Error, PhaseMatrix,
};

fn checksum_error(e: &Error) -> (String, u8, u8) {
    match e {
        Error::InvalidChecksum { field, expected, actual } => (field.clone(), *expected, *actual),
        other => panic!("not a checksum error: {:?}", other),
    }
}

#[test]
fn parse_pointer_test() {
    let mut input = ByteReader::new(vec![0x5, 0x5, 0x6, 0x10]);

    let p = pointer(&mut input).unwrap();

    assert_eq!(p, 0x060505);
}

#[test]
fn pointer_advances_four_bytes() {
    let mut input = ByteReader::new(vec![0x5, 0x5, 0x6, 0x10, 0x01, 0x00, 0x00, 0x01]);
    assert_eq!(pointer(&mut input).unwrap(), 0x060505);
    assert_eq!(input.position(), 4);
    assert_eq!(pointer(&mut input).unwrap(), 1);
    assert_eq!(input.position(), 8);
}

#[test]
fn pointer_any_flipped_byte_is_rejected() {
    let good = [0x5u8, 0x5, 0x6, 0x10];
    for k in 0..4 {
        let mut bytes = good.to_vec();
        bytes[k] ^= 0x01;
        let mut input = ByteReader::new(bytes.clone());
        let e = pointer(&mut input).unwrap_err();
        let (field, expected, actual) = checksum_error(&e);
        assert_eq!(field, "pointer");
        assert_eq!(expected, bytes[3]);
        assert_eq!(actual, bytes[0].wrapping_add(bytes[1]).wrapping_add(bytes[2]));
    }
}

#[test]
fn pointer_checksum_wraps() {
    let mut input = ByteReader::new(vec![0xFF, 0xFF, 0x02, 0x00]);
    assert_eq!(pointer(&mut input).unwrap(), 0x02FFFF);
}

#[test]
fn pointer_short_input_is_read_error() {
    let mut input = ByteReader::new(vec![0x5, 0x5, 0x6]);
    assert_eq!(pointer(&mut input), Err(Error::Read(ReadError::UnexpectedEof)));
    assert_eq!(input.position(), 0);
}

fn header_bytes(mode_count: u8, temp_range_count: u8) -> Vec<u8> {
    let mut h = vec![0u8; 48];
    h[0..4].copy_from_slice(&0x11223344u32.to_le_bytes());
    h[4..8].copy_from_slice(&1000u32.to_le_bytes());
    h[8..12].copy_from_slice(&42u32.to_le_bytes());
    h[12] = 7;
    h[13] = 8;
    h[14..16].copy_from_slice(&0x0102u16.to_le_bytes());
    for k in 16..26 {
        h[k] = k as u8;
    }
    h[26] = 0xEE;
    h[27] = 0xEE;
    h[28..31].copy_from_slice(&[0x56, 0x34, 0x12]);
    h[31] = 0x99;
    h[32..35].copy_from_slice(&[0x03, 0x02, 0x01]);
    h[35] = 35;
    h[36] = 36;
    h[37] = mode_count;
    h[38] = temp_range_count;
    h[39] = 39;
    h[40] = 40;
    h[41] = 41;
    for k in 42..47 {
        h[k] = 0xAA;
    }
    h[47] = 0x77;
    h
}

#[test]
fn header_fields_in_order() {
    let mut input = ByteReader::new(header_bytes(3, 5));
    let h = header(&mut input).unwrap();
    assert_eq!(input.position(), 48);
    assert_eq!(h.checksum, 0x11223344);
    assert_eq!(h.filesize, 1000);
    assert_eq!(h.serial, 42);
    assert_eq!(h.run_type, 7);
    assert_eq!(h.fpl_platform, 8);
    assert_eq!(h.fpl_lot, 0x0102);
    assert_eq!(h.adhesive_run, 16);
    assert_eq!(h.waveform_version, 17);
    assert_eq!(h.waveform_subversion, 18);
    assert_eq!(h.waveform_type, 19);
    assert_eq!(h.fpl_size, 20);
    assert_eq!(h.mfg_code, 21);
    assert_eq!(h.waveform_revision, 22);
    assert_eq!(h.old_frame_rate, 23);
    assert_eq!(h.frame_rate, 24);
    assert_eq!(h.vcom_offset, 25);
    assert_eq!(h.extra_info_addr, 0x123456);
    assert_eq!(h.checksum1, 0x99);
    assert_eq!(h.wmta, 0x010203);
    assert_eq!(h.fvsn, 35);
    assert_eq!(h.luts, 36);
    assert_eq!(h.mode_count, 3);
    assert_eq!(h.temp_range_count, 5);
    assert_eq!(h.advanced_wfm_flags, 39);
    assert_eq!(h.eb, 40);
    assert_eq!(h.sb, 41);
    assert_eq!(h.checksum2, 0x77);
}

#[test]
fn header_truncated_is_read_error() {
    let mut bytes = header_bytes(0, 0);
    bytes.truncate(47);
    let mut input = ByteReader::new(bytes);
    assert_eq!(header(&mut input), Err(Error::Read(ReadError::UnexpectedEof)));
}

#[test]
fn temperatures_checked() {
    let mut input = ByteReader::new(vec![10, 20, 30, 60, 0xAB]);
    assert_eq!(temperatures(1, &mut input).unwrap(), vec![10, 20, 30]);
    assert_eq!(input.position(), 4);

    let mut bad = ByteReader::new(vec![10, 20, 30, 61]);
    let e = temperatures(1, &mut bad).unwrap_err();
    assert_eq!(checksum_error(&e), ("temperatures".to_string(), 61, 60));

    let mut short = ByteReader::new(vec![10, 20, 30]);
    assert_eq!(temperatures(1, &mut short), Err(Error::Read(ReadError::UnexpectedEof)));
}

#[test]
fn filename_checked() {
    let mut input = ByteReader::new(vec![3, b'a', b'b', b'c', 0x26]);
    assert_eq!(filename(&mut input).unwrap(), b"abc".to_vec());
    assert_eq!(input.position(), 5);

    let mut empty = ByteReader::new(vec![0, 0]);
    assert_eq!(filename(&mut empty).unwrap(), Vec::<u8>::new());

    let mut bad = ByteReader::new(vec![1, 0x10, 0x11]);
    let e = filename(&mut bad).unwrap_err();
    assert_eq!(checksum_error(&e), ("filename".to_string(), 0x11, 0x10));

    let mut short = ByteReader::new(vec![3, b'a', b'b', b'c']);
    assert_eq!(filename(&mut short), Err(Error::Read(ReadError::UnexpectedEof)));
    assert_eq!(short.position(), 0);
}

fn pointer_bytes(a: u32) -> [u8; 4] {
    let b = [(a & 0xFF) as u8, ((a >> 8) & 0xFF) as u8, ((a >> 16) & 0xFF) as u8];
    [b[0], b[1], b[2], b[0].wrapping_add(b[1]).wrapping_add(b[2])]
}

#[test]
fn block_index_rows_follow_fixed_stride() {
    // Two modes, two temperature ranges; row pointers at 0 and 4, rows at 8 and 40.
    let mut data = vec![0u8; 64];
    data[0..4].copy_from_slice(&pointer_bytes(40));
    data[4..8].copy_from_slice(&pointer_bytes(8));
    data[8..12].copy_from_slice(&pointer_bytes(0x100));
    data[12..16].copy_from_slice(&pointer_bytes(0x200));
    data[40..44].copy_from_slice(&pointer_bytes(0x300));
    data[44..48].copy_from_slice(&pointer_bytes(0x400));
    let mut input = ByteReader::new(data);
    let blocks = find_waveform_blocks(1, 1, &mut input).unwrap();
    assert_eq!(blocks, vec![0x300, 0x400, 0x100, 0x200]);
    assert_eq!(input.position(), 8);
}

#[test]
fn block_index_bad_pointer_fails_whole() {
    let mut data = vec![0u8; 16];
    data[0..4].copy_from_slice(&pointer_bytes(8));
    data[4..8].copy_from_slice(&pointer_bytes(8));
    data[8..12].copy_from_slice(&[1, 2, 3, 7]);
    let mut input = ByteReader::new(data);
    let e = find_waveform_blocks(1, 0, &mut input).unwrap_err();
    assert_eq!(checksum_error(&e), ("pointer".to_string(), 7, 6));
}

#[test]
fn block_index_row_offset_past_end() {
    let mut input = ByteReader::new(pointer_bytes(100).to_vec());
    assert_eq!(
        find_waveform_blocks(0, 0, &mut input),
        Err(Error::Read(ReadError::UnexpectedEof))
    );
}

#[test]
fn phase_cell_legality() {
    for b in 0..=255u8 {
        let illegal = (0..4).any(|k| (b >> (2 * k)) & 0b11 == 0b11);
        match PhaseCell::new(b) {
            Ok(cell) => {
                assert!(!illegal);
                for k in 0..4u8 {
                    let expected = match (b >> (6 - 2 * k)) & 0b11 {
                        0 => Phase::Noop,
                        1 => Phase::Black,
                        _ => Phase::White,
                    };
                    assert_eq!(cell.index(k), Some(expected));
                }
                assert_eq!(cell.index(4), None);
            }
            Err(e) => {
                assert!(illegal);
                assert_eq!(e, Error::InvalidPhase(b));
            }
        }
    }
}

#[test]
fn phase_cell_examples() {
    let cell = PhaseCell::new(0b0001_1000).unwrap();
    assert_eq!(cell.index(0), Some(Phase::Noop));
    assert_eq!(cell.index(1), Some(Phase::Black));
    assert_eq!(cell.index(2), Some(Phase::White));
    assert_eq!(cell.index(3), Some(Phase::Noop));
    assert_eq!(PhaseCell::new(0xFC), Err(Error::InvalidPhase(0xFC)));
    assert_eq!(PhaseCell::new(0xFF), Err(Error::InvalidPhase(0xFF)));
}

fn decode(bytes: Vec<u8>) -> Result<Vec<PhaseMatrix>, Error> {
    let end = bytes.len() as u64;
    let mut input = ByteReader::new(bytes);
    waveform(end, &mut input)
}

fn assert_filled_with(m: &PhaseMatrix, phases: [Phase; 4]) {
    for j in 0..32 {
        for i in 0..32 {
            assert_eq!(m.get(j, i), Some(phases[j % 4]));
        }
    }
    assert_eq!(m.get(32, 0), None);
    assert_eq!(m.get(0, 32), None);
}

#[test]
fn one_full_matrix_from_one_run() {
    // 0x05 repeated 256 times fills exactly one matrix.
    let ms = decode(vec![0x05, 0xFF]).unwrap();
    assert_eq!(ms.len(), 1);
    assert_filled_with(&ms[0], [Phase::Noop, Phase::Noop, Phase::Black, Phase::Black]);
}

#[test]
fn whole_matrices_only() {
    // Two runs of 256 cells give two matrices; 255 more cells are dropped.
    let ms = decode(vec![0x05, 0xFF, 0x24, 0xFF, 0x10, 0xFE]).unwrap();
    assert_eq!(ms.len(), 2);
    assert_filled_with(&ms[0], [Phase::Noop, Phase::Noop, Phase::Black, Phase::Black]);
    assert_filled_with(&ms[1], [Phase::Noop, Phase::White, Phase::Black, Phase::Noop]);
}

#[test]
fn columns_fill_in_order() {
    // The first 8 cells fill column 0, the next 248 the rest.
    let ms = decode(vec![0x15, 0x07, 0x2A, 0xF7]).unwrap();
    assert_eq!(ms.len(), 1);
    for j in 0..32 {
        let expected = if j % 4 == 0 { Phase::Noop } else { Phase::Black };
        assert_eq!(ms[0].get(j, 0), Some(expected));
        let expected = if j % 4 == 0 { Phase::Noop } else { Phase::White };
        assert_eq!(ms[0].get(j, 1), Some(expected));
        assert_eq!(ms[0].get(j, 31), Some(expected));
    }
}

#[test]
fn sentinel_stops_before_end() {
    let ms = decode(vec![0x05, 0x1F, 0xFF, 0x05, 0xFF, 0x05, 0xFF]).unwrap();
    assert_eq!(ms.len(), 0);
    let ms = decode(vec![0x05, 0xFF, 0xFF, 0x05, 0xFF]).unwrap();
    assert_eq!(ms.len(), 1);
}

#[test]
fn sentinel_leaves_reader_just_past_it() {
    let mut input = ByteReader::new(vec![0x55, 0x7F, 0xFF, 0x55, 0xFF]);
    assert_eq!(waveform(5, &mut input), Ok(vec![]));
    assert_eq!(input.position(), 3);

    let mut input = ByteReader::new(vec![0x55, 0x7F, 0x55, 0xFF]);
    assert_eq!(waveform(4, &mut input).unwrap().len(), 1);
    assert_eq!(input.position(), 4);
}

#[test]
fn start_at_end_reads_nothing() {
    let mut input = ByteReader::new(vec![0x05, 0xFF, 0xFF]);
    input.seek(2);
    assert_eq!(waveform(2, &mut input), Ok(vec![]));
    assert_eq!(input.position(), 2);
}

#[test]
fn end_bounds_the_block() {
    let bytes = vec![0x05, 0xFF, 0x05, 0xFF];
    let mut input = ByteReader::new(bytes);
    let ms = waveform(2, &mut input).unwrap();
    assert_eq!(ms.len(), 1);
    assert_eq!(input.position(), 2);
}

#[test]
fn double_toggle_restores_repeat_mode() {
    let ms = decode(vec![0xFC, 0xFC, 0x05, 0xFF]).unwrap();
    assert_eq!(ms.len(), 1);
}

#[test]
fn odd_toggle_disables_repeat_mode() {
    // Without repeat counts each byte is one cell: 256 bytes fill one matrix.
    let mut bytes = vec![0xFC, 0xFC, 0xFC];
    bytes.extend(std::iter::repeat(0x04u8).take(256));
    let ms = decode(bytes).unwrap();
    assert_eq!(ms.len(), 1);
    assert_filled_with(&ms[0], [Phase::Noop, Phase::Noop, Phase::Black, Phase::Noop]);

    // Toggling back re-enables counts.
    let mut bytes = vec![0xFC];
    bytes.extend(std::iter::repeat(0x04u8).take(255));
    bytes.extend([0xFC, 0x04, 0x00]);
    let ms = decode(bytes).unwrap();
    assert_eq!(ms.len(), 1);
}

#[test]
fn invalid_phase_in_block() {
    assert_eq!(decode(vec![0x05, 0x00, 0x30, 0x00]), Err(Error::InvalidPhase(0x30)));
}

#[test]
fn truncated_block_is_read_error() {
    let bytes = vec![0x05, 0x00, 0x05];
    let mut input = ByteReader::new(bytes);
    assert_eq!(waveform(10, &mut input), Err(Error::Read(ReadError::UnexpectedEof)));
    assert_eq!(decode(vec![0x05]), Err(Error::Read(ReadError::UnexpectedEof)));
}

#[test]
fn end_to_end_single_mode_single_range() {
    let mut file = header_bytes(0, 0);
    // Temperature table: two boundaries and their checksum.
    file.extend([0, 50, 50]);
    // Empty filename and its checksum.
    file.extend([0, 0]);
    let base = file.len() as u32;
    file.extend(pointer_bytes(base + 4));
    file.extend(pointer_bytes(base + 8));
    file.extend([0x05, 0x1F, 0xFF]);
    let len = file.len() as u64;

    let mut input = ByteReader::new(file);
    let h = header(&mut input).unwrap();
    assert_eq!(h.mode_count, 0);
    assert_eq!(h.temp_range_count, 0);
    let temps = temperatures(h.temp_range_count as usize, &mut input).unwrap();
    assert_eq!(temps, vec![0, 50]);
    let name = filename(&mut input).unwrap();
    assert!(name.is_empty());
    let blocks =
        find_waveform_blocks(h.mode_count as usize, h.temp_range_count as usize, &mut input)
            .unwrap();
    assert_eq!(blocks, vec![base + 8]);

    input.seek(blocks[0] as u64);
    let ms = waveform(len, &mut input).unwrap();
    // 32 cells fill four columns of one matrix; the partial matrix is dropped.
    assert_eq!(ms.len(), 0);
    assert_eq!(input.position(), len);
}

#[test]
fn removing_a_toggle_pair_changes_nothing() {
    let a = vec![0x05u8, 0x03, 0xFC, 0x24];
    let b = vec![0xFC, 0x05, 0xF9, 0x30];
    let mut with_pair = a.clone();
    with_pair.extend([0xFC, 0xFC]);
    with_pair.extend(&b);
    let mut without = a.clone();
    without.extend(&b);
    assert_eq!(decode(with_pair.clone()), decode(without.clone()));
    assert_eq!(decode(without), Err(Error::InvalidPhase(0x30)));

    let mut with_pair = vec![0x05u8, 0x03, 0xFC, 0xFC, 0x24, 0xFB];
    with_pair.push(0xFF);
    let without = vec![0x05u8, 0x03, 0x24, 0xFB, 0xFF];
    let ms = decode(with_pair).unwrap();
    assert_eq!(ms.len(), 1);
    assert_eq!(Ok(ms), decode(without));
}
