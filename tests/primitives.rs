use rm2::byte_reader::{
    le_u16, le_u24, le_u32, skip, take, take_const, u24_from_le_bytes, u8, ByteReader, ReadError,
};
use rm2::checksum::additive_checksum;
use rm2::temperature::{reading_is_fresh, temperature_from_text, TemperatureError};
use rm2::fb::{
    page_flip_step, BlankMode, Bitfield, FixedScreenInfo, FlipRequest, TextType, Type,
    VGAPlanesType, Visual,
};

#[test]
fn checksum_is_wrapping_sum() {
    assert_eq!(additive_checksum(&[]), 0);
    assert_eq!(additive_checksum(&[0x05, 0x05, 0x06]), 0x10);
    assert_eq!(additive_checksum(&[0xFF, 0x02]), 0x01);
    assert_eq!(additive_checksum(&[0x80; 4]), 0x00);
}

#[test]
fn checksum_appended_validates() {
    let s = [0x12u8, 0xF0, 0x33, 0x99];
    let c = additive_checksum(&s);
    let mut block = s.to_vec();
    block.push(c);
    assert_eq!(additive_checksum(&block[..block.len() - 1]), block[block.len() - 1]);
    assert_eq!(additive_checksum(&s), c);
}

#[test]
fn little_endian_readers() {
    let mut input = ByteReader::new(vec![0x78, 0x56, 0x34, 0x12, 0x03, 0x02, 0x01, 0xCD, 0xAB, 0x7F]);
    assert_eq!(le_u32(&mut input), Ok(0x12345678));
    assert_eq!(le_u24(&mut input), Ok(0x010203));
    assert_eq!(le_u16(&mut input), Ok(0xABCD));
    assert_eq!(u8(&mut input), Ok(0x7F));
    assert_eq!(u8(&mut input), Err(ReadError::UnexpectedEof));
    assert_eq!(input.position(), 10);
    assert_eq!(u24_from_le_bytes([0xFF, 0xFF, 0xFF]), 0xFFFFFF);
}

#[test]
fn take_and_skip() {
    let mut input = ByteReader::new(vec![1, 2, 3, 4, 5, 6]);
    let first: [u8; 2] = take_const(&mut input).unwrap();
    assert_eq!(first, [1, 2]);
    assert_eq!(skip(1, &mut input), Ok(()));
    assert_eq!(take(2, &mut input), Ok(vec![4, 5]));
    assert_eq!(skip(-3, &mut input), Ok(()));
    assert_eq!(input.position(), 2);
    assert_eq!(skip(-3, &mut input), Err(ReadError::InvalidSeek));
    assert_eq!(take(5, &mut input), Err(ReadError::UnexpectedEof));
    assert_eq!(input.position(), 2);
    assert_eq!(le_u32(&mut input), Ok(0x06050403));
    // Skipping past the end succeeds; only a later read fails.
    assert_eq!(skip(5, &mut input), Ok(()));
    assert_eq!(input.position(), 11);
    assert_eq!(u8(&mut input), Err(ReadError::UnexpectedEof));
    assert_eq!(input.position(), 11);
    assert_eq!(skip(-11, &mut input), Ok(()));
    assert_eq!(input.position(), 0);
    assert_eq!(skip(i64::MAX, &mut input), Ok(()));
    assert_eq!(skip(i64::MAX, &mut input), Ok(()));
    assert_eq!(skip(2, &mut input), Err(ReadError::InvalidSeek));
    assert_eq!(input.position(), u64::MAX - 1);
}

#[test]
fn empty_reads_succeed_anywhere() {
    let mut input = ByteReader::new(vec![1, 2, 3]);
    assert_eq!(take(0, &mut input), Ok(vec![]));
    assert_eq!(input.position(), 0);
    input.seek(3);
    assert_eq!(take(0, &mut input), Ok(vec![]));
    assert_eq!(input.position(), 3);
    input.seek(10);
    assert_eq!(take(0, &mut input), Ok(vec![]));
    let none: [u8; 0] = take_const(&mut input).unwrap();
    assert_eq!(none, []);
    assert_eq!(input.position(), 10);
    assert_eq!(take(1, &mut input), Err(ReadError::UnexpectedEof));
    assert_eq!(input.position(), 10);
}

#[test]
fn framebuffer_kinds() {
    assert_eq!(TextType::try_from(8), Ok(TextType::SVGAStep2));
    assert_eq!(TextType::try_from(5), Err(5));
    assert_eq!(VGAPlanesType::try_from(2), Ok(VGAPlanesType::CFB8));
    assert_eq!(VGAPlanesType::try_from(3), Err(3));
    assert_eq!(Type::try_from((0, 9)), Ok(Type::PackedPixels));
    assert_eq!(Type::try_from((3, 11)), Ok(Type::Text(TextType::SVGAStep16)));
    assert_eq!(Type::try_from((3, 12)), Err((3, 12)));
    assert_eq!(Type::try_from((4, 1)), Ok(Type::VGAPlanes(VGAPlanesType::CFB4)));
    assert_eq!(Type::try_from((6, 0)), Err((6, 0)));
    assert_eq!(Visual::try_from(5), Ok(Visual::StaticPseudoColor));
    assert_eq!(Visual::try_from(7), Err(7));
}

fn fixed_info(xpanstep: u16, ypanstep: u16, ywrapstep: u16) -> FixedScreenInfo {
    FixedScreenInfo {
        id: [0; 16],
        smem_start: 0,
        smem_len: 0,
        type_: 4,
        type_aux: 0,
        visual: 1,
        xpanstep,
        ypanstep,
        ywrapstep,
        line_length: 0,
        mmio_start: 0,
        mmio_len: 0,
        accel: 0,
        capabilities: 0,
        reserved: [0; 2],
    }
}

#[test]
fn fixed_screen_info_accessors() {
    let info = fixed_info(1, 2, 0);
    assert_eq!(info.type_(), Ok(Type::VGAPlanes(VGAPlanesType::VGA4)));
    assert_eq!(info.visual(), Ok(Visual::Mono10));
    assert_eq!(info.pan_step(), Some((1, 2)));
    assert_eq!(info.ywrap_step(), None);
    let info = fixed_info(0, 2, 3);
    assert_eq!(info.pan_step(), None);
    assert_eq!(info.ywrap_step(), Some(3));
}

#[test]
fn bitfield_msb_right() {
    assert!(!Bitfield { offset: 0, length: 8, msb_right: 0 }.msb_right());
    assert!(Bitfield { offset: 0, length: 8, msb_right: 2 }.msb_right());
}

#[test]
fn blank_mode_values() {
    assert_eq!(BlankMode::Unblank.value(), 0);
    assert_eq!(BlankMode::Normal.value(), 1);
    assert_eq!(BlankMode::VSyncSuspend.value(), 2);
    assert_eq!(BlankMode::HSyncSuspend.value(), 3);
    assert_eq!(BlankMode::Powerdown.value(), 4);
}

#[test]
fn page_flip_alternates() {
    assert_eq!(page_flip_step(-1, 0), (FlipRequest::SetVariableScreenInfo, 0, 1));
    assert_eq!(page_flip_step(0, 1), (FlipRequest::PanDisplay, 1, 0));
    assert_eq!(page_flip_step(1, 0), (FlipRequest::PanDisplay, 0, 1));
    assert_eq!(page_flip_step(0, 4), (FlipRequest::PanDisplay, 4, 1));
    assert_eq!(page_flip_step(7, -2), (FlipRequest::PanDisplay, -2, -1));
    assert_eq!(page_flip_step(-1, i32::MAX - 1), (FlipRequest::SetVariableScreenInfo, i32::MAX - 1, 1));
}

#[test]
fn temperature_text() {
    assert_eq!(temperature_from_text("23"), Ok(23));
    assert_eq!(temperature_from_text("+7"), Ok(7));
    assert_eq!(temperature_from_text("007"), Ok(7));
    assert_eq!(temperature_from_text("255"), Ok(255));
    assert_eq!(temperature_from_text("0"), Err(TemperatureError::PoweredOff));
    for bad in ["", "+", "256", "-1", "2 3", "23\n", "abc", "1000"] {
        assert_eq!(
            temperature_from_text(bad),
            Err(TemperatureError::InvalidTemperature(bad.to_string())),
            "{:?}",
            bad
        );
        assert!(bad.parse::<u8>().is_err());
    }
    assert!(reading_is_fresh(29_999_999_999));
    assert!(!reading_is_fresh(30_000_000_000));
}
