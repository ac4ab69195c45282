use spdm::utils::Bytes;
use spdm::utils::Reader;
use spdm::utils::Writer;

#[test]
fn test_u8_round_trip() {
    let mut buffer = [0u8; 1];
    assert_eq!(0xABu8.to_bytes(&mut buffer), Ok(1));
    assert_eq!(buffer, [0xAB]);
    let mut v: u8 = 0;
    assert_eq!(v.from_bytes(&buffer), Ok(1));
    assert_eq!(v, 0xAB);
}

#[test]
fn test_u16_little_endian_layout() {
    let mut buffer = [0u8; 2];
    assert_eq!(0x1234u16.to_bytes(&mut buffer), Ok(2));
    assert_eq!(buffer, [0x34, 0x12]);
    let mut v: u16 = 0;
    assert_eq!(v.from_bytes(&buffer), Ok(2));
    assert_eq!(v, 0x1234);
}

#[test]
fn test_u32_little_endian_layout() {
    let mut buffer = [0u8; 4];
    assert_eq!(0xDEAD_BEEFu32.to_bytes(&mut buffer), Ok(4));
    assert_eq!(buffer, [0xEF, 0xBE, 0xAD, 0xDE]);
    let mut v: u32 = 0;
    assert_eq!(v.from_bytes(&buffer), Ok(4));
    assert_eq!(v, 0xDEAD_BEEF);
}

#[test]
fn test_primitive_insufficient_length() {
    let mut v16: u16 = 0;
    assert_eq!(v16.from_bytes(&[0x34]), Err(2));
    let mut v32: u32 = 0;
    assert_eq!(v32.from_bytes(&[1, 2, 3]), Err(4));
    let mut short = [0u8; 1];
    assert_eq!(0x1234u16.to_bytes(&mut short), Err(2));
}

#[test]
fn test_reader_reads_at_offset() {
    let bytes = [0x00u8, 0x34, 0x12, 0xFF];
    let reader = Reader::init(&bytes);
    let (v, n) = reader.read::<u16>(1).unwrap();
    assert_eq!((v, n), (0x1234, 2));
    let (b, n) = reader.read::<u8>(3).unwrap();
    assert_eq!((b, n), (0xFF, 1));
}

#[test]
fn test_reader_errors_are_absolute() {
    let bytes = [0x00u8, 0x34, 0x12];
    let reader = Reader::init(&bytes);
    // A u16 at offset 2 runs past the end: two more bytes from offset 2.
    assert_eq!(reader.read::<u16>(2), Err(4));
    // An offset past the end is itself the requirement.
    assert_eq!(reader.read::<u8>(7), Err(7));
}

#[test]
fn test_reader_read_n_consecutive_values() {
    let bytes = [0xAAu8, 0x01, 0x00, 0x02, 0x00, 0x03, 0x00];
    let reader = Reader::init(&bytes);
    let (vals, size) = reader.read_n::<u16, 4>(1, 3).unwrap();
    assert_eq!(size, 6);
    assert_eq!(vals, [1, 2, 3, 0]);
}

#[test]
fn test_reader_read_n_accumulates_requirement() {
    let bytes = [0xAAu8, 0x01, 0x00, 0x02];
    let reader = Reader::init(&bytes);
    // Two entries from offset 1 need bytes up to offset 5.
    assert_eq!(reader.read_n::<u16, 4>(1, 2), Err(5));
}

#[test]
fn test_writer_writes_at_offset() {
    let mut bytes = [0u8; 6];
    let mut writer = Writer::init(&mut bytes);
    assert_eq!(writer.write(&0x1234u16, 2), Ok(2));
    assert_eq!(writer.write(&0xFFu8, 0), Ok(1));
    assert_eq!(bytes, [0xFF, 0x00, 0x34, 0x12, 0x00, 0x00]);
}

#[test]
fn test_writer_errors_are_absolute() {
    let mut bytes = [0u8; 3];
    let mut writer = Writer::init(&mut bytes);
    assert_eq!(writer.write(&0x1234u16, 2), Err(4));
    assert_eq!(writer.write(&0u8, 9), Err(9));
}

#[test]
fn test_writer_write_n_back_to_back() {
    let mut bytes = [0u8; 8];
    let mut writer = Writer::init(&mut bytes);
    assert_eq!(writer.write_n(&[0x0102u16, 0x0304, 0x0506], 1), Ok(6));
    assert_eq!(bytes, [0x00, 0x02, 0x01, 0x04, 0x03, 0x06, 0x05, 0x00]);
}

#[test]
fn test_writer_write_n_reports_first_value_that_does_not_fit() {
    let mut bytes = [0u8; 5];
    let mut writer = Writer::init(&mut bytes);
    // The third value would need bytes up to offset 6.
    assert_eq!(writer.write_n(&[0x0102u16, 0x0304, 0x0506], 0), Err(6));
}
