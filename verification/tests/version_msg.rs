#![allow(non_snake_case)]

use spdm::protocol::GET_VERSION;
use spdm::protocol::VersionNumberEntry;
use spdm::protocol::VERSION;
use spdm::utils::Bytes;

#[test]
fn test_spdm_version_entry() {
    let v = VersionNumberEntry(0x1234);
    assert_eq!(v.MajorVersion(), 1);
    assert_eq!(v.MinorVersion(), 2);
    assert_eq!(v.UpdateVersionNumber(), 3);
    assert_eq!(v.Alpha(), 4);

    assert_eq!(std::mem::size_of::<VersionNumberEntry>(), 2);
}

#[test]
fn test_version_entry_packing_is_lossless() {
    let major: u16 = 1;
    let minor: u16 = 2;
    let update: u16 = 3;
    let alpha: u16 = 4;
    let packed = VersionNumberEntry((major << 12) | (minor << 8) | (update << 4) | alpha);
    assert_eq!(packed.0, 0x1234);
    assert_eq!(packed.MajorVersion() as u16, major);
    assert_eq!(packed.MinorVersion() as u16, minor);
    assert_eq!(packed.UpdateVersionNumber() as u16, update);
    assert_eq!(packed.Alpha() as u16, alpha);

    let raw = VersionNumberEntry(0xFA5C);
    let repacked = ((raw.MajorVersion() as u16) << 12)
        | ((raw.MinorVersion() as u16) << 8)
        | ((raw.UpdateVersionNumber() as u16) << 4)
        | (raw.Alpha() as u16);
    assert_eq!(repacked, 0xFA5C);
}

#[test]
fn test_get_version_encodes_fixed_header() {
    let msg = GET_VERSION::new();
    let mut buffer = [0xAAu8; 8];
    assert_eq!(msg.to_bytes(&mut buffer), Ok(4));
    assert_eq!(&buffer[..4], &[0x10, 0x84, 0x00, 0x00]);
    assert_eq!(&buffer[4..], &[0xAA; 4]);
}

#[test]
fn test_get_version_decode_reports_required_length() {
    let mut msg = GET_VERSION::new();
    let short = [0x10u8, 0x84, 0x00];
    assert_eq!(msg.from_bytes(&short), Err(4));
    let exact = [0x10u8, 0x84, 0x00, 0x00];
    assert_eq!(msg.from_bytes(&exact), Ok(4));
}

#[test]
fn test_get_version_validation_accepts() {
    assert!(GET_VERSION::validation().is_ok());
}

#[test]
fn test_version_encode_exact_bytes() {
    let mut msg = VERSION::default();
    msg.VersionNumberEntryCount = 2;
    msg.VersionNumberEntry1_n[0] = VersionNumberEntry(0x1234);
    msg.VersionNumberEntry1_n[1] = VersionNumberEntry(0x5678);
    let mut buffer = [0u8; 16];
    assert_eq!(msg.to_bytes(&mut buffer), Ok(10));
    assert_eq!(
        &buffer[..10],
        &[0x10, 0x04, 0x00, 0x00, 0x00, 0x02, 0x34, 0x12, 0x78, 0x56]
    );
}

#[test]
fn test_version_round_trip() {
    let mut msg = VERSION::default();
    msg.VersionNumberEntryCount = 3;
    msg.VersionNumberEntry1_n[0] = VersionNumberEntry(0x1100);
    msg.VersionNumberEntry1_n[1] = VersionNumberEntry(0x1234);
    msg.VersionNumberEntry1_n[2] = VersionNumberEntry(0xFFFF);
    let mut buffer = [0u8; 32];
    let written = msg.to_bytes(&mut buffer).unwrap();
    assert_eq!(written, 6 + 2 * 3);

    let mut decoded = VERSION::default();
    assert_eq!(decoded.from_bytes(&buffer[..written]), Ok(written));
    assert_eq!(decoded.SPDMVersion, msg.SPDMVersion);
    assert_eq!(decoded.RequestResponseCode, msg.RequestResponseCode);
    assert_eq!(decoded.Param1, msg.Param1);
    assert_eq!(decoded.Param2, msg.Param2);
    assert_eq!(decoded.VersionNumberEntryCount, msg.VersionNumberEntryCount);
    for i in 0..10usize {
        assert_eq!(decoded.VersionNumberEntry1_n[i], msg.VersionNumberEntry1_n[i]);
    }
}

#[test]
fn test_version_decode_reports_aggregate_required_length() {
    // Header and count present, two entries promised, but only one spare byte.
    let bytes = [0x10u8, 0x04, 0x00, 0x00, 0x00, 0x02, 0x34];
    let mut msg = VERSION::default();
    assert_eq!(msg.from_bytes(&bytes), Err(10));
}

#[test]
fn test_version_decode_short_header() {
    let bytes = [0x10u8, 0x04, 0x00, 0x00, 0x00];
    let mut msg = VERSION::default();
    assert_eq!(msg.from_bytes(&bytes), Err(6));
}

#[test]
fn test_version_decode_count_over_ceiling_keeps_failing() {
    // A count above the fixed capacity can never decode; the reported
    // requirement is the message's wire length.
    let mut bytes = vec![0x10u8, 0x04, 0x00, 0x00, 0x00, 11];
    bytes.extend(std::iter::repeat(0u8).take(22));
    let mut msg = VERSION::default();
    assert_eq!(msg.from_bytes(&bytes), Err(6 + 2 * 11));
}

#[test]
fn test_version_encode_insufficient_buffer() {
    let mut msg = VERSION::default();
    msg.VersionNumberEntryCount = 2;
    let mut buffer = [0u8; 9];
    assert_eq!(msg.to_bytes(&mut buffer), Err(10));
}
