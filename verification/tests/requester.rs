use spdm::protocol::msg::ErrorCode;
use spdm::requester::Requester;

fn version_response(entries: &[u16]) -> Vec<u8> {
    let mut bytes = vec![0x10, 0x04, 0x00, 0x00, 0x00, entries.len() as u8];
    for e in entries {
        bytes.push((*e & 0xFF) as u8);
        bytes.push((*e >> 8) as u8);
    }
    bytes
}

#[test]
fn test_first_step_produces_get_version() {
    let mut requester = Requester::new();
    let write_buffer = &mut [0u8; 1024][..];
    let (needed, produced) = requester.vca(&[], write_buffer).unwrap();
    assert_eq!(needed, 0);
    assert_eq!(produced, 4);
    assert_eq!(&write_buffer[..4], &[0x10, 0x84, 0x00, 0x00]);
}

#[test]
fn test_short_version_response_is_asked_for_again() {
    let mut requester = Requester::new();
    let write_buffer = &mut [0u8; 1024][..];
    requester.vca(&[], write_buffer).unwrap();
    // Nothing read yet: the header through the count byte is needed.
    assert_eq!(requester.vca(&[], write_buffer), Ok((6, 0)));
    // Three bytes read: three more to reach the count byte.
    assert_eq!(requester.vca(&[0x10, 0x04, 0x00], write_buffer), Ok((3, 0)));
    // Count says two entries, only one spare byte so far: ten in all.
    let partial = [0x10, 0x04, 0x00, 0x00, 0x00, 0x02, 0x34];
    assert_eq!(requester.vca(&partial, write_buffer), Ok((3, 0)));
    // The shortfall never advances the session: the full response still works.
    let full = version_response(&[0x1234, 0x1100]);
    assert_eq!(requester.vca(&full, write_buffer), Ok((0, 0)));
}

#[test]
fn test_full_negotiation_reaches_terminal_state() {
    let mut requester = Requester::new();
    let write_buffer = &mut [0u8; 1024][..];

    assert_eq!(requester.vca(&[], write_buffer), Ok((0, 4)));
    assert_eq!(&write_buffer[..4], &[0x10, 0x84, 0x00, 0x00]);

    let version = version_response(&[0x1100, 0x1234]);
    assert_eq!(requester.vca(&version, write_buffer), Ok((0, 0)));

    assert_eq!(requester.vca(&[], write_buffer), Ok((0, 4)));
    assert_eq!(&write_buffer[..4], &[0x10, 0xE1, 0x00, 0x00]);

    let capabilities = [0x10, 0x61, 0x00, 0x00];
    assert_eq!(requester.vca(&capabilities, write_buffer), Ok((0, 0)));

    assert_eq!(requester.vca(&[], write_buffer), Ok((0, 4)));
    assert_eq!(&write_buffer[..4], &[0x10, 0xE3, 0x00, 0x00]);

    let algorithms = [0x10, 0x63, 0x00, 0x00];
    assert_eq!(requester.vca(&algorithms, write_buffer), Ok((0, 0)));

    // Terminal: further steps are no-ops and leave the buffer alone.
    write_buffer[0] = 0x77;
    for _ in 0..3usize {
        assert_eq!(requester.vca(&[], write_buffer), Ok((0, 0)));
        assert_eq!(write_buffer[0], 0x77);
    }
}

#[test]
fn test_highest_offered_version_is_recorded() {
    let mut requester = Requester::new();
    let write_buffer = &mut [0u8; 1024][..];
    requester.vca(&[], write_buffer).unwrap();
    assert_eq!(requester.negotiated(), None);
    // The highest entry wins no matter where the peer put it.
    let version = version_response(&[0x1100, 0x2000, 0x1234]);
    assert_eq!(requester.vca(&version, write_buffer), Ok((0, 0)));
    assert_eq!(requester.negotiated(), Some(0x2000));

    let mut other = Requester::new();
    other.vca(&[], write_buffer).unwrap();
    let reversed = version_response(&[0x2000, 0x1234, 0x1100]);
    assert_eq!(other.vca(&reversed, write_buffer), Ok((0, 0)));
    assert_eq!(other.negotiated(), Some(0x2000));
}

#[test]
fn test_unknown_opcode_is_invalid_request() {
    let mut requester = Requester::new();
    let write_buffer = &mut [0u8; 1024][..];
    requester.vca(&[], write_buffer).unwrap();
    let bogus = [0x10, 0x00, 0x00, 0x00, 0x00, 0x01, 0x34, 0x12];
    assert_eq!(
        requester.vca(&bogus, write_buffer),
        Err(ErrorCode::InvalidRequest)
    );
}

#[test]
fn test_wrong_response_is_unexpected_request() {
    let mut requester = Requester::new();
    let write_buffer = &mut [0u8; 1024][..];
    requester.vca(&[], write_buffer).unwrap();
    // DIGESTS is a known opcode, but not the awaited VERSION.
    let digests = [0x10, 0x01, 0x00, 0x00, 0x00, 0x00];
    assert_eq!(
        requester.vca(&digests, write_buffer),
        Err(ErrorCode::UnexpectedRequest)
    );
}

#[test]
fn test_version_without_entries_is_version_mismatch() {
    let mut requester = Requester::new();
    let write_buffer = &mut [0u8; 1024][..];
    requester.vca(&[], write_buffer).unwrap();
    let empty = version_response(&[]);
    assert_eq!(
        requester.vca(&empty, write_buffer),
        Err(ErrorCode::MajorVersionMismatch)
    );
}

#[test]
fn test_version_with_count_over_ceiling_is_invalid_request() {
    let mut requester = Requester::new();
    let write_buffer = &mut [0u8; 1024][..];
    requester.vca(&[], write_buffer).unwrap();
    let mut oversized = vec![0x10, 0x04, 0x00, 0x00, 0x00, 11];
    oversized.extend(std::iter::repeat(0u8).take(22));
    assert_eq!(
        requester.vca(&oversized, write_buffer),
        Err(ErrorCode::InvalidRequest)
    );
}

#[test]
fn test_write_buffer_too_small_fails_the_step() {
    let mut requester = Requester::new();
    let write_buffer = &mut [0u8; 2][..];
    assert_eq!(
        requester.vca(&[], write_buffer),
        Err(ErrorCode::Unspecified)
    );
    // The failed step did not advance: a big enough buffer still works.
    let big_buffer = &mut [0u8; 1024][..];
    assert_eq!(requester.vca(&[], big_buffer), Ok((0, 4)));
    assert_eq!(&big_buffer[..4], &[0x10, 0x84, 0x00, 0x00]);
}
