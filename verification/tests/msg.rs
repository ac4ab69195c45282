use spdm::protocol::msg::ErrorCode;
use spdm::protocol::msg::RequestResponseCode;

#[test]
#[allow(non_snake_case)]
fn test_RequestResponseCode_output() {
    assert_eq!("ALGORITHMS(0x63)", RequestResponseCode::ALGORITHMS.display());
}

#[test]
fn test_display_covers_requests_and_responses() {
    assert_eq!("GET_VERSION(0x84)", RequestResponseCode::GET_VERSION.display());
    assert_eq!("VERSION(0x04)", RequestResponseCode::VERSION.display());
    assert_eq!("ERROR(0x7f)", RequestResponseCode::ERROR.display());
}

#[test]
fn test_try_from_accepts_every_opcode() {
    let cases: [(u8, RequestResponseCode); 18] = [
        (0x81, RequestResponseCode::GET_DIGESTS),
        (0x82, RequestResponseCode::GET_CERTIFICATE),
        (0x83, RequestResponseCode::CHALLENGE),
        (0x84, RequestResponseCode::GET_VERSION),
        (0xE0, RequestResponseCode::GET_MEASUREMENTS),
        (0xE1, RequestResponseCode::GET_CAPABILITIES),
        (0xE3, RequestResponseCode::NEGOTIATE_ALGORITHMS),
        (0xFF, RequestResponseCode::RESPOND_IF_READY),
        (0xFE, RequestResponseCode::VENDOR_DEFINED_REQUEST),
        (0x01, RequestResponseCode::DIGESTS),
        (0x02, RequestResponseCode::CERTIFICATE),
        (0x03, RequestResponseCode::CHALLENGE_AUTH),
        (0x04, RequestResponseCode::VERSION),
        (0x60, RequestResponseCode::MEASUREMENTS),
        (0x61, RequestResponseCode::CAPABILITIES),
        (0x63, RequestResponseCode::ALGORITHMS),
        (0x7E, RequestResponseCode::VENDOR_DEFINED_RESPONSE),
        (0x7F, RequestResponseCode::ERROR),
    ];
    for (byte, code) in cases {
        assert_eq!(RequestResponseCode::try_from(byte), Ok(code));
        assert_eq!(code.code(), byte);
    }
}

#[test]
fn test_try_from_rejects_unknown_bytes() {
    assert_eq!(
        RequestResponseCode::try_from(0x00),
        Err(ErrorCode::InvalidRequest)
    );
    assert_eq!(
        RequestResponseCode::try_from(0x42),
        Err(ErrorCode::InvalidRequest)
    );
    assert_eq!(
        RequestResponseCode::try_from(0x80),
        Err(ErrorCode::InvalidRequest)
    );
}

#[test]
fn test_error_code_wire_values() {
    assert_eq!(ErrorCode::InvalidRequest.code(), 0x01);
    assert_eq!(ErrorCode::Busy.code(), 0x03);
    assert_eq!(ErrorCode::UnexpectedRequest.code(), 0x04);
    assert_eq!(ErrorCode::Unspecified.code(), 0x05);
    assert_eq!(ErrorCode::UnsupportedRequest.code(), 0x07);
    assert_eq!(ErrorCode::MajorVersionMismatch.code(), 0x41);
    assert_eq!(ErrorCode::ResponseNotReady.code(), 0x42);
    assert_eq!(ErrorCode::RequestResynch.code(), 0x43);
    assert_eq!(ErrorCode::VendorStandardsDefined.code(), 0xFF);
}
