#![allow(non_snake_case)]
#![allow(non_camel_case_types)]

use vstd::prelude::*;

pub mod GET_VERSION;
pub mod VERSION;

verus! {

/// Byte offset of the SPDM version field in every message header.
pub const OFFSET_SPDM_VERSION: usize = 0;

/// Byte offset of the opcode field in every message header.
pub const OFFSET_REQUEST_RESPONSE_CODE: usize = 1;

/// Byte offset of the first parameter field in every message header.
pub const OFFSET_PARAM1: usize = 2;

/// Byte offset of the second parameter field in every message header.
pub const OFFSET_PARAM2: usize = 3;

/// The closed set of error codes a peer can be told about.
#[derive(Clone, Copy, Debug, PartialEq, Eq, Structural)]
pub enum ErrorCode {
    InvalidRequest,
    Busy,
    UnexpectedRequest,
    Unspecified,
    UnsupportedRequest,
    MajorVersionMismatch,
    ResponseNotReady,
    RequestResynch,
    VendorStandardsDefined,
}

impl ErrorCode {
    /// The wire value of this error code.
    pub open spec fn code_spec(self) -> u8 {
        match self {
            ErrorCode::InvalidRequest => 0x01,
            ErrorCode::Busy => 0x03,
            ErrorCode::UnexpectedRequest => 0x04,
            ErrorCode::Unspecified => 0x05,
            ErrorCode::UnsupportedRequest => 0x07,
            ErrorCode::MajorVersionMismatch => 0x41,
            ErrorCode::ResponseNotReady => 0x42,
            ErrorCode::RequestResynch => 0x43,
            ErrorCode::VendorStandardsDefined => 0xFF,
        }
    }

    /// The wire value of this error code.
    pub fn code(&self) -> (r: u8)
        ensures
            r == self.code_spec(),
    {
        match self {
            ErrorCode::InvalidRequest => 0x01,
            ErrorCode::Busy => 0x03,
            ErrorCode::UnexpectedRequest => 0x04,
            ErrorCode::Unspecified => 0x05,
            ErrorCode::UnsupportedRequest => 0x07,
            ErrorCode::MajorVersionMismatch => 0x41,
            ErrorCode::ResponseNotReady => 0x42,
            ErrorCode::RequestResynch => 0x43,
            ErrorCode::VendorStandardsDefined => 0xFF,
        }
    }
}

/// The closed set of request and response opcodes.
#[derive(Clone, Copy, Debug, PartialEq, Eq, Structural)]
pub enum RequestResponseCode {
    GET_DIGESTS,
    GET_CERTIFICATE,
    CHALLENGE,
    GET_VERSION,
    GET_MEASUREMENTS,
    GET_CAPABILITIES,
    NEGOTIATE_ALGORITHMS,
    RESPOND_IF_READY,
    VENDOR_DEFINED_REQUEST,
    DIGESTS,
    CERTIFICATE,
    CHALLENGE_AUTH,
    VERSION,
    MEASUREMENTS,
    CAPABILITIES,
    ALGORITHMS,
    VENDOR_DEFINED_RESPONSE,
    ERROR,
}

/// Whether `value` is the wire byte of some opcode in the closed set.
pub open spec fn is_opcode_byte(value: u8) -> bool {
    ||| value == 0x81
    ||| value == 0x82
    ||| value == 0x83
    ||| value == 0x84
    ||| value == 0xE0
    ||| value == 0xE1
    ||| value == 0xE3
    ||| value == 0xFF
    ||| value == 0xFE
    ||| value == 0x01
    ||| value == 0x02
    ||| value == 0x03
    ||| value == 0x04
    ||| value == 0x60
    ||| value == 0x61
    ||| value == 0x63
    ||| value == 0x7E
    ||| value == 0x7F
}

impl RequestResponseCode {
    /// The wire byte of this opcode.
    pub open spec fn code_spec(self) -> u8 {
        match self {
            RequestResponseCode::GET_DIGESTS => 0x81,
            RequestResponseCode::GET_CERTIFICATE => 0x82,
            RequestResponseCode::CHALLENGE => 0x83,
            RequestResponseCode::GET_VERSION => 0x84,
            RequestResponseCode::GET_MEASUREMENTS => 0xE0,
            RequestResponseCode::GET_CAPABILITIES => 0xE1,
            RequestResponseCode::NEGOTIATE_ALGORITHMS => 0xE3,
            RequestResponseCode::RESPOND_IF_READY => 0xFF,
            RequestResponseCode::VENDOR_DEFINED_REQUEST => 0xFE,
            RequestResponseCode::DIGESTS => 0x01,
            RequestResponseCode::CERTIFICATE => 0x02,
            RequestResponseCode::CHALLENGE_AUTH => 0x03,
            RequestResponseCode::VERSION => 0x04,
            RequestResponseCode::MEASUREMENTS => 0x60,
            RequestResponseCode::CAPABILITIES => 0x61,
            RequestResponseCode::ALGORITHMS => 0x63,
            RequestResponseCode::VENDOR_DEFINED_RESPONSE => 0x7E,
            RequestResponseCode::ERROR => 0x7F,
        }
    }

    /// The wire byte of this opcode.
    pub fn code(&self) -> (r: u8)
        ensures
            r == self.code_spec(),
    {
        match self {
            RequestResponseCode::GET_DIGESTS => 0x81,
            RequestResponseCode::GET_CERTIFICATE => 0x82,
            RequestResponseCode::CHALLENGE => 0x83,
            RequestResponseCode::GET_VERSION => 0x84,
            RequestResponseCode::GET_MEASUREMENTS => 0xE0,
            RequestResponseCode::GET_CAPABILITIES => 0xE1,
            RequestResponseCode::NEGOTIATE_ALGORITHMS => 0xE3,
            RequestResponseCode::RESPOND_IF_READY => 0xFF,
            RequestResponseCode::VENDOR_DEFINED_REQUEST => 0xFE,
            RequestResponseCode::DIGESTS => 0x01,
            RequestResponseCode::CERTIFICATE => 0x02,
            RequestResponseCode::CHALLENGE_AUTH => 0x03,
            RequestResponseCode::VERSION => 0x04,
            RequestResponseCode::MEASUREMENTS => 0x60,
            RequestResponseCode::CAPABILITIES => 0x61,
            RequestResponseCode::ALGORITHMS => 0x63,
            RequestResponseCode::VENDOR_DEFINED_RESPONSE => 0x7E,
            RequestResponseCode::ERROR => 0x7F,
        }
    }

    /// Parse an opcode byte.  Exactly the bytes of the closed set parse;
    /// every other byte is rejected as `InvalidRequest`.
    pub fn try_from(value: u8) -> (r: Result<Self, ErrorCode>)
        ensures
            match r {
                Ok(c) => is_opcode_byte(value) && c.code_spec() == value,
                Err(e) => !is_opcode_byte(value) && e == ErrorCode::InvalidRequest,
            },
    {
        match value {
            0x81 => Ok(Self::GET_DIGESTS),
            0x82 => Ok(Self::GET_CERTIFICATE),
            0x83 => Ok(Self::CHALLENGE),
            0x84 => Ok(Self::GET_VERSION),
            0xE0 => Ok(Self::GET_MEASUREMENTS),
            0xE1 => Ok(Self::GET_CAPABILITIES),
            0xE3 => Ok(Self::NEGOTIATE_ALGORITHMS),
            0xFF => Ok(Self::RESPOND_IF_READY),
            0xFE => Ok(Self::VENDOR_DEFINED_REQUEST),
            0x01 => Ok(Self::DIGESTS),
            0x02 => Ok(Self::CERTIFICATE),
            0x03 => Ok(Self::CHALLENGE_AUTH),
            0x04 => Ok(Self::VERSION),
            0x60 => Ok(Self::MEASUREMENTS),
            0x61 => Ok(Self::CAPABILITIES),
            0x63 => Ok(Self::ALGORITHMS),
            0x7E => Ok(Self::VENDOR_DEFINED_RESPONSE),
            0x7F => Ok(Self::ERROR),
            _ => Err(ErrorCode::InvalidRequest),
        }
    }

    /// The name of this opcode followed by its wire byte, as the peer log
    /// prints it.
    pub open spec fn display_spec(self) -> Seq<char> {
        match self {
            RequestResponseCode::GET_DIGESTS => "GET_DIGESTS(0x81)"@,
            RequestResponseCode::GET_CERTIFICATE => "GET_CERTIFICATE(0x82)"@,
            RequestResponseCode::CHALLENGE => "CHALLENGE(0x83)"@,
            RequestResponseCode::GET_VERSION => "GET_VERSION(0x84)"@,
            RequestResponseCode::GET_MEASUREMENTS => "GET_MEASUREMENTS(0xe0)"@,
            RequestResponseCode::GET_CAPABILITIES => "GET_CAPABILITIES(0xe1)"@,
            RequestResponseCode::NEGOTIATE_ALGORITHMS => "NEGOTIATE_ALGORITHMS(0xe3)"@,
            RequestResponseCode::RESPOND_IF_READY => "RESPOND_IF_READY(0xff)"@,
            RequestResponseCode::VENDOR_DEFINED_REQUEST => "VENDOR_DEFINED_REQUEST(0xfe)"@,
            RequestResponseCode::DIGESTS => "DIGESTS(0x01)"@,
            RequestResponseCode::CERTIFICATE => "CERTIFICATE(0x02)"@,
            RequestResponseCode::CHALLENGE_AUTH => "CHALLENGE_AUTH(0x03)"@,
            RequestResponseCode::VERSION => "VERSION(0x04)"@,
            RequestResponseCode::MEASUREMENTS => "MEASUREMENTS(0x60)"@,
            RequestResponseCode::CAPABILITIES => "CAPABILITIES(0x61)"@,
            RequestResponseCode::ALGORITHMS => "ALGORITHMS(0x63)"@,
            RequestResponseCode::VENDOR_DEFINED_RESPONSE => "VENDOR_DEFINED_RESPONSE(0x7e)"@,
            RequestResponseCode::ERROR => "ERROR(0x7f)"@,
        }
    }

    /// The name of this opcode followed by its wire byte.
    pub fn display(&self) -> (r: &'static str)
        ensures
            r@ == self.display_spec(),
    {
        match self {
            RequestResponseCode::GET_DIGESTS => "GET_DIGESTS(0x81)",
            RequestResponseCode::GET_CERTIFICATE => "GET_CERTIFICATE(0x82)",
            RequestResponseCode::CHALLENGE => "CHALLENGE(0x83)",
            RequestResponseCode::GET_VERSION => "GET_VERSION(0x84)",
            RequestResponseCode::GET_MEASUREMENTS => "GET_MEASUREMENTS(0xe0)",
            RequestResponseCode::GET_CAPABILITIES => "GET_CAPABILITIES(0xe1)",
            RequestResponseCode::NEGOTIATE_ALGORITHMS => "NEGOTIATE_ALGORITHMS(0xe3)",
            RequestResponseCode::RESPOND_IF_READY => "RESPOND_IF_READY(0xff)",
            RequestResponseCode::VENDOR_DEFINED_REQUEST => "VENDOR_DEFINED_REQUEST(0xfe)",
            RequestResponseCode::DIGESTS => "DIGESTS(0x01)",
            RequestResponseCode::CERTIFICATE => "CERTIFICATE(0x02)",
            RequestResponseCode::CHALLENGE_AUTH => "CHALLENGE_AUTH(0x03)",
            RequestResponseCode::VERSION => "VERSION(0x04)",
            RequestResponseCode::MEASUREMENTS => "MEASUREMENTS(0x60)",
            RequestResponseCode::CAPABILITIES => "CAPABILITIES(0x61)",
            RequestResponseCode::ALGORITHMS => "ALGORITHMS(0x63)",
            RequestResponseCode::VENDOR_DEFINED_RESPONSE => "VENDOR_DEFINED_RESPONSE(0x7e)",
            RequestResponseCode::ERROR => "ERROR(0x7f)",
        }
    }
}

} // verus!
