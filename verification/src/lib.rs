//! The message layer of an SPDM-style device-attestation handshake: a fixed
//! little-endian wire codec for the negotiation messages, and the
//! requester-side state machine that drives the Version / Capabilities /
//! Algorithms phase over any byte-oriented transport.  The library never
//! performs I/O: every operation is a buffer transform that reports exactly
//! how many bytes it still needs or has produced.

pub mod protocol;
pub mod requester;
pub mod utils;
