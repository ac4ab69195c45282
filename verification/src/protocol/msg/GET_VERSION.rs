#![allow(non_snake_case)]
#![allow(non_camel_case_types)]

use crate::protocol::msg::OFFSET_PARAM1;
use crate::protocol::msg::OFFSET_PARAM2;
use crate::protocol::msg::OFFSET_REQUEST_RESPONSE_CODE;
use crate::protocol::msg::OFFSET_SPDM_VERSION;
use crate::utils::Bytes;
use crate::utils::Reader;
use crate::utils::Writer;
use vstd::prelude::*;

verus! {

/// The GET_VERSION request: a bare 4-byte message header asking the peer for
/// the protocol versions it supports.
#[derive(Clone, Copy, Debug, PartialEq, Eq, Structural)]
pub struct GET_VERSION {
    pub SPDMVersion: u8,
    pub RequestResponseCode: u8,
    pub Param1: u8,
    pub Param2: u8,
}

impl Default for GET_VERSION {
    /// The request as it goes on the wire: version 1.0, opcode 0x84, zero
    /// parameters.
    fn default() -> (r: Self)
        ensures
            r.SPDMVersion == 0x10,
            r.RequestResponseCode == 0x84,
            r.Param1 == 0,
            r.Param2 == 0,
    {
        Self { SPDMVersion: 0x10, RequestResponseCode: 0x84, Param1: 0, Param2: 0 }
    }
}

impl GET_VERSION {
    /// A fresh GET_VERSION request with the fixed header fields.
    pub fn new() -> (r: Self)
        ensures
            r.SPDMVersion == 0x10,
            r.RequestResponseCode == 0x84,
            r.Param1 == 0,
            r.Param2 == 0,
    {
        Self::default()
    }

    /// GET_VERSION carries no payload, so there is nothing to validate.
    pub fn validation() -> (r: Result<(), crate::protocol::msg::ErrorCode>)
        ensures
            r is Ok,
    {
        Ok(())
    }
}

impl Bytes for GET_VERSION {
    open spec fn wf(&self) -> bool {
        true
    }

    open spec fn enc(&self) -> Seq<u8> {
        seq![self.SPDMVersion, self.RequestResponseCode, self.Param1, self.Param2]
    }

    open spec fn dec_ok(bytes: Seq<u8>) -> bool {
        bytes.len() >= 4
    }

    open spec fn dec_len(bytes: Seq<u8>) -> nat {
        4
    }

    open spec fn dec_req(bytes: Seq<u8>) -> nat {
        4
    }

    open spec fn dec_rel(bytes: Seq<u8>, v: Self) -> bool {
        &&& v.SPDMVersion == bytes[0]
        &&& v.RequestResponseCode == bytes[1]
        &&& v.Param1 == bytes[2]
        &&& v.Param2 == bytes[3]
    }

    proof fn lemma_dec_len_bound(bytes: Seq<u8>) {
    }

    fn from_bytes(&mut self, bytes: &[u8]) -> (r: Result<usize, usize>) {
        let length = OFFSET_PARAM2 + 1;
        if bytes.len() < length {
            return Err(length);
        }
        let reader = Reader::init(bytes);
        let (v0, _) = reader.read::<u8>(OFFSET_SPDM_VERSION).unwrap();
        let (v1, _) = reader.read::<u8>(OFFSET_REQUEST_RESPONSE_CODE).unwrap();
        let (v2, _) = reader.read::<u8>(OFFSET_PARAM1).unwrap();
        let (v3, _) = reader.read::<u8>(OFFSET_PARAM2).unwrap();
        self.SPDMVersion = v0;
        self.RequestResponseCode = v1;
        self.Param1 = v2;
        self.Param2 = v3;
        Ok(length)
    }

    fn to_bytes(&self, bytes: &mut [u8]) -> (r: Result<usize, usize>) {
        let length = OFFSET_PARAM2 + 1;
        if bytes.len() < length {
            return Err(length);
        }
        let mut writer = Writer::init(bytes);
        let ghost g0: Seq<u8> = writer.buf@;
        writer.write(&self.SPDMVersion, OFFSET_SPDM_VERSION).unwrap();
        let ghost g1: Seq<u8> = writer.buf@;
        writer.write(&self.RequestResponseCode, OFFSET_REQUEST_RESPONSE_CODE).unwrap();
        let ghost g2: Seq<u8> = writer.buf@;
        writer.write(&self.Param1, OFFSET_PARAM1).unwrap();
        let ghost g3: Seq<u8> = writer.buf@;
        writer.write(&self.Param2, OFFSET_PARAM2).unwrap();
        let ghost g4: Seq<u8> = writer.buf@;
        proof {
            assert(g1.subrange(0, 1)[0] == self.SPDMVersion);
            assert(g2.subrange(1, 2)[0] == self.RequestResponseCode);
            assert(g3.subrange(2, 3)[0] == self.Param1);
            assert(g4.subrange(3, 4)[0] == self.Param2);
            assert(g2.subrange(0, 1)[0] == g1.subrange(0, 1)[0]);
            assert(g3.subrange(0, 2)[0] == g2.subrange(0, 2)[0]);
            assert(g3.subrange(0, 2)[1] == g2.subrange(0, 2)[1]);
            assert(g4.subrange(0, 3)[0] == g3.subrange(0, 3)[0]);
            assert(g4.subrange(0, 3)[1] == g3.subrange(0, 3)[1]);
            assert(g4.subrange(0, 3)[2] == g3.subrange(0, 3)[2]);
            assert forall|i: int| 4 <= i < g0.len() implies g4[i] == g0[i] by {
                assert(g1.skip(1)[i - 1] == g0.skip(1)[i - 1]);
                assert(g2.skip(2)[i - 2] == g1.skip(2)[i - 2]);
                assert(g3.skip(3)[i - 3] == g2.skip(3)[i - 3]);
                assert(g4.skip(4)[i - 4] == g3.skip(4)[i - 4]);
            }
            assert(has_resolved(writer));
            assert(final(bytes)@ == g4);
            assert(final(bytes)@.subrange(0, 4) =~= self.enc());
            assert(final(bytes)@.skip(4) =~= old(bytes)@.skip(4));
        }
        Ok(length)
    }
}

} // verus!
